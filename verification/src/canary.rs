//! Multi-session canary tokens.
//!
//! A canary is a short, prefixed string a plant prompt can embed so the
//! post-run leak scanner can find it in a probe response from another
//! session. It is `HAMM0R-` followed by the first 11 hex digits of
//! `SHA-256(run_id ':' session_idx ':' scenario_id)`, so the same inputs
//! always give the same canary.
use vstd::prelude::*;

use crate::mutation::encoding::{hex_encode, hex_spec};
use crate::text::{chars_of, concat3, push_char, push_str, string_from_chars, u64_to_decimal, decimal};
use crate::wrappers::{sha256, sha256_digest};
use vstd::utf8::encode_utf8;

verus! {

/// Prefix written into every canary, so the leak scanner can fast-filter
/// response bodies before the substring scan.
pub const CANARY_PREFIX: &'static str = "HAMM0R-";

/// Number of hex digits after the prefix.
pub const HEX_LEN: usize = 11;

/// The bytes that are hashed: run id, `:`, the session index in decimal,
/// `:`, scenario id.
pub open spec fn canary_input(run_id: Seq<char>, session_idx: u32, scenario_id: Seq<char>) -> Seq<u8> {
    encode_utf8(run_id + ":"@ + decimal(session_idx as nat) + ":"@ + scenario_id)
}

/// The canary for a digest: the prefix and the first 11 hex digits of the
/// digest's first 6 bytes.
pub open spec fn canary_of_digest(digest: Seq<u8>) -> Seq<char> {
    "HAMM0R-"@ + hex_spec(digest.take(6)).take(11)
}

/// The canary `generate` returns for its inputs.
pub open spec fn canary_spec(run_id: Seq<char>, session_idx: u32, scenario_id: Seq<char>) -> Seq<char> {
    canary_of_digest(sha256(canary_input(run_id, session_idx, scenario_id)))
}

pub open spec fn is_hex_digit(c: char) -> bool {
    ('0' <= c && c <= '9') || ('a' <= c && c <= 'f')
}

proof fn lemma_hex_spec_shape(b: Seq<u8>)
    ensures
        hex_spec(b).len() == 2 * b.len(),
        forall|i: int| 0 <= i < hex_spec(b).len() ==> is_hex_digit(#[trigger] hex_spec(b)[i]),
    decreases b.len(),
{
    if b.len() > 0 {
        lemma_hex_spec_shape(b.drop_first());
        let x = b[0];
        assert(x >> 4 < 16 && x & 15 < 16) by (bit_vector);
        let head = seq![
            crate::mutation::encoding::hex_lower(x >> 4),
            crate::mutation::encoding::hex_lower(x & 15),
        ];
        assert(hex_spec(b) == head + hex_spec(b.drop_first()));
        assert forall|i: int| 0 <= i < hex_spec(b).len() implies is_hex_digit(
            #[trigger] hex_spec(b)[i],
        ) by {
            if i >= 2 {
                assert(hex_spec(b)[i] == hex_spec(b.drop_first())[i - 2]);
            }
        }
    }
}

/// Every canary is the prefix followed by exactly 11 lower-case hex digits.
pub proof fn lemma_canary_shape(digest: Seq<u8>)
    requires
        digest.len() >= 6,
    ensures
        canary_of_digest(digest).len() == 18,
        canary_of_digest(digest).take(7) == "HAMM0R-"@,
        forall|i: int| 7 <= i < 18 ==> is_hex_digit(#[trigger] canary_of_digest(digest)[i]),
{
    reveal_strlit("HAMM0R-");
    lemma_hex_spec_shape(digest.take(6));
    let h = hex_spec(digest.take(6)).take(11);
    assert(canary_of_digest(digest).take(7) =~= "HAMM0R-"@);
    assert forall|i: int| 7 <= i < 18 implies is_hex_digit(#[trigger] canary_of_digest(digest)[i]) by {
        assert(canary_of_digest(digest)[i] == h[i - 7]);
        assert(h[i - 7] == hex_spec(digest.take(6))[i - 7]);
    }
}

/// The canary for an already computed digest (of at least 6 bytes).
pub fn canary_from_digest(digest: &[u8]) -> (r: String)
    requires
        digest@.len() >= 6,
    ensures
        r@ == canary_of_digest(digest@),
        r@.len() == 18,
{
    let mut head: Vec<u8> = Vec::new();
    let mut i: usize = 0;
    while i < 6
        invariant
            i <= 6,
            digest@.len() >= 6,
            head@ == digest@.take(i as int),
        decreases 6 - i,
    {
        head.push(digest[i]);
        assert(digest@.take(i + 1) =~= digest@.take(i as int).push(digest@[i as int]));
        i += 1;
    }
    let hex = hex_encode(head.as_slice());
    proof {
        lemma_hex_spec_shape(digest@.take(6));
        lemma_canary_shape(digest@);
    }
    let hex_chars = chars_of(hex.as_str());
    let suffix = string_from_chars(&hex_chars, 0, HEX_LEN);
    let mut out = String::from_str(CANARY_PREFIX);
    push_str(&mut out, suffix.as_str());
    proof {
        reveal_strlit("HAMM0R-");
        assert(hex_chars@.subrange(0, 11) =~= hex_spec(digest@.take(6)).take(11));
    }
    out
}

/// Deterministic per-(run, session, scenario) canary string.
///
/// The three inputs are joined with `:` (which never appears in the
/// kebab-case ids, nor in the decimal session index) and hashed.
pub fn generate(run_id: &str, session_idx: u32, scenario_id: &str) -> (r: String)
    ensures
        r@ == canary_spec(run_id@, session_idx, scenario_id@),
        r@.len() == 18,
        r@.take(7) == CANARY_PREFIX@,
        forall|i: int| 7 <= i < 18 ==> is_hex_digit(#[trigger] r@[i]),
{
    let idx = u64_to_decimal(session_idx as u64);
    let mut joined = concat3(run_id, ":", idx.as_str());
    push_str(&mut joined, ":");
    push_str(&mut joined, scenario_id);
    proof {
        reveal_strlit(":");
        assert(joined@ =~= run_id@ + ":"@ + decimal(session_idx as nat) + ":"@ + scenario_id@);
    }
    let digest = sha256_digest(joined.as_str().as_bytes());
    proof {
        reveal_strlit("HAMM0R-");
        lemma_canary_shape(digest@);
    }
    canary_from_digest(digest.as_slice())
}

// ── Injection ────────────────────────────────────────────────────────────────

/// Whitespace that may stand between the braces and the word `canary`:
/// any Unicode whitespace.
pub open spec fn is_blank(c: char) -> bool {
    crate::text::is_unicode_whitespace(c)
}

/// First index at or after `j` that is not whitespace (or `s.len()`).
pub open spec fn skip_blanks(s: Seq<char>, j: int) -> int
    decreases s.len() - j,
{
    if j < 0 || j >= s.len() || !is_blank(s[j]) {
        j
    } else {
        skip_blanks(s, j + 1)
    }
}

/// Where a `{{ canary }}` marker that starts at `i` ends (just past `}}`),
/// if one starts there. Any whitespace may stand inside the braces.
pub open spec fn marker_end(s: Seq<char>, i: int) -> Option<int> {
    if 0 <= i && i + 1 < s.len() && s[i] == '{' && s[i + 1] == '{' {
        let j = skip_blanks(s, i + 2);
        if j + 6 <= s.len() && s.subrange(j, j + 6) == "canary"@ {
            let k = skip_blanks(s, j + 6);
            if k + 1 < s.len() && s[k] == '}' && s[k + 1] == '}' {
                Some(k + 2)
            } else {
                None
            }
        } else {
            None
        }
    } else {
        None
    }
}

/// `s[i..]` with every `{{ canary }}` marker replaced by `canary`, scanning
/// left to right.
pub open spec fn inject_from(s: Seq<char>, canary: Seq<char>, i: int) -> Seq<char>
    decreases s.len() - i,
{
    if i < 0 || i >= s.len() {
        seq![]
    } else {
        match marker_end(s, i) {
            Some(e) => if e > i {
                canary + inject_from(s, canary, e)
            } else {
                seq![]
            },
            None => seq![s[i]] + inject_from(s, canary, i + 1),
        }
    }
}

pub open spec fn inject_spec(s: Seq<char>, canary: Seq<char>) -> Seq<char> {
    inject_from(s, canary, 0)
}

proof fn lemma_skip_blanks(s: Seq<char>, j: int)
    requires
        0 <= j <= s.len(),
    ensures
        j <= skip_blanks(s, j) <= s.len(),
        skip_blanks(s, j) < s.len() ==> !is_blank(s[skip_blanks(s, j)]),
    decreases s.len() - j,
{
    if j < s.len() && is_blank(s[j]) {
        lemma_skip_blanks(s, j + 1);
    }
}

pub(crate) fn skip_blanks_exec(v: &Vec<char>, j: usize) -> (k: usize)
    requires
        j <= v.len(),
    ensures
        k == skip_blanks(v@, j as int),
        j <= k <= v.len(),
{
    let mut k = j;
    while k < v.len() && crate::text::unicode_whitespace(v[k])
        invariant
            j <= k <= v.len(),
            skip_blanks(v@, k as int) == skip_blanks(v@, j as int),
        decreases v.len() - k,
    {
        k += 1;
    }
    k
}

fn word_at(v: &Vec<char>, j: usize) -> (r: bool)
    requires
        j <= v.len(),
    ensures
        r == (j + 6 <= v@.len() && v@.subrange(j as int, j + 6) == "canary"@),
{
    proof {
        reveal_strlit("canary");
    }
    if v.len() - j < 6 {
        return false;
    }
    let r = v[j] == 'c' && v[j + 1] == 'a' && v[j + 2] == 'n' && v[j + 3] == 'a' && v[j + 4] == 'r'
        && v[j + 5] == 'y';
    proof {
        if r {
            assert(v@.subrange(j as int, j + 6) =~= "canary"@);
        } else {
            if v@.subrange(j as int, j + 6) == "canary"@ {
                assert(v@.subrange(j as int, j + 6)[0] == v@[j as int]);
                assert(v@.subrange(j as int, j + 6)[1] == v@[j + 1]);
                assert(v@.subrange(j as int, j + 6)[2] == v@[j + 2]);
                assert(v@.subrange(j as int, j + 6)[3] == v@[j + 3]);
                assert(v@.subrange(j as int, j + 6)[4] == v@[j + 4]);
                assert(v@.subrange(j as int, j + 6)[5] == v@[j + 5]);
            }
        }
    }
    r
}

fn marker_end_exec(v: &Vec<char>, i: usize) -> (r: Option<usize>)
    requires
        i < v.len(),
    ensures
        match r {
            Some(e) => marker_end(v@, i as int) == Some(e as int) && i < e <= v.len(),
            None => marker_end(v@, i as int) is None,
        },
{
    if i + 1 < v.len() && v[i] == '{' && v[i + 1] == '{' {
        let j = skip_blanks_exec(v, i + 2);
        if word_at(v, j) {
            let k = skip_blanks_exec(v, j + 6);
            if k < v.len() && v.len() - k > 1 && v[k] == '}' && v[k + 1] == '}' {
                return Some(k + 2);
            }
        }
    }
    None
}

/// Substitutes `canary` for each `{{canary}}` marker in `text` (any
/// whitespace allowed inside the braces). A literal pass, not a template render,
/// so the payload's other `{{ }}` markers stay as they are.
pub fn inject(text: &str, canary: &str) -> (r: String)
    ensures
        r@ == inject_spec(text@, canary@),
{
    let v = chars_of(text);
    let mut out = String::new();
    let mut i: usize = 0;
    while i < v.len()
        invariant
            v@ == text@,
            i <= v.len(),
            out@ + inject_from(v@, canary@, i as int) == inject_spec(v@, canary@),
        decreases v.len() - i,
    {
        match marker_end_exec(&v, i) {
            Some(e) => {
                push_str(&mut out, canary);
                assert(out@ + inject_from(v@, canary@, e as int) =~= inject_spec(v@, canary@));
                i = e;
            },
            None => {
                push_char(&mut out, v[i]);
                assert(out@ + inject_from(v@, canary@, i + 1) =~= inject_spec(v@, canary@));
                i += 1;
            },
        }
    }
    assert(out@ =~= inject_spec(v@, canary@));
    out
}

proof fn lemma_inject_from_plain(s: Seq<char>, canary: Seq<char>, i: int)
    requires
        0 <= i <= s.len(),
        forall|j: int| 0 <= j < s.len() ==> marker_end(s, j) is None,
    ensures
        inject_from(s, canary, i) == s.skip(i),
    decreases s.len() - i,
{
    if i < s.len() {
        lemma_inject_from_plain(s, canary, i + 1);
        assert(seq![s[i]] + s.skip(i + 1) =~= s.skip(i));
    } else {
        assert(s.skip(i) =~= Seq::<char>::empty());
    }
}

/// Text without a `{{canary}}` marker comes back unchanged.
pub proof fn lemma_inject_without_marker(s: Seq<char>, canary: Seq<char>)
    requires
        forall|j: int| 0 <= j < s.len() ==> marker_end(s, j) is None,
    ensures
        inject_spec(s, canary) == s,
{
    lemma_inject_from_plain(s, canary, 0);
    assert(s.skip(0) =~= s);
}

} // verus!
