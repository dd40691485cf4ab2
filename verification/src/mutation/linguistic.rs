//! Linguistic mutators: synonym substitution and a politeness frame.
use vstd::prelude::*;
use vstd::string::StringSliceAdditionalSpecFns;
use vstd::utf8::{decode_utf8, encode_utf8, is_char_boundary};

use super::{single_variant, MutatedPrompt, Mutator, MutatorFamily};
use crate::text::{chars_of, concat3, find_bytes, first_occurrence, owned, push_char, push_str, string_from_chars};
use crate::wrappers::{to_lowercase, unicode_lowercase};

verus! {

broadcast use vstd::utf8::encode_utf8_decode_utf8, vstd::utf8::encode_utf8_valid_utf8;

/// Number of entries in the built-in synonym table.
pub const SYNONYM_COUNT: usize = 10;

/// The word replaced by entry `p` of the synonym table.
pub open spec fn synonym_key(p: int) -> Seq<char> {
    if p == 0 {
        "ignore"@
    } else if p == 1 {
        "instructions"@
    } else if p == 2 {
        "system"@
    } else if p == 3 {
        "reveal"@
    } else if p == 4 {
        "password"@
    } else if p == 5 {
        "secret"@
    } else if p == 6 {
        "write"@
    } else if p == 7 {
        "tell"@
    } else if p == 8 {
        "show"@
    } else {
        "previous"@
    }
}

/// The replacement of entry `p` of the synonym table.
pub open spec fn synonym_value(p: int) -> Seq<char> {
    if p == 0 {
        "disregard"@
    } else if p == 1 {
        "directives"@
    } else if p == 2 {
        "platform"@
    } else if p == 3 {
        "disclose"@
    } else if p == 4 {
        "credential"@
    } else if p == 5 {
        "confidential"@
    } else if p == 6 {
        "produce"@
    } else if p == 7 {
        "explain"@
    } else if p == 8 {
        "display"@
    } else {
        "prior"@
    }
}

fn synonym_pair(p: usize) -> (r: (&'static str, &'static str))
    requires
        p < SYNONYM_COUNT,
    ensures
        r.0@ == synonym_key(p as int),
        r.1@ == synonym_value(p as int),
{
    match p {
        0 => ("ignore", "disregard"),
        1 => ("instructions", "directives"),
        2 => ("system", "platform"),
        3 => ("reveal", "disclose"),
        4 => ("password", "credential"),
        5 => ("secret", "confidential"),
        6 => ("write", "produce"),
        7 => ("tell", "explain"),
        8 => ("show", "display"),
        _ => ("previous", "prior"),
    }
}

/// The first table entry (from `p` on) whose key occurs in the lower-cased
/// seed bytes `lower`, with the byte offset of its first occurrence.
pub open spec fn synonym_hit_from(lower: Seq<u8>, p: int) -> Option<(int, int)>
    decreases SYNONYM_COUNT - p,
{
    if p < 0 || p >= SYNONYM_COUNT {
        None
    } else {
        match first_occurrence(lower, encode_utf8(synonym_key(p))) {
            Some(i) => Some((p, i)),
            None => synonym_hit_from(lower, p + 1),
        }
    }
}

/// The table entry applied to `seed` and the byte offset where its key was
/// found in `seed.to_lowercase()`.
pub open spec fn synonym_hit(seed: Seq<char>) -> Option<(int, int)> {
    synonym_hit_from(encode_utf8(unicode_lowercase(seed)), 0)
}

/// The substitution replaces bytes `[i, i + key length)` of the seed itself,
/// at the offset found in its lower-cased form. That range must fall on
/// character boundaries of the seed (else `String::replace_range` panics);
/// it does whenever lower-casing keeps the byte length of everything before
/// the match, as it does for ASCII.
pub open spec fn synonym_defined(seed: Seq<char>) -> bool {
    match synonym_hit(seed) {
        None => true,
        Some((p, i)) => is_char_boundary(encode_utf8(seed), i) && is_char_boundary(
            encode_utf8(seed),
            i + encode_utf8(synonym_key(p)).len(),
        ),
    }
}

/// `s` with its first character upper-cased when it is an ASCII
/// lower-case letter.
pub open spec fn upper_first(s: Seq<char>) -> Seq<char> {
    if s.len() > 0 && 'a' <= s[0] && s[0] <= 'z' {
        seq![((s[0] as u32) - 32) as char] + s.drop_first()
    } else {
        s
    }
}

/// Whether the seed's text at byte `i` starts with an upper-case ASCII
/// letter (a byte in `A..=Z` is always a whole character in UTF-8).
pub open spec fn upper_at(seed: Seq<char>, i: int) -> bool {
    0 <= i < encode_utf8(seed).len() && 65 <= encode_utf8(seed)[i] && encode_utf8(seed)[i] <= 90
}

/// Entry `p`'s value as inserted at byte `i`: the case of the matched
/// text's first letter is kept, so an upper-case match gets an upper-case
/// first letter.
pub open spec fn cased_value(seed: Seq<char>, p: int, i: int) -> Seq<char> {
    if upper_at(seed, i) {
        upper_first(synonym_value(p))
    } else {
        synonym_value(p)
    }
}

/// The seed with bytes `[i, i + key length)` replaced by entry `p`'s value,
/// the first letter's case kept.
pub open spec fn synonym_text(seed: Seq<char>, p: int, i: int) -> Seq<char> {
    decode_utf8(encode_utf8(seed).take(i)) + cased_value(seed, p, i) + decode_utf8(
        encode_utf8(seed).skip(i + encode_utf8(synonym_key(p)).len()),
    )
}

pub open spec fn synonym_spec(seed: Seq<char>) -> Seq<(Seq<char>, Seq<char>)> {
    match synonym_hit(seed) {
        None => seq![],
        Some((p, i)) => seq![(synonym_text(seed, p, i), "linguistic.synonym"@)],
    }
}

fn upper_first_str(s: &str) -> (r: String)
    ensures
        r@ == upper_first(s@),
{
    let v = chars_of(s);
    if v.len() > 0 && 'a' <= v[0] && v[0] <= 'z' {
        let b = v[0] as u8;
        let c = (b - 32) as char;
        let mut r = String::new();
        push_char(&mut r, c);
        let rest = string_from_chars(&v, 1, v.len());
        push_str(&mut r, rest.as_str());
        assert(r@ =~= upper_first(s@));
        r
    } else {
        owned(s)
    }
}

/// Finds the synonym entry to apply: `Some((p, i))` as `synonym_hit`.
fn find_synonym(lower: &str) -> (r: Option<(usize, usize)>)
    ensures
        match r {
            Some((p, i)) => synonym_hit_from(lower.spec_bytes(), 0) == Some((p as int, i as int))
                && p < SYNONYM_COUNT && i + encode_utf8(synonym_key(p as int)).len()
                <= lower.spec_bytes().len() && i + encode_utf8(synonym_key(p as int)).len()
                <= usize::MAX,
            None => synonym_hit_from(lower.spec_bytes(), 0) is None,
        },
{
    let lb = lower.as_bytes();
    let n = lb.len();
    let mut p: usize = 0;
    while p < SYNONYM_COUNT
        invariant
            p <= SYNONYM_COUNT,
            lb@ == lower.spec_bytes(),
            n == lb@.len(),
            synonym_hit_from(lb@, 0) == synonym_hit_from(lb@, p as int),
        decreases SYNONYM_COUNT - p,
    {
        let (from, _to) = synonym_pair(p);
        match find_bytes(lb, from.as_bytes()) {
            Some(idx) => {
                proof {
                    crate::text::lemma_first_occurrence(lb@, from.spec_bytes(), idx as int);
                }
                return Some((p, idx));
            },
            None => {
                assert(first_occurrence(lb@, from.spec_bytes()) is None);
                p += 1;
            },
        }
    }
    None
}

/// Whether `SynonymSubstitution` is defined on `seed` (see `synonym_defined`).
pub fn synonym_accepts(seed: &str) -> (r: bool)
    ensures
        r == synonym_defined(seed@),
{
    let lower = to_lowercase(seed);
    match find_synonym(lower.as_str()) {
        None => true,
        Some((p, idx)) => {
            let (from, _to) = synonym_pair(p);
            let end = idx + from.len();
            seed.is_char_boundary(idx) && seed.is_char_boundary(end)
        },
    }
}

/// Small built-in synonym table: the first table entry whose key occurs in
/// the lower-cased seed is replaced, at that byte offset, by its synonym,
/// keeping the case of the matched text's first letter.
/// No variant when no key occurs.
pub struct SynonymSubstitution;

impl SynonymSubstitution {
    /// `mutate`, or `None` on the seeds where it is not defined.
    pub fn mutate_checked(&self, seed: &str) -> (r: Option<Vec<MutatedPrompt>>)
        ensures
            match r {
                Some(v) => synonym_defined(seed@) && super::prompts_view(v@) == synonym_spec(
                    seed@,
                ),
                None => !synonym_defined(seed@),
            },
    {
        if synonym_accepts(seed) {
            Some(self.mutate(seed))
        } else {
            None
        }
    }
}

impl Mutator for SynonymSubstitution {
    open spec fn spec_id(&self) -> Seq<char> {
        "linguistic.synonym"@
    }

    open spec fn spec_family(&self) -> MutatorFamily {
        MutatorFamily::Linguistic
    }

    open spec fn spec_mutate(&self, seed: Seq<char>) -> Seq<(Seq<char>, Seq<char>)> {
        synonym_spec(seed)
    }

    open spec fn spec_accepts(&self, seed: Seq<char>) -> bool {
        synonym_defined(seed)
    }

    fn id(&self) -> (r: &'static str) {
        "linguistic.synonym"
    }

    fn family(&self) -> (r: MutatorFamily) {
        MutatorFamily::Linguistic
    }

    fn mutate(&self, seed: &str) -> (r: Vec<MutatedPrompt>) {
        let lower = to_lowercase(seed);
        match find_synonym(lower.as_str()) {
            None => {
                let r: Vec<MutatedPrompt> = Vec::new();
                assert(super::prompts_view(r@) =~= seq![]);
                r
            },
            Some((p, idx)) => {
                let (from, to) = synonym_pair(p);
                let end = idx + from.len();
                let (pre, _) = seed.split_at(idx);
                let (_, post) = seed.split_at(end);
                assert(pre.spec_bytes() =~= encode_utf8(seed@).take(idx as int));
                assert(post.spec_bytes() =~= encode_utf8(seed@).skip(end as int));
                let sb = seed.as_bytes();
                let value = if idx < sb.len() && 65 <= sb[idx] && sb[idx] <= 90 {
                    upper_first_str(to)
                } else {
                    owned(to)
                };
                let text = concat3(pre, value.as_str(), post);
                single_variant(text, self.id())
            },
        }
    }
}

/// The seed inside a polite request frame.
pub struct PolitenessVariant;

impl Mutator for PolitenessVariant {
    open spec fn spec_id(&self) -> Seq<char> {
        "linguistic.politeness"@
    }

    open spec fn spec_family(&self) -> MutatorFamily {
        MutatorFamily::Linguistic
    }

    open spec fn spec_mutate(&self, seed: Seq<char>) -> Seq<(Seq<char>, Seq<char>)> {
        seq![
            ("Could you kindly help me with the following? "@ + seed + " Thank you."@, "linguistic.politeness"@),
        ]
    }

    open spec fn spec_accepts(&self, seed: Seq<char>) -> bool {
        true
    }

    fn id(&self) -> (r: &'static str) {
        "linguistic.politeness"
    }

    fn family(&self) -> (r: MutatorFamily) {
        MutatorFamily::Linguistic
    }

    fn mutate(&self, seed: &str) -> (r: Vec<MutatedPrompt>) {
        single_variant(
            concat3("Could you kindly help me with the following? ", seed, " Thank you."),
            self.id(),
        )
    }
}

} // verus!
