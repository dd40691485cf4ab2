//! Prompt-library helpers: ids from names, tags and OWASP references.
use vstd::prelude::*;

use crate::text::{
    strings_view, ascii_alnum, ascii_lower, chars_of, decimal, dedup, is_ascii_alnum, is_ascii_digit, is_ascii_lower,
    owned, push_str, str_eq, string_from_chars, to_ascii_lower, trim, trimmed, u64_to_decimal,
};
use crate::wrappers::{to_uppercase, unicode_uppercase};

verus! {

// ── Slugs ────────────────────────────────────────────────────────────────────

/// ASCII letters and digits become lower case; everything else a dash.
pub open spec fn slug_char(c: char) -> char {
    if is_ascii_alnum(c) {
        ascii_lower(c)
    } else {
        '-'
    }
}

/// Scanning `s` left to right: the text so far (runs of dashes collapsed
/// into one, none at the start) and whether its last character is a dash
/// or nothing has been written.
pub open spec fn slug_scan(s: Seq<char>) -> (Seq<char>, bool)
    decreases s.len(),
{
    if s.len() == 0 {
        (seq![], true)
    } else {
        let (out, prev_dash) = slug_scan(s.drop_last());
        let m = slug_char(s.last());
        if m == '-' {
            if prev_dash {
                (out, prev_dash)
            } else {
                (out.push('-'), true)
            }
        } else {
            (out.push(m), false)
        }
    }
}

/// `s` without its trailing dashes.
pub open spec fn strip_trailing_dashes(s: Seq<char>) -> Seq<char>
    decreases s.len(),
{
    if s.len() > 0 && s.last() == '-' {
        strip_trailing_dashes(s.drop_last())
    } else {
        s
    }
}

/// The slug of a name: lower-case ASCII letters and digits, with each run
/// of other characters turned into a single dash, and no dash at either
/// end.
pub open spec fn slug(s: Seq<char>) -> Seq<char> {
    strip_trailing_dashes(slug_scan(s).0)
}

pub open spec fn is_slug_char(c: char) -> bool {
    is_ascii_lower(c) || is_ascii_digit(c) || c == '-'
}

/// What a slug looks like: lower-case letters, digits and dashes, with no
/// dash first, last, or next to another dash.
pub open spec fn is_kebab(s: Seq<char>) -> bool {
    &&& forall|i: int| 0 <= i < s.len() ==> is_slug_char(#[trigger] s[i])
    &&& s.len() > 0 ==> s[0] != '-' && s.last() != '-'
    &&& forall|i: int| 0 <= i < s.len() - 1 ==> !(#[trigger] s[i] == '-' && s[i + 1] == '-')
}

proof fn lemma_slug_scan_shape(s: Seq<char>)
    ensures
        forall|i: int| 0 <= i < slug_scan(s).0.len() ==> is_slug_char(#[trigger] slug_scan(s).0[i]),
        slug_scan(s).0.len() > 0 ==> slug_scan(s).0[0] != '-',
        slug_scan(s).1 <==> (slug_scan(s).0.len() == 0 || slug_scan(s).0.last() == '-'),
        forall|i: int|
            0 <= i < slug_scan(s).0.len() - 1 ==> !(#[trigger] slug_scan(s).0[i] == '-' && slug_scan(
                s,
            ).0[i + 1] == '-'),
    decreases s.len(),
{
    if s.len() > 0 {
        lemma_slug_scan_shape(s.drop_last());
        let (out, prev) = slug_scan(s.drop_last());
        let m = slug_char(s.last());
        let c = s.last();
        if is_ascii_alnum(c) {
            assert(is_slug_char(ascii_lower(c))) by {
                if 'A' <= c && c <= 'Z' {
                    assert((c as u32) + 32 <= 'z' as u32);
                }
            }
        }
        let now = slug_scan(s).0;
        assert forall|i: int| 0 <= i < now.len() implies is_slug_char(#[trigger] now[i]) by {
            if i < out.len() {
                assert(now[i] == out[i]);
            }
        }
        assert forall|i: int| 0 <= i < now.len() - 1 implies !(#[trigger] now[i] == '-' && now[i + 1]
            == '-') by {
            if i + 1 < out.len() {
                assert(now[i] == out[i] && now[i + 1] == out[i + 1]);
            } else if now.len() > out.len() {
                assert(now[i] == out[i]);
            }
        }
    }
}

proof fn lemma_strip_trailing_dashes(s: Seq<char>)
    requires
        s.len() > 0 ==> s[0] != '-',
        forall|i: int| 0 <= i < s.len() - 1 ==> !(#[trigger] s[i] == '-' && s[i + 1] == '-'),
        forall|i: int| 0 <= i < s.len() ==> is_slug_char(#[trigger] s[i]),
    ensures
        is_kebab(strip_trailing_dashes(s)),
        strip_trailing_dashes(s) == s || strip_trailing_dashes(s) == s.drop_last(),
    decreases s.len(),
{
    if s.len() > 0 && s.last() == '-' {
        let t = s.drop_last();
        assert forall|i: int| 0 <= i < t.len() - 1 implies !(#[trigger] t[i] == '-' && t[i + 1] == '-') by {
            assert(t[i] == s[i] && t[i + 1] == s[i + 1]);
        }
        if t.len() > 0 {
            assert(t.last() == s[s.len() - 2]);
            assert(t.last() != '-');
        }
        assert(strip_trailing_dashes(t) == t);
    }
}

/// Slugs are kebab-case: lower-case ASCII letters, digits and single
/// dashes between them.
pub proof fn lemma_slug_is_kebab(s: Seq<char>)
    ensures
        is_kebab(slug(s)),
{
    lemma_slug_scan_shape(s);
    lemma_strip_trailing_dashes(slug_scan(s).0);
}

/// The slug of `input` (see `slug`).
pub fn slugify(input: &str) -> (r: String)
    ensures
        r@ == slug(input@),
        is_kebab(r@),
{
    let v = chars_of(input);
    let mut out: Vec<char> = Vec::new();
    let mut prev_dash = true;
    let mut i: usize = 0;
    while i < v.len()
        invariant
            v@ == input@,
            i <= v.len(),
            (out@, prev_dash) == slug_scan(input@.take(i as int)),
        decreases v.len() - i,
    {
        let ch = v[i];
        let mapped = if ascii_alnum(ch) {
            to_ascii_lower(ch)
        } else {
            '-'
        };
        assert(input@.take(i + 1).drop_last() =~= input@.take(i as int));
        if mapped == '-' {
            if !prev_dash {
                prev_dash = true;
                out.push('-');
            }
        } else {
            prev_dash = false;
            out.push(mapped);
        }
        i += 1;
    }
    assert(input@.take(v.len() as int) =~= input@);
    assert(out@.take(out@.len() as int) =~= out@);
    let mut end = out.len();
    while end > 0 && out[end - 1] == '-'
        invariant
            end <= out@.len(),
            strip_trailing_dashes(out@.take(end as int)) == slug(input@),
            (out@, prev_dash) == slug_scan(input@),
        decreases end,
    {
        assert(out@.take(end as int).drop_last() =~= out@.take(end - 1));
        end -= 1;
    }
    proof {
        assert(out@.take(out@.len() as int) =~= out@);
        lemma_slug_is_kebab(input@);
    }
    let r = string_from_chars(&out, 0, end);
    assert(out@.subrange(0, end as int) =~= out@.take(end as int));
    r
}

// ── Tags and references ──────────────────────────────────────────────────────

/// The tags trimmed, without empty ones, in order.
pub open spec fn trimmed_nonempty(tags: Seq<Seq<char>>) -> Seq<Seq<char>>
    decreases tags.len(),
{
    if tags.len() == 0 {
        seq![]
    } else if trimmed(tags.last()).len() == 0 {
        trimmed_nonempty(tags.drop_last())
    } else {
        trimmed_nonempty(tags.drop_last()).push(trimmed(tags.last()))
    }
}

fn contains_string(v: &Vec<String>, s: &str) -> (r: bool)
    ensures
        r == strings_view(v@).contains(s@),
{
    let mut i: usize = 0;
    while i < v.len()
        invariant
            i <= v@.len(),
            forall|k: int| 0 <= k < i ==> v@[k]@ != s@,
        decreases v@.len() - i,
    {
        if str_eq(v[i].as_str(), s) {
            assert(strings_view(v@)[i as int] == s@);
            return true;
        }
        i += 1;
    }
    assert forall|k: int| 0 <= k < strings_view(v@).len() implies strings_view(v@)[k] != s@ by {
        assert(strings_view(v@)[k] == v@[k]@);
    }
    false
}

/// Tags trimmed, blanks dropped, and each tag kept once, where it first
/// occurs.
pub fn dedupe_tags(tags: Vec<String>) -> (r: Vec<String>)
    ensures
        strings_view(r@) == dedup(trimmed_nonempty(strings_view(tags@))),
{
    let mut out: Vec<String> = Vec::new();
    let mut i: usize = 0;
    assert(strings_view(out@) =~= seq![]);
    while i < tags.len()
        invariant
            i <= tags@.len(),
            strings_view(out@) == dedup(trimmed_nonempty(strings_view(tags@).take(i as int))),
        decreases tags@.len() - i,
    {
        let ghost pre = strings_view(tags@).take(i as int);
        assert(strings_view(tags@).take(i + 1).drop_last() =~= pre);
        assert(strings_view(tags@).take(i + 1).last() == tags@[i as int]@);
        let t = trim(tags[i].as_str());
        if !t.as_str().is_empty() {
            proof {
                assert(t@.len() > 0);
                let tn = trimmed_nonempty(strings_view(tags@).take(i + 1));
                assert(tn == trimmed_nonempty(pre).push(t@));
                assert(tn.drop_last() =~= trimmed_nonempty(pre));
            }
            if !contains_string(&out, t.as_str()) {
                let ghost prev = out@;
                out.push(t);
                assert(strings_view(out@) =~= strings_view(prev).push(out@.last()@));
            }
        } else {
            assert(t@.len() == 0);
        }
        i += 1;
    }
    assert(strings_view(tags@).take(tags@.len() as int) =~= strings_view(tags@));
    out
}

/// An OWASP reference trimmed and upper-cased; `None` when absent or blank.
pub fn normalize_owasp_ref(raw: Option<String>) -> (r: Option<String>)
    ensures
        match raw {
            None => r is None,
            Some(v) => if trimmed(v@).len() == 0 {
                r is None
            } else {
                r matches Some(u) && u@ == unicode_uppercase(trimmed(v@))
            },
        },
{
    match raw {
        None => None,
        Some(v) => {
            let t = trim(v.as_str());
            if t.as_str().is_empty() {
                None
            } else {
                Some(to_uppercase(t.as_str()))
            }
        },
    }
}

// ── Unique ids ───────────────────────────────────────────────────────────────

/// `stem-n`.
pub open spec fn suffixed(stem: Seq<char>, n: nat) -> Seq<char> {
    stem + "-"@ + decimal(n)
}

/// The stem for numbered ids: the slug, or `prompt` for a name with no
/// ASCII letter or digit.
pub open spec fn id_stem(name: Seq<char>) -> Seq<char> {
    if slug(name).len() == 0 {
        "prompt"@
    } else {
        slug(name)
    }
}

/// The id `unique_id_from_name` gives: the slug when it is non-empty and
/// free; else `stem-n` for the least `n >= 2` that is free (below
/// `u32::MAX`); else, should all of those be taken, `stem-(count + 1)`.
pub open spec fn is_unique_id_for(name: Seq<char>, existing: Seq<Seq<char>>, id: Seq<char>) -> bool {
    if slug(name).len() > 0 && !existing.contains(slug(name)) {
        id == slug(name)
    } else {
        ||| exists|n: nat|
            2 <= n < u32::MAX && id == suffixed(id_stem(name), n) && !existing.contains(id) && forall|
                m: nat,
            | 2 <= m < n ==> existing.contains(#[trigger] suffixed(id_stem(name), m))
        ||| (forall|m: nat| 2 <= m < u32::MAX ==> existing.contains(#[trigger] suffixed(id_stem(name), m)))
            && id == suffixed(id_stem(name), (existing.len() + 1) as nat)
    }
}

/// A library id for a prompt named `name` that is not among `existing`:
/// its slug, or the slug (`prompt` when the slug is empty) with the least
/// free numeric suffix from 2 on.
pub fn unique_id_from_name(name: &str, existing: &Vec<String>) -> (r: String)
    requires
        existing@.len() < u64::MAX,
    ensures
        is_unique_id_for(name@, strings_view(existing@), r@),
{
    let base = slugify(name);
    if !base.as_str().is_empty() && !contains_string(existing, base.as_str()) {
        return base;
    }
    let ghost taken = !(slug(name@).len() > 0 && !strings_view(existing@).contains(slug(name@)));
    assert(taken);
    let stem = if base.as_str().is_empty() {
        owned("prompt")
    } else {
        base
    };
    proof {
        reveal_strlit("prompt");
    }
    assert(stem@ == id_stem(name@));
    let mut n: u32 = 2;
    while n < u32::MAX
        invariant
            2 <= n <= u32::MAX,
            stem@ == id_stem(name@),
            taken,
            taken == !(slug(name@).len() > 0 && !strings_view(existing@).contains(slug(name@))),
            forall|m: nat| 2 <= m < n ==> strings_view(existing@).contains(#[trigger] suffixed(stem@, m)),
        decreases u32::MAX - n,
    {
        let mut candidate = stem.clone();
        push_str(&mut candidate, "-");
        let digits = u64_to_decimal(n as u64);
        push_str(&mut candidate, digits.as_str());
        assert(candidate@ == suffixed(stem@, n as nat));
        if !contains_string(existing, candidate.as_str()) {
            proof {
                let nn = n as nat;
                assert(2 <= nn < u32::MAX && candidate@ == suffixed(id_stem(name@), nn)
                    && !strings_view(existing@).contains(candidate@) && forall|m: nat|
                    2 <= m < nn ==> strings_view(existing@).contains(
                        #[trigger] suffixed(id_stem(name@), m),
                    ));
            }
            return candidate;
        }
        n += 1;
    }
    let mut fallback = stem.clone();
    push_str(&mut fallback, "-");
    let count = existing.len() as u64 + 1;
    let digits = u64_to_decimal(count);
    push_str(&mut fallback, digits.as_str());
    fallback
}

/// The folder slug of an engagement created on `today` (`YYYY-MM-DD`):
/// the date, a dash, and the slug of its name.
pub fn make_slug(name: &str, today: &str) -> (r: String)
    ensures
        r@ == today@ + "-"@ + slug(name@),
{
    let slug_part = slugify(name);
    let mut out = owned(today);
    push_str(&mut out, "-");
    push_str(&mut out, slug_part.as_str());
    out
}

} // verus!
