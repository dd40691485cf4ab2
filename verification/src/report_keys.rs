//! The order of report groups: category names in string order, OWASP
//! references `A<n>` by number, then other references, `unmapped` last.
use vstd::prelude::*;

use std::cmp::Ordering;

use crate::pipeline::{parse_u32_exec, parse_u32_text};
use crate::text::{chars_of, str_eq};

verus! {

/// `a` comes before `b` in string order (by code point, which is the
/// byte order of their UTF-8).
pub open spec fn lex_lt(a: Seq<char>, b: Seq<char>) -> bool
    decreases a.len(),
{
    if a.len() == 0 {
        b.len() > 0
    } else if b.len() == 0 {
        false
    } else if a[0] != b[0] {
        (a[0] as u32) < (b[0] as u32)
    } else {
        lex_lt(a.drop_first(), b.drop_first())
    }
}

pub proof fn lemma_lex_irreflexive(a: Seq<char>)
    ensures
        !lex_lt(a, a),
    decreases a.len(),
{
    if a.len() > 0 {
        lemma_lex_irreflexive(a.drop_first());
    }
}

pub proof fn lemma_lex_transitive(a: Seq<char>, b: Seq<char>, c: Seq<char>)
    requires
        lex_lt(a, b),
        lex_lt(b, c),
    ensures
        lex_lt(a, c),
    decreases a.len(),
{
    if a.len() > 0 && b.len() > 0 && c.len() > 0 && a[0] == b[0] && b[0] == c[0] {
        lemma_lex_transitive(a.drop_first(), b.drop_first(), c.drop_first());
    }
}

pub proof fn lemma_lex_total(a: Seq<char>, b: Seq<char>)
    ensures
        a == b || lex_lt(a, b) || lex_lt(b, a),
    decreases a.len(),
{
    if a.len() > 0 && b.len() > 0 {
        if a[0] == b[0] {
            lemma_lex_total(a.drop_first(), b.drop_first());
            if a.drop_first() == b.drop_first() {
                assert(a =~= seq![a[0]] + a.drop_first());
                assert(b =~= seq![b[0]] + b.drop_first());
            }
        } else {
            vstd::utf8::char_u32_cast(a[0], a[0] as u32);
            vstd::utf8::char_u32_cast(b[0], b[0] as u32);
            assert((a[0] as u32) != (b[0] as u32));
        }
    } else if a.len() == 0 && b.len() == 0 {
        assert(a =~= b);
    }
}

pub proof fn lemma_lex_asymmetric(a: Seq<char>, b: Seq<char>)
    requires
        lex_lt(a, b),
    ensures
        !lex_lt(b, a),
{
    if lex_lt(b, a) {
        lemma_lex_transitive(a, b, a);
        lemma_lex_irreflexive(a);
    }
}

/// Where an OWASP reference sorts: `A<n>` (n a `u8`, as `str::parse`
/// reads it) at `n`, `unmapped` last, anything else in between.
pub open spec fn owasp_weight(key: Seq<char>) -> int {
    if key.len() > 0 && key[0] == 'A' && parse_u32_text(key.skip(1)) is Some && parse_u32_text(key.skip(1))->Some_0
        <= 255 {
        parse_u32_text(key.skip(1))->Some_0 as int
    } else if key == "unmapped"@ {
        512
    } else {
        256
    }
}

/// The order of group keys.
pub open spec fn key_lt(a: Seq<char>, b: Seq<char>, by_owasp: bool) -> bool {
    if by_owasp {
        owasp_weight(a) < owasp_weight(b) || (owasp_weight(a) == owasp_weight(b) && lex_lt(a, b))
    } else {
        lex_lt(a, b)
    }
}

pub proof fn lemma_key_order(a: Seq<char>, b: Seq<char>, c: Seq<char>, by_owasp: bool)
    ensures
        !key_lt(a, a, by_owasp),
        a == b || key_lt(a, b, by_owasp) || key_lt(b, a, by_owasp),
        key_lt(a, b, by_owasp) && key_lt(b, c, by_owasp) ==> key_lt(a, c, by_owasp),
        key_lt(a, b, by_owasp) ==> !key_lt(b, a, by_owasp),
{
    lemma_lex_irreflexive(a);
    lemma_lex_total(a, b);
    if lex_lt(a, b) && lex_lt(b, c) {
        lemma_lex_transitive(a, b, c);
    }
    if lex_lt(a, b) {
        lemma_lex_asymmetric(a, b);
    }
}

fn lex_less(a: &Vec<char>, b: &Vec<char>) -> (r: bool)
    ensures
        r == lex_lt(a@, b@),
{
    let mut i: usize = 0;
    assert(a@.skip(0) =~= a@);
    assert(b@.skip(0) =~= b@);
    while i < a.len() && i < b.len() && a[i] == b[i]
        invariant
            i <= a@.len(),
            i <= b@.len(),
            a@.take(i as int) == b@.take(i as int),
            lex_lt(a@, b@) == lex_lt(a@.skip(i as int), b@.skip(i as int)),
        decreases a@.len() - i,
    {
        proof {
            let sa = a@.skip(i as int);
            let sb = b@.skip(i as int);
            assert(sa.drop_first() =~= a@.skip(i + 1));
            assert(sb.drop_first() =~= b@.skip(i + 1));
            assert(a@.take(i + 1) =~= a@.take(i as int).push(a@[i as int]));
            assert(b@.take(i + 1) =~= b@.take(i as int).push(b@[i as int]));
        }
        i += 1;
    }
    let ghost sa = a@.skip(i as int);
    let ghost sb = b@.skip(i as int);
    if i == a.len() {
        assert(sa.len() == 0);
        i < b.len()
    } else if i == b.len() {
        false
    } else {
        assert(sa[0] == a@[i as int] && sb[0] == b@[i as int]);
        (a[i] as u32) < (b[i] as u32)
    }
}

/// The OWASP weight of a key, computed.
fn owasp_weight_exec(k: &Vec<char>) -> (w: u32)
    ensures
        w == owasp_weight(k@),
{
    if k.len() > 0 && k[0] == 'A' {
        match parse_u32_exec(k, 1) {
            Some(n) => {
                if n <= 255 {
                    return n;
                }
            },
            None => {},
        }
    }
    let s = crate::text::string_from_chars(k, 0, k.len());
    assert(k@.subrange(0, k@.len() as int) =~= k@);
    if str_eq(s.as_str(), "unmapped") {
        512
    } else {
        256
    }
}

/// Whether key `a` sorts before key `b`.
pub fn key_less(a: &str, b: &str, by_owasp: bool) -> (r: bool)
    ensures
        r == key_lt(a@, b@, by_owasp),
{
    let va = chars_of(a);
    let vb = chars_of(b);
    if by_owasp {
        let wa = owasp_weight_exec(&va);
        let wb = owasp_weight_exec(&vb);
        wa < wb || (wa == wb && lex_less(&va, &vb))
    } else {
        lex_less(&va, &vb)
    }
}

/// How two OWASP references sort in a report.
pub fn compare_owasp_keys(a: &str, b: &str) -> (r: Ordering)
    ensures
        r == (if key_lt(a@, b@, true) {
            Ordering::Less
        } else if a@ == b@ {
            Ordering::Equal
        } else {
            Ordering::Greater
        }),
{
    if key_less(a, b, true) {
        Ordering::Less
    } else if str_eq(a, b) {
        Ordering::Equal
    } else {
        Ordering::Greater
    }
}

} // verus!
