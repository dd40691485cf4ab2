//! Reading a local judge model's answer: carving the JSON object out of
//! its output and mapping its verdict label.
use vstd::prelude::*;

use crate::report::JudgeVerdict;
use crate::text::{chars_of, str_eq, string_from_chars};
use crate::wrappers::{to_uppercase, unicode_uppercase};

verus! {

/// `i` is the position of the first `c` in `s`.
pub open spec fn first_at(s: Seq<char>, c: char, i: int) -> bool {
    0 <= i < s.len() && s[i] == c && forall|j: int| 0 <= j < i ==> s[j] != c
}

/// `i` is the position of the last `c` in `s`.
pub open spec fn last_at(s: Seq<char>, c: char, i: int) -> bool {
    0 <= i < s.len() && s[i] == c && forall|j: int| i < j < s.len() ==> s[j] != c
}

/// The text from the first `{` to the last `}`, both included: the JSON
/// object a model wrapped in prose. `None` when either brace is missing or
/// the last `}` comes before the first `{`.
pub fn extract_json(s: &str) -> (r: Option<String>)
    ensures
        match r {
            Some(t) => exists|i: int, j: int|
                first_at(s@, '{', i) && last_at(s@, '}', j) && i <= j && t@ == s@.subrange(i, j + 1),
            None => (forall|i: int| 0 <= i < s@.len() ==> s@[i] != '{') || (forall|j: int|
                0 <= j < s@.len() ==> s@[j] != '}') || exists|i: int, j: int|
                first_at(s@, '{', i) && last_at(s@, '}', j) && j < i,
        },
{
    let v = chars_of(s);
    let n = v.len();
    let mut start: usize = 0;
    while start < n && v[start] != '{'
        invariant
            n == v@.len(),
            v@ == s@,
            start <= n,
            forall|j: int| 0 <= j < start ==> v@[j] != '{',
        decreases n - start,
    {
        start += 1;
    }
    if start == n {
        return None;
    }
    let mut end: usize = n;
    while end > 0 && v[end - 1] != '}'
        invariant
            n == v@.len(),
            v@ == s@,
            end <= n,
            forall|j: int| end <= j < n ==> v@[j] != '}',
        decreases end,
    {
        end -= 1;
    }
    if end == 0 {
        return None;
    }
    let last = end - 1;
    assert(first_at(s@, '{', start as int));
    assert(last_at(s@, '}', last as int));
    if last >= start {
        let t = string_from_chars(&v, start, end);
        Some(t)
    } else {
        None
    }
}

/// The verdict a model's label names, compared without regard to case;
/// anything unknown is `Unclear`.
pub open spec fn verdict_of_label(upper: Seq<char>) -> JudgeVerdict {
    if upper == "SUCCESS"@ {
        JudgeVerdict::Success
    } else if upper == "FAIL"@ {
        JudgeVerdict::Fail
    } else if upper == "PARTIAL"@ {
        JudgeVerdict::Partial
    } else {
        JudgeVerdict::Unclear
    }
}

/// Maps the `verdict` field of a model's JSON answer to a verdict.
pub fn parse_verdict_label(label: &str) -> (r: JudgeVerdict)
    ensures
        r == verdict_of_label(unicode_uppercase(label@)),
{
    let upper = to_uppercase(label);
    if str_eq(upper.as_str(), "SUCCESS") {
        JudgeVerdict::Success
    } else if str_eq(upper.as_str(), "FAIL") {
        JudgeVerdict::Fail
    } else if str_eq(upper.as_str(), "PARTIAL") {
        JudgeVerdict::Partial
    } else {
        JudgeVerdict::Unclear
    }
}

} // verus!
