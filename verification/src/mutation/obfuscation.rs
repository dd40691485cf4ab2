//! Obfuscation mutators: spaced-out letters, zero-width joins, leetspeak.
use vstd::prelude::*;

use super::{single_variant, MutatedPrompt, Mutator, MutatorFamily};
use crate::text::{ascii_alpha, chars_of, is_ascii_alpha, push_char};

verus! {

// ── Whitespace injection ─────────────────────────────────────────────────────

/// A single space between every pair of adjacent ASCII letters.
pub open spec fn spaced_letters(s: Seq<char>) -> Seq<char>
    decreases s.len(),
{
    if s.len() == 0 {
        seq![]
    } else if s.len() >= 2 && is_ascii_alpha(s[s.len() - 2]) && is_ascii_alpha(s.last()) {
        spaced_letters(s.drop_last()).push(' ').push(s.last())
    } else {
        spaced_letters(s.drop_last()).push(s.last())
    }
}

pub struct WhitespaceInjection;

impl Mutator for WhitespaceInjection {
    open spec fn spec_id(&self) -> Seq<char> {
        "obfuscation.whitespace"@
    }

    open spec fn spec_family(&self) -> MutatorFamily {
        MutatorFamily::Obfuscation
    }

    open spec fn spec_mutate(&self, seed: Seq<char>) -> Seq<(Seq<char>, Seq<char>)> {
        seq![(spaced_letters(seed), "obfuscation.whitespace"@)]
    }

    open spec fn spec_accepts(&self, seed: Seq<char>) -> bool {
        true
    }

    fn id(&self) -> (r: &'static str) {
        "obfuscation.whitespace"
    }

    fn family(&self) -> (r: MutatorFamily) {
        MutatorFamily::Obfuscation
    }

    fn mutate(&self, seed: &str) -> (r: Vec<MutatedPrompt>) {
        let v = chars_of(seed);
        let mut out = String::new();
        let mut prev_alpha = false;
        let mut i: usize = 0;
        while i < v.len()
            invariant
                i <= v.len(),
                v@ == seed@,
                out@ == spaced_letters(seed@.take(i as int)),
                prev_alpha == (i > 0 && is_ascii_alpha(seed@[i - 1])),
            decreases v.len() - i,
        {
            let c = v[i];
            let is_alpha = ascii_alpha(c);
            if prev_alpha && is_alpha {
                push_char(&mut out, ' ');
            }
            push_char(&mut out, c);
            assert(seed@.take(i + 1).drop_last() =~= seed@.take(i as int));
            prev_alpha = is_alpha;
            i += 1;
        }
        assert(seed@.take(v.len() as int) =~= seed@);
        single_variant(out, self.id())
    }
}

// ── Zero-width joins ─────────────────────────────────────────────────────────

/// U+200B ZERO WIDTH SPACE between every pair of adjacent characters.
pub open spec fn zero_width_joined(s: Seq<char>) -> Seq<char>
    decreases s.len(),
{
    if s.len() <= 1 {
        s
    } else {
        zero_width_joined(s.drop_last()).push('\u{200B}').push(s.last())
    }
}

pub struct ZeroWidth;

impl Mutator for ZeroWidth {
    open spec fn spec_id(&self) -> Seq<char> {
        "obfuscation.zero_width"@
    }

    open spec fn spec_family(&self) -> MutatorFamily {
        MutatorFamily::Obfuscation
    }

    open spec fn spec_mutate(&self, seed: Seq<char>) -> Seq<(Seq<char>, Seq<char>)> {
        seq![(zero_width_joined(seed), "obfuscation.zero_width"@)]
    }

    open spec fn spec_accepts(&self, seed: Seq<char>) -> bool {
        true
    }

    fn id(&self) -> (r: &'static str) {
        "obfuscation.zero_width"
    }

    fn family(&self) -> (r: MutatorFamily) {
        MutatorFamily::Obfuscation
    }

    fn mutate(&self, seed: &str) -> (r: Vec<MutatedPrompt>) {
        let v = chars_of(seed);
        let mut out = String::new();
        let mut first = true;
        let mut i: usize = 0;
        while i < v.len()
            invariant
                i <= v.len(),
                v@ == seed@,
                out@ == zero_width_joined(seed@.take(i as int)),
                first == (i == 0),
            decreases v.len() - i,
        {
            if !first {
                push_char(&mut out, '\u{200B}');
            }
            push_char(&mut out, v[i]);
            assert(seed@.take(i + 1).drop_last() =~= seed@.take(i as int));
            if i == 0 {
                assert(seed@.take(1) =~= seq![seed@[0]]);
                assert(seed@.take(0) =~= Seq::<char>::empty());
            }
            first = false;
            i += 1;
        }
        assert(seed@.take(v.len() as int) =~= seed@);
        single_variant(out, self.id())
    }
}

// ── Leetspeak ────────────────────────────────────────────────────────────────

/// `a`→`4`, `e`→`3`, `i`→`1`, `o`→`0`, `s`→`5`, `t`→`7`, in either case.
pub open spec fn leet_char(c: char) -> char {
    if c == 'a' || c == 'A' {
        '4'
    } else if c == 'e' || c == 'E' {
        '3'
    } else if c == 'i' || c == 'I' {
        '1'
    } else if c == 'o' || c == 'O' {
        '0'
    } else if c == 's' || c == 'S' {
        '5'
    } else if c == 't' || c == 'T' {
        '7'
    } else {
        c
    }
}

pub open spec fn leet_spec(s: Seq<char>) -> Seq<char> {
    s.map_values(|c: char| leet_char(c))
}

fn leet(c: char) -> (r: char)
    ensures
        r == leet_char(c),
{
    match c {
        'a' | 'A' => '4',
        'e' | 'E' => '3',
        'i' | 'I' => '1',
        'o' | 'O' => '0',
        's' | 'S' => '5',
        't' | 'T' => '7',
        other => other,
    }
}

pub struct Leetspeak;

impl Mutator for Leetspeak {
    open spec fn spec_id(&self) -> Seq<char> {
        "obfuscation.leetspeak"@
    }

    open spec fn spec_family(&self) -> MutatorFamily {
        MutatorFamily::Obfuscation
    }

    open spec fn spec_mutate(&self, seed: Seq<char>) -> Seq<(Seq<char>, Seq<char>)> {
        seq![(leet_spec(seed), "obfuscation.leetspeak"@)]
    }

    open spec fn spec_accepts(&self, seed: Seq<char>) -> bool {
        true
    }

    fn id(&self) -> (r: &'static str) {
        "obfuscation.leetspeak"
    }

    fn family(&self) -> (r: MutatorFamily) {
        MutatorFamily::Obfuscation
    }

    fn mutate(&self, seed: &str) -> (r: Vec<MutatedPrompt>) {
        let v = chars_of(seed);
        let mut text = String::new();
        let mut i: usize = 0;
        while i < v.len()
            invariant
                i <= v.len(),
                v@ == seed@,
                text@ == leet_spec(seed@.take(i as int)),
            decreases v.len() - i,
        {
            push_char(&mut text, leet(v[i]));
            assert(leet_spec(seed@.take(i + 1)) =~= leet_spec(seed@.take(i as int)).push(
                leet_char(seed@[i as int]),
            ));
            i += 1;
        }
        assert(seed@.take(v.len() as int) =~= seed@);
        single_variant(text, self.id())
    }
}

} // verus!
