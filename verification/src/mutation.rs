//! Prompt mutation engine.
//!
//! Each mutator takes a seed prompt and returns zero or more variants.
//! Mutators are pure and deterministic, so the same seed produces the same
//! expansion on every run; `expand_seed` applies a configured subset of them
//! in registry order.
pub mod encoding;
pub mod linguistic;
pub mod obfuscation;
pub mod persona;
pub mod structural;

use vstd::prelude::*;

use crate::text::{owned, str_eq, strings_view};
use linguistic::{synonym_accepts, synonym_defined};

verus! {

/// Families of related mutators, surfaced as checkboxes in the UI.
#[derive(Debug, Clone, Copy, PartialEq, Eq, Structural, Hash, PartialOrd, Ord)]
pub enum MutatorFamily {
    Encoding,
    Obfuscation,
    Structured,
    Persona,
    Linguistic,
}

/// The stable name of a family.
pub open spec fn family_name(f: MutatorFamily) -> Seq<char> {
    match f {
        MutatorFamily::Encoding => "encoding"@,
        MutatorFamily::Obfuscation => "obfuscation"@,
        MutatorFamily::Structured => "structural"@,
        MutatorFamily::Persona => "persona"@,
        MutatorFamily::Linguistic => "linguistic"@,
    }
}

/// The family whose stable name is `s`, if any.
pub open spec fn family_named(s: Seq<char>) -> Option<MutatorFamily> {
    if s == "encoding"@ {
        Some(MutatorFamily::Encoding)
    } else if s == "obfuscation"@ {
        Some(MutatorFamily::Obfuscation)
    } else if s == "structural"@ {
        Some(MutatorFamily::Structured)
    } else if s == "persona"@ {
        Some(MutatorFamily::Persona)
    } else if s == "linguistic"@ {
        Some(MutatorFamily::Linguistic)
    } else {
        None
    }
}


impl MutatorFamily {
    pub fn as_str(&self) -> (r: &'static str)
        ensures
            r@ == family_name(*self),
    {
        match self {
            MutatorFamily::Encoding => "encoding",
            MutatorFamily::Obfuscation => "obfuscation",
            MutatorFamily::Structured => "structural",
            MutatorFamily::Persona => "persona",
            MutatorFamily::Linguistic => "linguistic",
        }
    }

    pub fn parse(s: &str) -> (r: Option<MutatorFamily>)
        ensures
            r == family_named(s@),
    {
        if str_eq(s, "encoding") {
            Some(MutatorFamily::Encoding)
        } else if str_eq(s, "obfuscation") {
            Some(MutatorFamily::Obfuscation)
        } else if str_eq(s, "structural") {
            Some(MutatorFamily::Structured)
        } else if str_eq(s, "persona") {
            Some(MutatorFamily::Persona)
        } else if str_eq(s, "linguistic") {
            Some(MutatorFamily::Linguistic)
        } else {
            None
        }
    }
}

/// Parsing a family's stable name gives the family back, so the names the
/// UI stores round-trip.
pub proof fn lemma_family_name_round_trip(f: MutatorFamily)
    ensures
        family_named(family_name(f)) == Some(f),
{
    reveal_strlit("encoding");
    reveal_strlit("obfuscation");
    reveal_strlit("structural");
    reveal_strlit("persona");
    reveal_strlit("linguistic");
    assert("encoding"@.len() == 8 && "obfuscation"@.len() == 11 && "persona"@.len() == 7);
    assert("structural"@[0] == 's' && "linguistic"@[0] == 'l');
    assert("structural"@ != "linguistic"@) by {
        assert("structural"@[0] != "linguistic"@[0]);
    }
}

/// A single variant produced by a mutator.
#[derive(Debug, Clone, PartialEq, Eq)]
pub struct MutatedPrompt {
    /// The mutated prompt text.
    pub text: String,
    /// Stable identifier of what was applied, e.g. `encoding.base64`.
    pub mutation_id: String,
}

impl View for MutatedPrompt {
    type V = (Seq<char>, Seq<char>);

    open spec fn view(&self) -> (Seq<char>, Seq<char>) {
        (self.text@, self.mutation_id@)
    }
}

/// The (text, mutation id) pairs of a list of variants.
pub open spec fn prompts_view(v: Seq<MutatedPrompt>) -> Seq<(Seq<char>, Seq<char>)> {
    v.map_values(|p: MutatedPrompt| p@)
}

/// One variant with text `text` produced by mutator `id`.
pub fn single_variant(text: String, id: &str) -> (r: Vec<MutatedPrompt>)
    ensures
        prompts_view(r@) == seq![(text@, id@)],
{
    let r = vec![MutatedPrompt { text, mutation_id: owned(id) }];
    assert(prompts_view(r@) =~= seq![(r@[0].text@, id@)]);
    r
}

/// A prompt mutator. Implementations are pure and deterministic; an empty
/// result means the mutator does not apply to the seed.
pub trait Mutator {
    /// The stable id, e.g. `encoding.base64`.
    spec fn spec_id(&self) -> Seq<char>;

    spec fn spec_family(&self) -> MutatorFamily;

    /// The variants produced for `seed`, as (text, mutation id) pairs.
    spec fn spec_mutate(&self, seed: Seq<char>) -> Seq<(Seq<char>, Seq<char>)>;

    /// Seeds on which `mutate` is defined (it is everywhere but for the
    /// synonym substitution, see `linguistic::synonym_defined`).
    spec fn spec_accepts(&self, seed: Seq<char>) -> bool;

    fn id(&self) -> (r: &'static str)
        ensures
            r@ == self.spec_id(),
    ;

    fn family(&self) -> (r: MutatorFamily)
        ensures
            r == self.spec_family(),
    ;

    fn mutate(&self, seed: &str) -> (r: Vec<MutatedPrompt>)
        requires
            self.spec_accepts(seed@),
        ensures
            prompts_view(r@) == self.spec_mutate(seed@),
    ;
}


/// Every mutator hamm0r ships with, as one value type: the registry, the
/// lookup and the expansion hand these out.
#[derive(Debug, Clone, Copy, PartialEq, Eq, Structural)]
pub enum AnyMutator {
    Base64,
    Rot13,
    Hex,
    UrlEncode,
    Homoglyph,
    WhitespaceInjection,
    ZeroWidth,
    Leetspeak,
    CodeBlock,
    JsonEmbed,
    MarkdownComment,
    PrefixInjection,
    AuthorityFraming,
    RolePlay,
    DanFrame,
    SynonymSubstitution,
    PolitenessVariant,
}

impl Mutator for AnyMutator {
    open spec fn spec_id(&self) -> Seq<char> {
        match self {
            AnyMutator::Base64 => encoding::Base64.spec_id(),
            AnyMutator::Rot13 => encoding::Rot13.spec_id(),
            AnyMutator::Hex => encoding::Hex.spec_id(),
            AnyMutator::UrlEncode => encoding::UrlEncode.spec_id(),
            AnyMutator::Homoglyph => encoding::Homoglyph.spec_id(),
            AnyMutator::WhitespaceInjection => obfuscation::WhitespaceInjection.spec_id(),
            AnyMutator::ZeroWidth => obfuscation::ZeroWidth.spec_id(),
            AnyMutator::Leetspeak => obfuscation::Leetspeak.spec_id(),
            AnyMutator::CodeBlock => structural::CodeBlock.spec_id(),
            AnyMutator::JsonEmbed => structural::JsonEmbed.spec_id(),
            AnyMutator::MarkdownComment => structural::MarkdownComment.spec_id(),
            AnyMutator::PrefixInjection => structural::PrefixInjection.spec_id(),
            AnyMutator::AuthorityFraming => persona::AuthorityFraming.spec_id(),
            AnyMutator::RolePlay => persona::RolePlay.spec_id(),
            AnyMutator::DanFrame => persona::DanFrame.spec_id(),
            AnyMutator::SynonymSubstitution => linguistic::SynonymSubstitution.spec_id(),
            AnyMutator::PolitenessVariant => linguistic::PolitenessVariant.spec_id(),
        }
    }

    open spec fn spec_family(&self) -> MutatorFamily {
        match self {
            AnyMutator::Base64 => encoding::Base64.spec_family(),
            AnyMutator::Rot13 => encoding::Rot13.spec_family(),
            AnyMutator::Hex => encoding::Hex.spec_family(),
            AnyMutator::UrlEncode => encoding::UrlEncode.spec_family(),
            AnyMutator::Homoglyph => encoding::Homoglyph.spec_family(),
            AnyMutator::WhitespaceInjection => obfuscation::WhitespaceInjection.spec_family(),
            AnyMutator::ZeroWidth => obfuscation::ZeroWidth.spec_family(),
            AnyMutator::Leetspeak => obfuscation::Leetspeak.spec_family(),
            AnyMutator::CodeBlock => structural::CodeBlock.spec_family(),
            AnyMutator::JsonEmbed => structural::JsonEmbed.spec_family(),
            AnyMutator::MarkdownComment => structural::MarkdownComment.spec_family(),
            AnyMutator::PrefixInjection => structural::PrefixInjection.spec_family(),
            AnyMutator::AuthorityFraming => persona::AuthorityFraming.spec_family(),
            AnyMutator::RolePlay => persona::RolePlay.spec_family(),
            AnyMutator::DanFrame => persona::DanFrame.spec_family(),
            AnyMutator::SynonymSubstitution => linguistic::SynonymSubstitution.spec_family(),
            AnyMutator::PolitenessVariant => linguistic::PolitenessVariant.spec_family(),
        }
    }

    open spec fn spec_mutate(&self, seed: Seq<char>) -> Seq<(Seq<char>, Seq<char>)> {
        match self {
            AnyMutator::Base64 => encoding::Base64.spec_mutate(seed),
            AnyMutator::Rot13 => encoding::Rot13.spec_mutate(seed),
            AnyMutator::Hex => encoding::Hex.spec_mutate(seed),
            AnyMutator::UrlEncode => encoding::UrlEncode.spec_mutate(seed),
            AnyMutator::Homoglyph => encoding::Homoglyph.spec_mutate(seed),
            AnyMutator::WhitespaceInjection => obfuscation::WhitespaceInjection.spec_mutate(seed),
            AnyMutator::ZeroWidth => obfuscation::ZeroWidth.spec_mutate(seed),
            AnyMutator::Leetspeak => obfuscation::Leetspeak.spec_mutate(seed),
            AnyMutator::CodeBlock => structural::CodeBlock.spec_mutate(seed),
            AnyMutator::JsonEmbed => structural::JsonEmbed.spec_mutate(seed),
            AnyMutator::MarkdownComment => structural::MarkdownComment.spec_mutate(seed),
            AnyMutator::PrefixInjection => structural::PrefixInjection.spec_mutate(seed),
            AnyMutator::AuthorityFraming => persona::AuthorityFraming.spec_mutate(seed),
            AnyMutator::RolePlay => persona::RolePlay.spec_mutate(seed),
            AnyMutator::DanFrame => persona::DanFrame.spec_mutate(seed),
            AnyMutator::SynonymSubstitution => linguistic::SynonymSubstitution.spec_mutate(seed),
            AnyMutator::PolitenessVariant => linguistic::PolitenessVariant.spec_mutate(seed),
        }
    }

    open spec fn spec_accepts(&self, seed: Seq<char>) -> bool {
        match self {
            AnyMutator::Base64 => encoding::Base64.spec_accepts(seed),
            AnyMutator::Rot13 => encoding::Rot13.spec_accepts(seed),
            AnyMutator::Hex => encoding::Hex.spec_accepts(seed),
            AnyMutator::UrlEncode => encoding::UrlEncode.spec_accepts(seed),
            AnyMutator::Homoglyph => encoding::Homoglyph.spec_accepts(seed),
            AnyMutator::WhitespaceInjection => obfuscation::WhitespaceInjection.spec_accepts(seed),
            AnyMutator::ZeroWidth => obfuscation::ZeroWidth.spec_accepts(seed),
            AnyMutator::Leetspeak => obfuscation::Leetspeak.spec_accepts(seed),
            AnyMutator::CodeBlock => structural::CodeBlock.spec_accepts(seed),
            AnyMutator::JsonEmbed => structural::JsonEmbed.spec_accepts(seed),
            AnyMutator::MarkdownComment => structural::MarkdownComment.spec_accepts(seed),
            AnyMutator::PrefixInjection => structural::PrefixInjection.spec_accepts(seed),
            AnyMutator::AuthorityFraming => persona::AuthorityFraming.spec_accepts(seed),
            AnyMutator::RolePlay => persona::RolePlay.spec_accepts(seed),
            AnyMutator::DanFrame => persona::DanFrame.spec_accepts(seed),
            AnyMutator::SynonymSubstitution => linguistic::SynonymSubstitution.spec_accepts(seed),
            AnyMutator::PolitenessVariant => linguistic::PolitenessVariant.spec_accepts(seed),
        }
    }

    fn id(&self) -> (r: &'static str) {
        match self {
            AnyMutator::Base64 => encoding::Base64.id(),
            AnyMutator::Rot13 => encoding::Rot13.id(),
            AnyMutator::Hex => encoding::Hex.id(),
            AnyMutator::UrlEncode => encoding::UrlEncode.id(),
            AnyMutator::Homoglyph => encoding::Homoglyph.id(),
            AnyMutator::WhitespaceInjection => obfuscation::WhitespaceInjection.id(),
            AnyMutator::ZeroWidth => obfuscation::ZeroWidth.id(),
            AnyMutator::Leetspeak => obfuscation::Leetspeak.id(),
            AnyMutator::CodeBlock => structural::CodeBlock.id(),
            AnyMutator::JsonEmbed => structural::JsonEmbed.id(),
            AnyMutator::MarkdownComment => structural::MarkdownComment.id(),
            AnyMutator::PrefixInjection => structural::PrefixInjection.id(),
            AnyMutator::AuthorityFraming => persona::AuthorityFraming.id(),
            AnyMutator::RolePlay => persona::RolePlay.id(),
            AnyMutator::DanFrame => persona::DanFrame.id(),
            AnyMutator::SynonymSubstitution => linguistic::SynonymSubstitution.id(),
            AnyMutator::PolitenessVariant => linguistic::PolitenessVariant.id(),
        }
    }

    fn family(&self) -> (r: MutatorFamily) {
        match self {
            AnyMutator::Base64 => encoding::Base64.family(),
            AnyMutator::Rot13 => encoding::Rot13.family(),
            AnyMutator::Hex => encoding::Hex.family(),
            AnyMutator::UrlEncode => encoding::UrlEncode.family(),
            AnyMutator::Homoglyph => encoding::Homoglyph.family(),
            AnyMutator::WhitespaceInjection => obfuscation::WhitespaceInjection.family(),
            AnyMutator::ZeroWidth => obfuscation::ZeroWidth.family(),
            AnyMutator::Leetspeak => obfuscation::Leetspeak.family(),
            AnyMutator::CodeBlock => structural::CodeBlock.family(),
            AnyMutator::JsonEmbed => structural::JsonEmbed.family(),
            AnyMutator::MarkdownComment => structural::MarkdownComment.family(),
            AnyMutator::PrefixInjection => structural::PrefixInjection.family(),
            AnyMutator::AuthorityFraming => persona::AuthorityFraming.family(),
            AnyMutator::RolePlay => persona::RolePlay.family(),
            AnyMutator::DanFrame => persona::DanFrame.family(),
            AnyMutator::SynonymSubstitution => linguistic::SynonymSubstitution.family(),
            AnyMutator::PolitenessVariant => linguistic::PolitenessVariant.family(),
        }
    }

    fn mutate(&self, seed: &str) -> (r: Vec<MutatedPrompt>) {
        match self {
            AnyMutator::Base64 => encoding::Base64.mutate(seed),
            AnyMutator::Rot13 => encoding::Rot13.mutate(seed),
            AnyMutator::Hex => encoding::Hex.mutate(seed),
            AnyMutator::UrlEncode => encoding::UrlEncode.mutate(seed),
            AnyMutator::Homoglyph => encoding::Homoglyph.mutate(seed),
            AnyMutator::WhitespaceInjection => obfuscation::WhitespaceInjection.mutate(seed),
            AnyMutator::ZeroWidth => obfuscation::ZeroWidth.mutate(seed),
            AnyMutator::Leetspeak => obfuscation::Leetspeak.mutate(seed),
            AnyMutator::CodeBlock => structural::CodeBlock.mutate(seed),
            AnyMutator::JsonEmbed => structural::JsonEmbed.mutate(seed),
            AnyMutator::MarkdownComment => structural::MarkdownComment.mutate(seed),
            AnyMutator::PrefixInjection => structural::PrefixInjection.mutate(seed),
            AnyMutator::AuthorityFraming => persona::AuthorityFraming.mutate(seed),
            AnyMutator::RolePlay => persona::RolePlay.mutate(seed),
            AnyMutator::DanFrame => persona::DanFrame.mutate(seed),
            AnyMutator::SynonymSubstitution => linguistic::SynonymSubstitution.mutate(seed),
            AnyMutator::PolitenessVariant => linguistic::PolitenessVariant.mutate(seed),
        }
    }
}

/// The registry in its stable order: the order the UI lists mutators in and
/// the order `expand_seed` produces variants in.
pub open spec fn registry_spec() -> Seq<AnyMutator> {
    seq![
        AnyMutator::Base64,
        AnyMutator::Rot13,
        AnyMutator::Hex,
        AnyMutator::UrlEncode,
        AnyMutator::Homoglyph,
        AnyMutator::WhitespaceInjection,
        AnyMutator::ZeroWidth,
        AnyMutator::Leetspeak,
        AnyMutator::CodeBlock,
        AnyMutator::JsonEmbed,
        AnyMutator::MarkdownComment,
        AnyMutator::PrefixInjection,
        AnyMutator::AuthorityFraming,
        AnyMutator::RolePlay,
        AnyMutator::DanFrame,
        AnyMutator::SynonymSubstitution,
        AnyMutator::PolitenessVariant,
    ]
}

/// Every mutator hamm0r ships with, in registry order.
pub fn registry() -> (r: Vec<AnyMutator>)
    ensures
        r@ == registry_spec(),
{
    let r = vec![
        AnyMutator::Base64,
        AnyMutator::Rot13,
        AnyMutator::Hex,
        AnyMutator::UrlEncode,
        AnyMutator::Homoglyph,
        AnyMutator::WhitespaceInjection,
        AnyMutator::ZeroWidth,
        AnyMutator::Leetspeak,
        AnyMutator::CodeBlock,
        AnyMutator::JsonEmbed,
        AnyMutator::MarkdownComment,
        AnyMutator::PrefixInjection,
        AnyMutator::AuthorityFraming,
        AnyMutator::RolePlay,
        AnyMutator::DanFrame,
        AnyMutator::SynonymSubstitution,
        AnyMutator::PolitenessVariant,
    ];
    assert(r@ =~= registry_spec());
    r
}

/// No two registered mutators share an id, so an id names one mutator.
pub proof fn lemma_registry_ids_unique()
    ensures
        forall|i: int, j: int|
            0 <= i < j < registry_spec().len() ==> #[trigger] registry_spec()[i].spec_id()
                != #[trigger] registry_spec()[j].spec_id(),
{
    reveal_strlit("encoding.base64");
    reveal_strlit("encoding.rot13");
    reveal_strlit("encoding.hex");
    reveal_strlit("encoding.url");
    reveal_strlit("encoding.homoglyph");
    reveal_strlit("obfuscation.whitespace");
    reveal_strlit("obfuscation.zero_width");
    reveal_strlit("obfuscation.leetspeak");
    reveal_strlit("structural.code_block");
    reveal_strlit("structural.json_embed");
    reveal_strlit("structural.markdown_comment");
    reveal_strlit("structural.prefix");
    reveal_strlit("persona.authority");
    reveal_strlit("persona.role_play");
    reveal_strlit("persona.dan");
    reveal_strlit("linguistic.synonym");
    reveal_strlit("linguistic.politeness");
    assert forall|i: int, j: int|
        0 <= i < j < registry_spec().len() implies #[trigger] registry_spec()[i].spec_id()
            != #[trigger] registry_spec()[j].spec_id() by {
        let a = registry_spec()[i].spec_id();
        let b = registry_spec()[j].spec_id();
        if a.len() == b.len() {
            assert(exists|k: int| 0 <= k < a.len() && a[k] != b[k]) by {
                if a[0] != b[0] {
                    assert(a[0] != b[0]);
                } else if a.len() > 11 && a[11] != b[11] {
                    assert(a[11] != b[11]);
                } else if a.len() > 12 && a[12] != b[12] {
                    assert(a[12] != b[12]);
                } else if a.len() > 9 && a[9] != b[9] {
                    assert(a[9] != b[9]);
                } else if a.len() > 8 && a[8] != b[8] {
                    assert(a[8] != b[8]);
                } else {
                    assert(a.len() > 13 && a[13] != b[13]);
                }
            }
        }
    }
}

/// Finds a mutator by its stable id.
pub fn lookup(id: &str) -> (r: Option<AnyMutator>)
    ensures
        match r {
            Some(m) => registry_spec().contains(m) && m.spec_id() == id@,
            None => forall|i: int|
                0 <= i < registry_spec().len() ==> #[trigger] registry_spec()[i].spec_id() != id@,
        },
{
    let reg = registry();
    let mut i: usize = 0;
    while i < reg.len()
        invariant
            i <= reg.len(),
            reg@ == registry_spec(),
            forall|j: int| 0 <= j < i ==> #[trigger] registry_spec()[j].spec_id() != id@,
        decreases reg.len() - i,
    {
        if str_eq(reg[i].id(), id) {
            assert(registry_spec()[i as int] == reg@[i as int]);
            return Some(reg[i]);
        }
        i += 1;
    }
    None
}

/// The families in their declaration order.
pub open spec fn family_order() -> Seq<MutatorFamily> {
    seq![
        MutatorFamily::Encoding,
        MutatorFamily::Obfuscation,
        MutatorFamily::Structured,
        MutatorFamily::Persona,
        MutatorFamily::Linguistic,
    ]
}

/// Ids of the mutators in `reg` that belong to family `f`, in order.
pub open spec fn ids_in_family(reg: Seq<AnyMutator>, f: MutatorFamily) -> Seq<Seq<char>>
    decreases reg.len(),
{
    if reg.len() == 0 {
        seq![]
    } else if reg.last().spec_family() == f {
        ids_in_family(reg.drop_last(), f).push(reg.last().spec_id())
    } else {
        ids_in_family(reg.drop_last(), f)
    }
}

/// Every shipped mutator grouped by family: one entry per family in family
/// order (every family has members), each listing its mutator ids in
/// registry order.
pub fn by_family() -> (r: Vec<(MutatorFamily, Vec<&'static str>)>)
    ensures
        r@.len() == 5,
        forall|i: int|
            0 <= i < 5 ==> (#[trigger] r@[i]).0 == family_order()[i] && r@[i].1@.map_values(
                |s: &str| s@,
            ) == ids_in_family(registry_spec(), family_order()[i]),
{
    let reg = registry();
    let families = vec![
        MutatorFamily::Encoding,
        MutatorFamily::Obfuscation,
        MutatorFamily::Structured,
        MutatorFamily::Persona,
        MutatorFamily::Linguistic,
    ];
    assert(families@ =~= family_order());
    let mut out: Vec<(MutatorFamily, Vec<&'static str>)> = Vec::new();
    let mut f: usize = 0;
    while f < families.len()
        invariant
            f <= families.len() == 5,
            families@ == family_order(),
            reg@ == registry_spec(),
            out@.len() == f,
            forall|i: int|
                0 <= i < f ==> (#[trigger] out@[i]).0 == family_order()[i] && out@[i].1@.map_values(
                    |s: &str| s@,
                ) == ids_in_family(registry_spec(), family_order()[i]),
        decreases families.len() - f,
    {
        let fam = families[f];
        let mut ids: Vec<&'static str> = Vec::new();
        let mut i: usize = 0;
        while i < reg.len()
            invariant
                i <= reg.len(),
                reg@ == registry_spec(),
                ids@.map_values(|s: &str| s@) == ids_in_family(registry_spec().take(i as int), fam),
            decreases reg.len() - i,
        {
            let m = reg[i];
            assert(registry_spec().take(i + 1).drop_last() =~= registry_spec().take(i as int));
            if m.family() == fam {
                ids.push(m.id());
                assert(ids@.map_values(|s: &str| s@) =~= ids_in_family(
                    registry_spec().take(i as int),
                    fam,
                ).push(m.spec_id()));
            }
            i += 1;
        }
        assert(registry_spec().take(reg.len() as int) =~= registry_spec());
        out.push((fam, ids));
        f += 1;
    }
    out
}

// ── Seed expansion ───────────────────────────────────────────────────────────

/// `m` is among the enabled ids.
pub open spec fn is_enabled(enabled: Seq<Seq<char>>, m: AnyMutator) -> bool {
    enabled.contains(m.spec_id())
}

/// Variants of `seed` produced by the enabled mutators of `reg`, in order.
pub open spec fn variants_of(reg: Seq<AnyMutator>, enabled: Seq<Seq<char>>, seed: Seq<char>) -> Seq<
    (Seq<char>, Seq<char>),
>
    decreases reg.len(),
{
    if reg.len() == 0 {
        seq![]
    } else if is_enabled(enabled, reg.last()) {
        variants_of(reg.drop_last(), enabled, seed) + reg.last().spec_mutate(seed)
    } else {
        variants_of(reg.drop_last(), enabled, seed)
    }
}

/// What `expand_seed` returns: the seed itself (id `seed`) first, then, for
/// a non-empty seed, the variants of the enabled mutators in registry
/// order, cut to the first `max_variants` when a cap is given.
pub open spec fn expansion(seed: Seq<char>, enabled: Seq<Seq<char>>, max_variants: Option<u32>) -> Seq<
    (Seq<char>, Seq<char>),
> {
    let all = variants_of(registry_spec(), enabled, seed);
    seq![(seed, "seed"@)] + if seed.len() == 0 {
        seq![]
    } else {
        match max_variants {
            Some(cap) => if cap < all.len() {
                all.take(cap as int)
            } else {
                all
            },
            None => all,
        }
    }
}

/// The synonym substitution's place in the registry.
pub open spec fn synonym_index() -> int {
    15
}

/// Whether expanding `seed` reaches the synonym substitution: the seed is
/// not empty, the substitution is enabled, and the mutators before it have
/// not produced more variants than the cap (the substitution runs when its
/// turn comes, before the cap is checked against its own variants).
pub open spec fn synonym_reached(seed: Seq<char>, enabled: Seq<Seq<char>>, max_variants: Option<u32>) -> bool {
    &&& seed.len() > 0
    &&& enabled.contains("linguistic.synonym"@)
    &&& match max_variants {
        Some(cap) => variants_of(registry_spec().take(synonym_index()), enabled, seed).len() <= cap,
        None => true,
    }
}

/// Every mutator the expansion reaches is defined on `seed`; only the
/// synonym substitution can fail to be (see `linguistic::synonym_defined`).
pub open spec fn expansion_defined(seed: Seq<char>, enabled: Seq<Seq<char>>, max_variants: Option<u32>) -> bool {
    synonym_reached(seed, enabled, max_variants) ==> synonym_defined(seed)
}

proof fn lemma_synonym_position(i: int)
    requires
        0 <= i < registry_spec().len(),
        registry_spec()[i] == AnyMutator::SynonymSubstitution,
    ensures
        i == synonym_index(),
{
    if i < 15 {
        if i == 0 {} else if i == 1 {} else if i == 2 {} else if i == 3 {} else if i == 4 {} else if i == 5 {}
        else if i == 6 {} else if i == 7 {} else if i == 8 {} else if i == 9 {} else if i == 10 {}
        else if i == 11 {} else if i == 12 {} else if i == 13 {} else {}
        assert(false);
    } else if i > 15 {
        assert(i == 16);
        assert(false);
    }
}

proof fn lemma_prompts_push(s: Seq<MutatedPrompt>, p: MutatedPrompt)
    ensures
        prompts_view(s.push(p)) == prompts_view(s).push(p@),
{
    assert(prompts_view(s.push(p)) =~= prompts_view(s).push(p@));
}

proof fn lemma_variants_prefix(reg: Seq<AnyMutator>, enabled: Seq<Seq<char>>, seed: Seq<char>, m: int)
    requires
        0 <= m <= reg.len(),
    ensures
        variants_of(reg.take(m), enabled, seed).len() <= variants_of(reg, enabled, seed).len(),
        variants_of(reg.take(m), enabled, seed) == variants_of(reg, enabled, seed).take(
            variants_of(reg.take(m), enabled, seed).len() as int,
        ),
    decreases reg.len(),
{
    if m == reg.len() {
        assert(reg.take(m) =~= reg);
    } else {
        lemma_variants_prefix(reg.drop_last(), enabled, seed, m);
        assert(reg.drop_last().take(m) =~= reg.take(m));
    }
}

fn enabled_contains(enabled: &[String], id: &str) -> (r: bool)
    ensures
        r == strings_view(enabled@).contains(id@),
{
    let mut j: usize = 0;
    while j < enabled.len()
        invariant
            j <= enabled@.len(),
            forall|k: int| 0 <= k < j ==> enabled@[k]@ != id@,
        decreases enabled@.len() - j,
    {
        if str_eq(enabled[j].as_str(), id) {
            assert(strings_view(enabled@)[j as int] == id@);
            return true;
        }
        j += 1;
    }
    assert forall|k: int| 0 <= k < strings_view(enabled@).len() implies strings_view(enabled@)[k]
        != id@ by {
        assert(strings_view(enabled@)[k] == enabled@[k]@);
    }
    false
}

/// Expands a single seed through the enabled mutators. The seed itself is
/// always variant 0 with `mutation_id = "seed"`; `max_variants` caps the
/// additional variants (the seed does not count toward the cap).
pub fn expand_seed(seed: &str, enabled_ids: &[String], max_variants: Option<u32>) -> (r: Vec<
    MutatedPrompt,
>)
    requires
        expansion_defined(seed@, strings_view(enabled_ids@), max_variants),
    ensures
        prompts_view(r@) == expansion(seed@, strings_view(enabled_ids@), max_variants),
{
    let ghost enabled = strings_view(enabled_ids@);
    let ghost all = variants_of(registry_spec(), enabled, seed@);
    let mut out: Vec<MutatedPrompt> = Vec::new();
    out.push(MutatedPrompt { text: owned(seed), mutation_id: owned("seed") });
    assert(prompts_view(out@) =~= seq![(seed@, "seed"@)]);
    if seed.is_empty() {
        assert(expansion(seed@, enabled, max_variants) =~= seq![(seed@, "seed"@)]);
        return out;
    }
    let reg = registry();
    let mut emitted: usize = 0;
    let mut i: usize = 0;
    while i < reg.len()
        invariant
            i <= reg.len(),
            reg@ == registry_spec(),
            seed@.len() > 0,
            expansion_defined(seed@, enabled, max_variants),
            enabled == strings_view(enabled_ids@),
            all == variants_of(registry_spec(), enabled, seed@),
            emitted == variants_of(registry_spec().take(i as int), enabled, seed@).len(),
            out@.len() == emitted + 1,
            prompts_view(out@) == seq![(seed@, "seed"@)] + variants_of(
                registry_spec().take(i as int),
                enabled,
                seed@,
            ),
            max_variants matches Some(cap) ==> emitted <= cap,
        decreases reg.len() - i,
    {
        let m = reg[i];
        let ghost before = variants_of(registry_spec().take(i as int), enabled, seed@);
        assert(registry_spec().take(i + 1).drop_last() =~= registry_spec().take(i as int));
        proof {
            lemma_variants_prefix(registry_spec(), enabled, seed@, i as int);
            lemma_variants_prefix(registry_spec(), enabled, seed@, i + 1);
        }
        if enabled_contains(enabled_ids, m.id()) {
            proof {
                if m == AnyMutator::SynonymSubstitution {
                    reveal_strlit("linguistic.synonym");
                    lemma_synonym_position(i as int);
                }
            }
            let variants = m.mutate(seed);
            let ghost vs = m.spec_mutate(seed@);
            assert(variants_of(registry_spec().take(i + 1), enabled, seed@) == before + vs);
            let mut j: usize = 0;
            while j < variants.len()
                invariant
                    j <= variants.len(),
                    prompts_view(variants@) == vs,
                    emitted == before.len() + j,
                    out@.len() == emitted + 1,
                    prompts_view(out@) == seq![(seed@, "seed"@)] + before + vs.take(j as int),
                    max_variants matches Some(cap) ==> emitted <= cap,
                    all == variants_of(registry_spec(), enabled, seed@),
                    before + vs == all.take((before + vs).len() as int),
                    (before + vs).len() <= all.len(),
                    seed@.len() > 0,
                    enabled == strings_view(enabled_ids@),
                decreases variants.len() - j,
            {
                if let Some(cap) = max_variants {
                    if emitted >= cap as usize {
                        proof {
                            let taken = before + vs.take(j as int);
                            assert((before + vs).take(cap as int) =~= taken);
                            assert(all.take(cap as int) =~= all.take((before + vs).len() as int).take(
                                cap as int,
                            ));
                            assert(cap < all.len());
                            assert(expansion(seed@, enabled, max_variants) == seq![(seed@, "seed"@)]
                                + all.take(cap as int));
                            assert(seq![(seed@, "seed"@)] + before + vs.take(j as int) =~= seq![
                                (seed@, "seed"@),
                            ] + taken);
                        }
                        return out;
                    }
                }
                let v = &variants[j];
                let ghost prev = out@;
                assert(vs[j as int] == variants@[j as int]@);
                out.push(MutatedPrompt { text: v.text.clone(), mutation_id: v.mutation_id.clone() });
                proof {
                    lemma_prompts_push(prev, out@.last());
                    assert(prev.push(out@.last()) =~= out@);
                    assert(vs.take(j + 1) =~= vs.take(j as int).push(vs[j as int]));
                    assert((seq![(seed@, "seed"@)] + before + vs.take(j as int)).push(vs[j as int])
                        =~= seq![(seed@, "seed"@)] + before + vs.take(j + 1));
                }
                emitted = out.len() - 1;
                j += 1;
            }
            assert(vs.take(j as int) =~= vs);
        }
        i += 1;
    }
    assert(registry_spec().take(reg.len() as int) =~= registry_spec());
    assert(prompts_view(out@) =~= expansion(seed@, enabled, max_variants));
    out
}


/// Whether expanding `seed` reaches the synonym substitution (see
/// `synonym_reached`).
pub fn reaches_synonym(seed: &str, enabled_ids: &[String], max_variants: Option<u32>) -> (r: bool)
    ensures
        r == synonym_reached(seed@, strings_view(enabled_ids@), max_variants),
{
    let ghost enabled = strings_view(enabled_ids@);
    proof {
        reveal_strlit("linguistic.synonym");
    }
    if seed.is_empty() || !enabled_contains(enabled_ids, "linguistic.synonym") {
        return false;
    }
    let cap: usize = match max_variants {
        Some(c) => c as usize,
        None => {
            return true;
        },
    };
    let reg = registry();
    let mut sum: usize = 0;
    let mut i: usize = 0;
    while i < 15
        invariant
            i <= 15,
            reg@ == registry_spec(),
            seed@.len() > 0,
            enabled == strings_view(enabled_ids@),
            max_variants == Some(cap as u32),
            cap as u32 == cap,
            sum == variants_of(registry_spec().take(i as int), enabled, seed@).len(),
            sum <= cap,
        decreases 15 - i,
    {
        let m = reg[i];
        assert(registry_spec().take(i + 1).drop_last() =~= registry_spec().take(i as int));
        if enabled_contains(enabled_ids, m.id()) {
            proof {
                if m == AnyMutator::SynonymSubstitution {
                    lemma_synonym_position(i as int);
                }
            }
            let vs = m.mutate(seed);
            let n = vs.len();
            assert(prompts_view(vs@).len() == vs@.len());
            assert(n == m.spec_mutate(seed@).len());
            assert(variants_of(registry_spec().take(i + 1), enabled, seed@) == variants_of(
                registry_spec().take(i as int),
                enabled,
                seed@,
            ) + m.spec_mutate(seed@));
            if n > cap - sum {
                proof {
                    let t = registry_spec().take(synonym_index());
                    lemma_variants_prefix(t, enabled, seed@, i + 1);
                    assert(t.take(i + 1) =~= registry_spec().take(i + 1));
                }
                return false;
            }
            sum = sum + n;
        }
        i += 1;
    }
    true
}

/// `expand_seed` for any input: `None` exactly when the expansion reaches
/// the synonym substitution and the seed's lower-case match does not fall
/// on character boundaries of the seed itself (where the original would
/// fail to cut the substitution out).
pub fn expand_seed_checked(seed: &str, enabled_ids: &[String], max_variants: Option<u32>) -> (r:
    Option<Vec<MutatedPrompt>>)
    ensures
        match r {
            Some(v) => expansion_defined(seed@, strings_view(enabled_ids@), max_variants) && prompts_view(v@)
                == expansion(seed@, strings_view(enabled_ids@), max_variants),
            None => !expansion_defined(seed@, strings_view(enabled_ids@), max_variants),
        },
{
    if reaches_synonym(seed, enabled_ids, max_variants) && !synonym_accepts(seed) {
        return None;
    }
    Some(expand_seed(seed, enabled_ids, max_variants))
}

} // verus!
