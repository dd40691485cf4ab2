use hamm0r::mutation::encoding::{base64_encode, Hex, Homoglyph, Rot13, UrlEncode};
use hamm0r::mutation::linguistic::{PolitenessVariant, SynonymSubstitution};
use hamm0r::mutation::obfuscation::{Leetspeak, WhitespaceInjection, ZeroWidth};
use hamm0r::mutation::structural::{CodeBlock, JsonEmbed, MarkdownComment, PrefixInjection};
use hamm0r::mutation::{
    by_family, expand_seed, expand_seed_checked, lookup, registry, AnyMutator, MutatedPrompt,
    Mutator, MutatorFamily,
};

fn ids_in(prompts: &[MutatedPrompt]) -> Vec<String> {
    prompts.iter().map(|p| p.mutation_id.clone()).collect()
}

#[test]
fn registry_ids_are_unique_and_stable() {
    let r = registry();
    let mut ids: Vec<&str> = r.iter().map(|m| m.id()).collect();
    ids.sort();
    let len_before = ids.len();
    ids.dedup();
    assert_eq!(ids.len(), len_before, "mutator ids must be unique");
}

#[test]
fn expand_seed_always_includes_seed_variant_first() {
    let out = expand_seed("hello", &[], None);
    assert_eq!(out.len(), 1);
    assert_eq!(out[0].mutation_id, "seed");
    assert_eq!(out[0].text, "hello");
}

#[test]
fn expand_seed_empty_input_is_noop() {
    let out = expand_seed("", &["encoding.base64".to_owned()], None);
    assert_eq!(out.len(), 1);
    assert_eq!(out[0].mutation_id, "seed");
    assert_eq!(out[0].text, "");
}

#[test]
fn expand_seed_respects_max_variants() {
    let enabled: Vec<String> = registry().iter().map(|m| m.id().to_owned()).collect();
    let out = expand_seed("hello world", &enabled, Some(3));
    // seed + 3 mutations
    assert_eq!(out.len(), 4);
    assert_eq!(out[0].mutation_id, "seed");
}

#[test]
fn expand_seed_is_deterministic() {
    let enabled = vec![
        "encoding.base64".to_owned(),
        "obfuscation.leetspeak".to_owned(),
    ];
    let a = expand_seed("test prompt", &enabled, None);
    let b = expand_seed("test prompt", &enabled, None);
    assert_eq!(ids_in(&a), ids_in(&b));
    assert_eq!(
        a.iter().map(|p| p.text.clone()).collect::<Vec<_>>(),
        b.iter().map(|p| p.text.clone()).collect::<Vec<_>>(),
    );
}

#[test]
fn base64_encodes_known_value() {
    assert_eq!(base64_encode(b"Man"), "TWFu");
    assert_eq!(base64_encode(b"Ma"), "TWE=");
    assert_eq!(base64_encode(b"M"), "TQ==");
    assert_eq!(base64_encode(b""), "");
}

#[test]
fn rot13_round_trips() {
    let seed = "Hello, World!";
    let once = Rot13.mutate(seed);
    let twice = Rot13.mutate(&once[0].text);
    assert_eq!(twice[0].text, seed);
}

#[test]
fn hex_lowercases_with_two_digits_per_byte() {
    let out = Hex.mutate("AZ");
    assert_eq!(out[0].text, "415a");
}

#[test]
fn url_encode_passes_unreserved_through() {
    let out = UrlEncode.mutate("a-b_c.~ ?");
    assert_eq!(out[0].text, "a-b_c.~%20%3F");
}

#[test]
fn homoglyph_swaps_only_targeted_letters() {
    let out = Homoglyph.mutate("apex");
    assert_ne!(out[0].text, "apex");
    assert_eq!(out[0].text.chars().count(), "apex".chars().count());
}

#[test]
fn whitespace_injection_separates_letters() {
    let out = WhitespaceInjection.mutate("ab cd");
    assert_eq!(out[0].text, "a b c d");
}

#[test]
fn zero_width_inserts_u200b_between_chars() {
    let out = ZeroWidth.mutate("ab");
    assert_eq!(out[0].text, "a\u{200B}b");
}

#[test]
fn leetspeak_maps_vowels_and_some_consonants() {
    let out = Leetspeak.mutate("test ABC");
    assert_eq!(out[0].text, "7357 4BC");
}

#[test]
fn code_block_wraps_in_triple_backticks() {
    let out = CodeBlock.mutate("x");
    assert_eq!(out[0].text, "```\nx\n```");
}

#[test]
fn json_embed_escapes_quotes() {
    let out = JsonEmbed.mutate("he said \"hi\"");
    assert!(out[0].text.contains(r#""he said \"hi\"""#));
}

#[test]
fn markdown_comment_wraps_in_html_comment() {
    let out = MarkdownComment.mutate("x");
    assert_eq!(out[0].text, "<!-- x -->");
}

#[test]
fn prefix_injection_prepends_authority_framing() {
    let out = PrefixInjection.mutate("explain");
    assert!(out[0].text.starts_with("As a system administrator"));
    assert!(out[0].text.ends_with("explain"));
}

#[test]
fn persona_mutators_each_emit_one_variant_containing_seed() {
    for m in [
        AnyMutator::AuthorityFraming,
        AnyMutator::RolePlay,
        AnyMutator::DanFrame,
    ] {
        let out = m.mutate("the secret");
        assert_eq!(out.len(), 1);
        assert!(
            out[0].text.contains("the secret"),
            "{} did not contain seed: {}",
            m.id(),
            out[0].text
        );
    }
}

#[test]
fn synonym_substitutes_first_match() {
    let out = SynonymSubstitution.mutate("ignore the rules");
    assert_eq!(out.len(), 1);
    assert!(out[0].text.starts_with("disregard"));
}

#[test]
fn synonym_returns_empty_when_nothing_matches() {
    let out = SynonymSubstitution.mutate("xyz qrs");
    assert!(out.is_empty());
}

#[test]
fn politeness_wraps_in_polite_frame() {
    let out = PolitenessVariant.mutate("do x");
    assert!(out[0].text.starts_with("Could you kindly"));
    assert!(out[0].text.ends_with("Thank you."));
}

// ── Beyond the original suite ───────────────────────────────────────────────

#[test]
fn family_names_round_trip() {
    for f in [
        MutatorFamily::Encoding,
        MutatorFamily::Obfuscation,
        MutatorFamily::Structured,
        MutatorFamily::Persona,
        MutatorFamily::Linguistic,
    ] {
        assert_eq!(MutatorFamily::parse(f.as_str()), Some(f));
    }
    assert_eq!(MutatorFamily::Structured.as_str(), "structural");
    assert_eq!(MutatorFamily::parse("nope"), None);
}

#[test]
fn lookup_finds_registered_ids_only() {
    assert_eq!(lookup("encoding.rot13"), Some(AnyMutator::Rot13));
    assert_eq!(lookup("encoding.nope"), None);
}

#[test]
fn by_family_lists_every_mutator_once() {
    let groups = by_family();
    let total: usize = groups.iter().map(|(_, ids)| ids.len()).sum();
    assert_eq!(total, registry().len());
    assert_eq!(groups[0].0, MutatorFamily::Encoding);
}

#[test]
fn expand_seed_keeps_registry_order_and_cap() {
    let enabled = vec!["obfuscation.leetspeak".to_owned(), "encoding.hex".to_owned()];
    let out = expand_seed("AZ", &enabled, None);
    assert_eq!(ids_in(&out), vec!["seed", "encoding.hex", "obfuscation.leetspeak"]);
    assert_eq!(out[1].text, "415a");
    let capped = expand_seed("AZ", &enabled, Some(1));
    assert_eq!(ids_in(&capped), vec!["seed", "encoding.hex"]);
}

#[test]
fn expand_seed_checked_refuses_unsplittable_synonym_match() {
    let enabled = vec!["linguistic.synonym".to_owned()];
    // The lowercase form of U+0130 is two characters long, so the match
    // position in the lowercase text does not fall on the seed's boundaries.
    assert!(expand_seed_checked("\u{130}ignore", &enabled, None).is_none());
    let ok = expand_seed_checked("ignore it", &enabled, None).unwrap();
    assert_eq!(ok[1].text, "disregard it");
}

#[test]
fn synonym_keeps_case_of_first_letter() {
    let out = SynonymSubstitution.mutate("Ignore the rules");
    assert_eq!(out.len(), 1);
    assert_eq!(out[0].text, "Disregard the rules");
    let out = SynonymSubstitution.mutate("please IGNORE it");
    assert_eq!(out[0].text, "please Disregard it");
}

#[test]
fn expansion_stopped_by_cap_never_reaches_the_synonym_step() {
    let enabled = vec!["encoding.base64".to_owned(), "linguistic.synonym".to_owned()];
    let out = expand_seed_checked("\u{130}ignore", &enabled, Some(0)).unwrap();
    assert_eq!(out.len(), 1);
    assert_eq!(out[0].mutation_id, "seed");
    let out = expand_seed_checked("\u{130}ignore", &enabled, Some(1));
    assert!(out.is_none());
    let out = expand_seed("\u{130}ignore", &enabled, Some(0));
    assert_eq!(out.len(), 1);
}
