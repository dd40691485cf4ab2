use hamm0r::library::{dedupe_tags, make_slug, normalize_owasp_ref, slugify, unique_id_from_name};

#[test]
fn slugify_handles_unicode_and_punctuation() {
    assert_eq!(slugify("Hello World!"), "hello-world");
    assert_eq!(slugify("  spaced  "), "spaced");
    assert_eq!(slugify("user/path-thing"), "user-path-thing");
    assert_eq!(slugify("ÜberCool 🙃 attack"), "bercool-attack");
    assert_eq!(slugify("---"), "");
}

#[test]
fn unique_id_appends_suffix_on_collision() {
    let mut existing: Vec<String> = Vec::new();
    existing.push("ignore-me".to_owned());
    assert_eq!(unique_id_from_name("Ignore me", &existing), "ignore-me-2");

    existing.push("ignore-me-2".to_owned());
    assert_eq!(unique_id_from_name("Ignore me", &existing), "ignore-me-3");
}

#[test]
fn unique_id_empty_falls_back_to_prompt_n() {
    let mut existing: Vec<String> = Vec::new();
    let id = unique_id_from_name("🙃🙃🙃", &existing);
    assert_eq!(id, "prompt-2");
    existing.push(id);
    assert_eq!(unique_id_from_name("🙃🙃🙃", &existing), "prompt-3");
}

#[test]
fn dedupe_tags_strips_blanks_and_duplicates() {
    let got = dedupe_tags(vec![
        "  one ".into(),
        "two".into(),
        "one".into(),
        "".into(),
        "  ".into(),
        "two".into(),
    ]);
    assert_eq!(got, vec!["one", "two"]);
}

#[test]
fn normalize_owasp_ref_uppercases_and_trims() {
    assert_eq!(
        normalize_owasp_ref(Some(" a01 ".into())).as_deref(),
        Some("A01")
    );
    assert_eq!(normalize_owasp_ref(Some("".into())), None);
    assert_eq!(normalize_owasp_ref(None), None);
}

// ── Beyond the original suite ───────────────────────────────────────────────

#[test]
fn unique_id_keeps_a_free_slug() {
    let existing = vec!["other".to_owned()];
    assert_eq!(unique_id_from_name("Ignore me", &existing), "ignore-me");
}

#[test]
fn make_slug_prefixes_the_date() {
    assert_eq!(make_slug("Q3 Red Team!", "2026-05-04"), "2026-05-04-q3-red-team");
}

#[test]
fn normalize_owasp_ref_uses_unicode_uppercase() {
    assert_eq!(normalize_owasp_ref(Some("\tstra\u{df}e ".into())).as_deref(), Some("STRASSE"));
}
