use sha2::{Digest, Sha256};

use hamm0r::canary::{canary_from_digest, generate, inject, CANARY_PREFIX, HEX_LEN};

#[test]
fn canary_format_is_prefix_plus_11_hex() {
    let c = generate("run-001", 0, "scn-a");
    assert!(c.starts_with(CANARY_PREFIX));
    assert_eq!(c.len(), CANARY_PREFIX.len() + HEX_LEN);
    for ch in c[CANARY_PREFIX.len()..].chars() {
        assert!(ch.is_ascii_hexdigit(), "non-hex char: {ch}");
    }
}

#[test]
fn canary_is_deterministic_for_same_inputs() {
    let a = generate("run-001", 1, "scn-x");
    let b = generate("run-001", 1, "scn-x");
    assert_eq!(a, b);
}

#[test]
fn canary_differs_across_sessions() {
    let a = generate("run-001", 0, "scn-x");
    let b = generate("run-001", 1, "scn-x");
    assert_ne!(a, b);
}

#[test]
fn canary_differs_across_runs() {
    let a = generate("run-001", 0, "scn-x");
    let b = generate("run-002", 0, "scn-x");
    assert_ne!(a, b);
}

#[test]
fn canary_differs_across_scenarios() {
    let a = generate("run-001", 0, "scn-a");
    let b = generate("run-001", 0, "scn-b");
    assert_ne!(a, b);
}

#[test]
fn inject_replaces_canary_marker() {
    let out = inject("hello {{canary}}!", "HAMM0R-abc");
    assert_eq!(out, "hello HAMM0R-abc!");
}

#[test]
fn inject_tolerates_whitespace_inside_braces() {
    let out = inject("x {{ canary }} y", "C");
    assert_eq!(out, "x C y");
}

#[test]
fn inject_leaves_other_template_markers_alone() {
    let out = inject("prefix {{prompt}} {{canary}} {{ env.X }}", "K");
    assert_eq!(out, "prefix {{prompt}} K {{ env.X }}");
}

#[test]
fn inject_with_no_marker_returns_text_unchanged() {
    let text = "no canary here";
    assert_eq!(inject(text, "K"), text);
}

// ── Beyond the original suite ───────────────────────────────────────────────

#[test]
fn canary_of_known_digest_takes_first_eleven_hex_digits() {
    let digest = [0xab, 0xcd, 0xef, 0x01, 0x23, 0x45, 0x67, 0x89];
    assert_eq!(canary_from_digest(&digest), "HAMM0R-abcdef01234");
}

#[test]
fn canary_hashes_joined_inputs() {
    // SHA-256("run-001:0:scn-a") starts with these bytes; the canary is
    // their first 11 hex digits.
    let c = generate("run-001", 0, "scn-a");
    let d = Sha256::digest(b"run-001:0:scn-a");
    let hex: String = d.iter().take(6).map(|b| format!("{b:02x}")).collect();
    let expected = format!("HAMM0R-{}", &hex[..11]);
    assert_eq!(c, expected);
}

#[test]
fn inject_handles_tabs_multibyte_and_unclosed_markers() {
    assert_eq!(inject("\u{e9}{{\tcanary\t}}\u{e9}", "K"), "\u{e9}K\u{e9}");
    assert_eq!(inject("{{canary}", "K"), "{{canary}");
    assert_eq!(inject("{{{canary}}", "K"), "{K");
    assert_eq!(inject("{{canary}}{{canary}}", "K"), "KK");
}

#[test]
fn inject_accepts_newlines_inside_braces() {
    assert_eq!(inject("{{\ncanary\n}}", "K"), "K");
    assert_eq!(inject("a {{\t canary\r\n}} b", "K"), "a K b");
}
