use hamm0r::llm::{format_qwen25_prompt, is_complete_json};

#[test]
fn complete_json_detection() {
    assert!(!is_complete_json(b""));
    assert!(!is_complete_json(b"{\"a\":1"));
    assert!(is_complete_json(b"{\"a\":1}"));
    assert!(is_complete_json(b"  {\"a\":{\"b\":2}}  "));
}

#[test]
fn format_includes_chatml_tokens() {
    let p = format_qwen25_prompt("test");
    assert!(p.contains("<|im_start|>system"));
    assert!(p.contains("<|im_start|>user"));
    assert!(p.contains("<|im_start|>assistant"));
    assert!(p.contains("test"));
}

#[test]
fn prompt_frame_is_exact() {
    assert_eq!(
        format_qwen25_prompt("Q"),
        "<|im_start|>system\nYou are a concise security evaluation assistant. Respond with valid JSON only \u{2014} no prose, no code fences, nothing else.<|im_end|>\n<|im_start|>user\nQ<|im_end|>\n<|im_start|>assistant\n"
    );
}

#[test]
fn brace_count_ignores_order() {
    assert!(is_complete_json(b"}{"));
    assert!(!is_complete_json(b"}"));
}
