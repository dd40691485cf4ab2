//! Prompt framing and output detection for the local judge model.
use vstd::prelude::*;

use crate::text::{owned, push_str};

verus! {

/// The Qwen2.5 ChatML frame around a judge prompt: a system turn asking
/// for JSON only, the user turn holding the prompt, and an open
/// assistant turn.
pub open spec fn qwen25_prompt(user_prompt: Seq<char>) -> Seq<char> {
    "<|im_start|>system\nYou are a concise security evaluation assistant. Respond with valid JSON only \u{2014} no prose, no code fences, nothing else.<|im_end|>\n<|im_start|>user\n"@
        + user_prompt + "<|im_end|>\n<|im_start|>assistant\n"@
}

/// Formats a judge prompt with the Qwen2.5 ChatML template.
pub fn format_qwen25_prompt(user_prompt: &str) -> (r: String)
    ensures
        r@ == qwen25_prompt(user_prompt@),
{
    let mut r = owned(
        "<|im_start|>system\nYou are a concise security evaluation assistant. Respond with valid JSON only \u{2014} no prose, no code fences, nothing else.<|im_end|>\n<|im_start|>user\n",
    );
    push_str(&mut r, user_prompt);
    push_str(&mut r, "<|im_end|>\n<|im_start|>assistant\n");
    r
}

/// How many bytes of `bytes` equal `b`.
pub open spec fn count_byte(bytes: Seq<u8>, b: u8) -> nat
    decreases bytes.len(),
{
    if bytes.len() == 0 {
        0
    } else {
        count_byte(bytes.drop_last(), b) + if bytes.last() == b {
            1nat
        } else {
            0nat
        }
    }
}

/// The output holds at least one `{` and as many `}`: the model has closed
/// the JSON object it opened.
pub open spec fn complete_json(bytes: Seq<u8>) -> bool {
    count_byte(bytes, 123) > 0 && count_byte(bytes, 123) == count_byte(bytes, 125)
}

/// Whether the output so far holds a balanced JSON object (by brace count).
pub fn is_complete_json(bytes: &[u8]) -> (r: bool)
    ensures
        r == complete_json(bytes@),
{
    let mut opens: usize = 0;
    let mut closes: usize = 0;
    let mut i: usize = 0;
    while i < bytes.len()
        invariant
            i <= bytes@.len(),
            opens == count_byte(bytes@.take(i as int), 123),
            closes == count_byte(bytes@.take(i as int), 125),
            opens <= i,
            closes <= i,
        decreases bytes@.len() - i,
    {
        assert(bytes@.take(i + 1).drop_last() =~= bytes@.take(i as int));
        if bytes[i] == 123u8 {
            opens += 1;
        } else if bytes[i] == 125u8 {
            closes += 1;
        }
        i += 1;
    }
    assert(bytes@.take(bytes@.len() as int) =~= bytes@);
    opens > 0 && opens == closes
}

} // verus!
