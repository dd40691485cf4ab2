use std::collections::HashMap;

#[test]
fn per_request_repeat_expansion_math() {
    // 2 requests (login×1, chat×3), 2 payloads, global repeat=2 → 16 target cells.
    let request_repeats: HashMap<&str, u32> = [("chat", 3)].into();
    let request_ids = ["login", "chat"];
    let payload_count = 2u32;
    let global_repeat = 2u32;

    let request_repeat_sum: u32 = request_ids
        .iter()
        .map(|id| request_repeats.get(id).copied().unwrap_or(1).max(1))
        .sum();
    let total = payload_count
        .saturating_mul(request_repeat_sum)
        .saturating_mul(global_repeat);

    assert_eq!(request_repeat_sum, 4);
    assert_eq!(total, 16);
}
