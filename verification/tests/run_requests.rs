use hamm0r::run_requests::{
    check_transient_prompt, find_run_request, resolve_judge_targets, run_parallelism, run_payloads,
    sorted_targets, transient_step, PayloadSpec,
};

#[test]
fn run_payloads_use_default_session() {
    let specs = vec![PayloadSpec {
        prompt_id: "p".to_owned(),
        payload_id: "p-0".to_owned(),
        text: "hi".to_owned(),
    }];
    let out = run_payloads(&specs);
    assert_eq!(out.len(), 1);
    assert_eq!(out[0].session, "default");
    assert_eq!(out[0].text, "hi");
    assert_eq!(run_parallelism(None), 4);
    assert_eq!(run_parallelism(Some(2)), 2);
}

#[test]
fn missing_run_request_is_named() {
    let ids = vec!["a".to_owned(), "b".to_owned()];
    assert_eq!(find_run_request(&ids, "b"), Ok(1));
    assert_eq!(find_run_request(&ids, "c"), Err("request 'c' not found".to_owned()));
}

#[test]
fn transient_prompt_must_not_be_blank() {
    assert_eq!(check_transient_prompt("  \n"), Err("prompt text is empty".to_owned()));
    assert_eq!(check_transient_prompt(" x "), Ok(()));
    let step = transient_step("x", Some("p1".to_owned()));
    assert_eq!(step.id, "step-001");
    assert_eq!(step.session, "A");
    assert_eq!(step.request_id, None);
    assert_eq!(step.prompt_id.as_deref(), Some("p1"));
}

#[test]
fn judge_targets_need_run_id_without_result_ids() {
    assert_eq!(
        resolve_judge_targets(&vec![], None, &vec![1, 2]),
        Err("run_id is required when result_ids is empty".to_owned())
    );
    assert_eq!(
        resolve_judge_targets(&vec![], Some("run-002"), &vec![3, 1, 3]),
        Ok(vec![("run-002".to_owned(), 1), ("run-002".to_owned(), 3)])
    );
}

#[test]
fn judge_targets_from_result_ids_are_filtered_sorted_and_unique() {
    let ids = vec![
        "run-002-5".to_owned(),
        "run-001-9".to_owned(),
        "run-002-1".to_owned(),
        "run-002-5".to_owned(),
    ];
    assert_eq!(
        resolve_judge_targets(&ids, None, &vec![]),
        Ok(vec![
            ("run-001".to_owned(), 9),
            ("run-002".to_owned(), 1),
            ("run-002".to_owned(), 5)
        ])
    );
    assert_eq!(
        resolve_judge_targets(&ids, Some("run-002"), &vec![]),
        Ok(vec![("run-002".to_owned(), 1), ("run-002".to_owned(), 5)])
    );
    let bad = vec!["run-001-1".to_owned(), "nodash".to_owned(), "run-x".to_owned()];
    assert_eq!(
        resolve_judge_targets(&bad, None, &vec![]),
        Err("invalid result_id: nodash".to_owned())
    );
}

#[test]
fn sorted_targets_order_by_run_then_number() {
    let ts = vec![("b".to_owned(), 1), ("a".to_owned(), 2), ("a".to_owned(), 1), ("b".to_owned(), 1)];
    assert_eq!(
        sorted_targets(&ts),
        vec![("a".to_owned(), 1), ("a".to_owned(), 2), ("b".to_owned(), 1)]
    );
}
