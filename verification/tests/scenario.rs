use hamm0r::scenario::{check_scenario_shape, prepare_steps, scenario_repeat, SavedStep};

fn step(id: &str, request: Option<&str>, session: &str) -> SavedStep {
    SavedStep {
        id: id.into(),
        request_id: request.map(str::to_owned),
        prompt_id: None,
        prompt_text: "hi".into(),
        session: session.into(),
    }
}

#[test]
fn scenario_needs_a_target_and_steps() {
    assert_eq!(check_scenario_shape("  ", 2), Err("scenario has no target selected".into()));
    assert_eq!(check_scenario_shape("t1", 0), Err("scenario has no steps".into()));
    assert_eq!(check_scenario_shape("t1", 1), Ok(()));
}

#[test]
fn steps_get_default_ids_and_sessions() {
    let steps = vec![step("", None, ""), step("login", Some("auth"), "B"), step(" ", Some("  "), " ")];
    let out = prepare_steps(&steps, &vec!["auth".to_owned()]).unwrap();
    assert_eq!(out[0].id, "step-001");
    assert_eq!(out[0].session, "A");
    assert_eq!(out[1].id, "login");
    assert_eq!(out[1].session, "B");
    assert_eq!(out[2].id, "step-003");
    assert_eq!(scenario_repeat(0), 1);
    assert_eq!(scenario_repeat(3), 3);
}

#[test]
fn unknown_step_request_is_refused() {
    let steps = vec![step("a", Some("auth"), "A"), step("b", Some("missing"), "A")];
    assert_eq!(
        prepare_steps(&steps, &vec!["auth".to_owned()]).unwrap_err(),
        "scenario step 'b' references unknown target request 'missing'"
    );
}
