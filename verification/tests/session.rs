use hamm0r::session::{parse_session_strategy, SessionStrategy};

#[test]
fn parse_session_strategy_maps_header_mode() {
    match parse_session_strategy("header", Some("X-Test".to_owned())) {
        SessionStrategy::Header { header_name } => assert_eq!(header_name, "X-Test"),
        _ => panic!("expected header strategy"),
    }
}

#[test]
fn parse_session_strategy_defaults_and_other_modes() {
    assert_eq!(
        parse_session_strategy("header", None),
        SessionStrategy::Header { header_name: "X-Session-Id".to_owned() }
    );
    assert_eq!(
        parse_session_strategy("body_field", None),
        SessionStrategy::BodyField { field_name: "session_id".to_owned() }
    );
    assert_eq!(parse_session_strategy("cookie", Some("x".to_owned())), SessionStrategy::Cookie);
    assert_eq!(parse_session_strategy("Cookie", None), SessionStrategy::Stateless);
}
