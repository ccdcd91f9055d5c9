use relay_hub::{choose_action, interpret, AgentAction};

#[test]
fn ping_is_liveness_probe() {
    let step = interpret("ping");
    assert_eq!(step.action, AgentAction::Ping);
    assert!(step.errors.is_empty());
}

#[test]
fn command_triple_is_read() {
    let step = interpret("action=do;param=caps;value=toggle");
    assert_eq!(step.action, AgentAction::ToggleCaps);
    assert_eq!(step.param, "caps");
    assert_eq!(step.value, "toggle");
    assert!(step.errors.is_empty());
}

#[test]
fn link_value_keeps_later_equals() {
    let step = interpret("action=do;param=link;value=https://a.b/?x=1");
    assert_eq!(step.action, AgentAction::OpenLink);
    assert_eq!(step.value, "https://a.b/?x=1");
}

#[test]
fn malformed_segments_get_one_error_each() {
    let step = interpret("action=get;bad;;");
    assert_eq!(step.action, AgentAction::Get);
    assert_eq!(
        step.errors,
        vec![
            "Invalid body; expected 2 parts for arg bad".to_string(),
            "Invalid body; expected 2 parts for arg ".to_string(),
            "Invalid body; expected 2 parts for arg ".to_string(),
        ]
    );
}

#[test]
fn pointer_variant_without_action_is_unknown_action() {
    let step = interpret("param=mouse;value=10,20");
    assert_eq!(step.action, AgentAction::UnknownAction);
    assert_eq!(step.param, "mouse");
    assert_eq!(step.value, "10,20");
}

#[test]
fn action_choices() {
    let s = |x: &str| x.to_string();
    assert_eq!(choose_action(&s("do"), &s("lock")), AgentAction::Lock);
    assert_eq!(choose_action(&s("do"), &s("close")), AgentAction::CloseWindow);
    assert_eq!(choose_action(&s("do"), &s("mouse")), AgentAction::MovePointer);
    assert_eq!(choose_action(&s("do"), &s("ldown")), AgentAction::LeftDown);
    assert_eq!(choose_action(&s("do"), &s("lup")), AgentAction::LeftUp);
    assert_eq!(choose_action(&s("do"), &s("volume")), AgentAction::UnknownParam);
    assert_eq!(choose_action(&s("get"), &s("")), AgentAction::Get);
    assert_eq!(choose_action(&s(""), &s("caps")), AgentAction::UnknownAction);
}
