use evm_assets::depinit::{next_step, reply_ok, step_of, Next};
use evm_assets::json::Json;

#[test]
fn only_explicit_unconfigured_licenses_initialization() {
    assert_eq!(
        next_step(r#"{"ok":true,"state":"unconfigured"}"#),
        Next::Initialize
    );
    assert_eq!(
        next_step(r#"{"ok":true,"state":"configured"}"#),
        Next::Settled
    );
}

#[test]
fn startup_failures_are_retried() {
    for raw in [
        "",
        "not json",
        "[]",
        "{}",
        r#"{"ok":false,"state":"unready"}"#,
        r#"{"ok":false,"error":"unauthorized"}"#,
        r#"{"state":"unknown"}"#,
    ] {
        assert_eq!(next_step(raw), Next::AskAgain, "{raw}");
    }
}

#[test]
fn another_initializer_winning_is_settled() {
    assert!(reply_ok(r#"{"ok":true,"applied":false,"state":"configured"}"#));
    assert!(reply_ok(r#"{"ok":true,"applied":true}"#));
    assert!(!reply_ok(r#"{"ok":false,"error":"unready"}"#));
    assert!(!reply_ok("not json"));
}

#[test]
fn a_status_that_is_no_text_is_asked_for_again() {
    let mut status = Json::object();
    status.set("state", Json::Bool(true));
    assert_eq!(step_of(&status), Next::AskAgain);
    status.set("state", Json::text("unconfigured"));
    assert_eq!(step_of(&status), Next::Initialize);
}
