use evm_assets::json::Json;
use evm_assets::verified::{answer_of, fold_route, unwrap_answer};

#[test]
fn structured_refusals_survive() {
    let refusal =
        r#"{"ok":false,"code":"verified_blocked","verifiedProxy":{"state":"wrong_chain"}}"#;
    let relayed = Json::parse(&unwrap_answer(refusal).unwrap_err()).unwrap();
    assert_eq!(relayed.get_str("code"), Some("verified_blocked"));
    assert_eq!(relayed.get("verifiedProxy").unwrap().get_str("state"), Some("wrong_chain"));
}

#[test]
fn the_weakest_route_wins() {
    assert_eq!(fold_route(&[Some("verified"), Some("direct")]), "direct");
    assert_eq!(fold_route(&[Some("verified"), None]), "unknown");
}

#[test]
fn routes_fold_to_one_of_the_known_ones() {
    assert_eq!(fold_route(&[]), "unknown");
    assert_eq!(fold_route(&[Some("verified")]), "verified");
    assert_eq!(fold_route(&[Some("verified"), Some("proxied")]), "proxied");
    assert_eq!(fold_route(&[Some("carrier pigeon"), Some("verified")]), "unknown");
}

#[test]
fn an_answer_is_the_result_or_the_hash() {
    let answer = unwrap_answer(r#"{"ok":true,"result":"0x01","hash":"0x02","route":"direct"}"#);
    let answer = answer.unwrap();
    assert_eq!(answer.value.as_str(), Some("0x01"));
    assert_eq!(answer.route.as_deref(), Some("direct"));
    let answer = unwrap_answer(r#"{"ok":true,"hash":"0x02"}"#).unwrap();
    assert_eq!(answer.value.as_str(), Some("0x02"));
    assert_eq!(answer.route, None);
    assert_eq!(unwrap_answer(r#"{"ok":true}"#).unwrap().value, Json::Null);
}

#[test]
fn what_does_not_say_that_it_succeeded_did_not() {
    assert_eq!(unwrap_answer(r#"{"result":1}"#).unwrap_err(), r#"{"result":1}"#);
    assert_eq!(unwrap_answer("[]").unwrap_err(), "[]");
    assert!(unwrap_answer("nonsense").is_err());
    let mut reply = Json::object();
    reply.set("ok", Json::text("true"));
    assert_eq!(answer_of(&reply).unwrap_err(), r#"{"ok":"true"}"#);
}
