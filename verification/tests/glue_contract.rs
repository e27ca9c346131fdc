//! What the operations ask of the outside, and how their replies come about: each runs against a
//! provider of this file, which records every request.

use alloy::primitives::{Address, Bytes};
use alloy::sol_types::SolValue;
use evm_assets::budget::{READ, RPC, STARTUP, TRANSFER};
use evm_assets::json::Json;
use evm_assets::provider::{Event, Request};
use evm_assets::replies::err;
use evm_assets::service::{
    build_transfer, decorate_history, get_balances, list_assets, on_context_ready, resolve_asset,
    Step,
};
use evm_assets::transfer::TransferRequest;

const TOKENS: &str = r#"[{"address":"0xa0b86991c6218b36c1d19d4a2e9eb0ce3606eb48","symbol":"USDC","decimals":6}]"#;
const CHAINS: &str = r#"{"ok":true,"chains":[
    {"chainId":1,"name":"Ethereum","nativeSymbol":"ETH","nativeDecimals":18,"testnet":false},
    {"chainId":10,"name":"Optimism","nativeSymbol":"ETH","nativeDecimals":18,"testnet":false},
    {"chainId":5,"name":"Nowhere"}]}"#;
const BLOCKED: &str =
    r#"{"code":"verified_blocked","ok":false,"verifiedProxy":{"state":"wrong_chain"}}"#;

fn json(text: &str) -> Json {
    Json::parse(text).unwrap()
}

fn word(n: u8) -> Vec<u8> {
    let mut word = vec![0u8; 32];
    word[31] = n;
    word
}

fn token_request(units: &str) -> TransferRequest {
    TransferRequest {
        from: "0x0000000000000000000000000000000000000001".into(),
        to: "0x0000000000000000000000000000000000000002".into(),
        amount: None,
        amount_units: Some(units.into()),
        token: Some("USDC".into()),
        token_address: None,
        tokens: json(TOKENS).as_array().unwrap().to_vec(),
        deadline_ms: None,
    }
}

fn operations(settled: bool) -> Vec<(&'static str, Step)> {
    let account = "0x0000000000000000000000000000000000000001";
    vec![
        ("list_assets", list_assets(1, TOKENS, settled)),
        ("get_balances", get_balances(1, account, TOKENS, "balance", settled)),
        ("resolve_asset", resolve_asset(1, "usdc", TOKENS, settled)),
        ("build_transfer", build_transfer(1, Ok(token_request("0.000007")), settled)),
        (
            "decorate_history",
            decorate_history(r#"{"transactions":[{"chainId":1},{"chainId":10}]}"#, "", settled),
        ),
    ]
}

fn answer(request: &Request) -> Event {
    Event::Reply(match request {
        Request::ConfigStatus => r#"{"ok":true,"state":"unconfigured"}"#.into(),
        Request::InitDefaults => r#"{"ok":true,"applied":true}"#.into(),
        Request::ListChains => CHAINS.into(),
        Request::Call { call, .. } => {
            let multicall = json(call).get_str("to") == Some("0xcA11bde05977b3631167028862bE2a173976CA11");
            let data = if multicall {
                (vec![(true, Bytes::from(word(3))), (true, Bytes::from(word(7)))],)
                    .abi_encode_sequence()
            } else {
                word(7)
            };
            format!(r#"{{"ok":true,"result":"0x{}","route":"verified"}}"#, hex::encode(data))
        }
    })
}

/// Runs an operation to its reply; the requests that it made, the reply, and whether the provider
/// counts as configured afterwards.
fn run_with(
    mut step: Step,
    mut provider: impl FnMut(&Request) -> Event,
) -> (Vec<Request>, String, bool) {
    let mut asked = Vec::new();
    loop {
        match step {
            Step::Ask { request, pending } => {
                let event = provider(&request);
                asked.push(request);
                step = pending.advance(event);
            }
            Step::Done { reply, settled } => return (asked, reply, settled),
            Step::Unwritable { .. } => panic!("a row cannot be written to"),
        }
    }
}

fn run(step: Step) -> (Vec<Request>, String, bool) {
    run_with(step, answer)
}

/// Everything that the operations ask, from an unsettled start.
fn all_requests() -> Vec<Request> {
    operations(false).into_iter().flat_map(|(_, step)| run(step).0).collect()
}

/// The functions that a call asks contracts for: its own, and those of the legs of a batch.
fn selectors(call: &str) -> Vec<[u8; 4]> {
    let data = hex::decode(&json(call).get_str("data").unwrap()[2..]).unwrap();
    let selector: [u8; 4] = data[..4].try_into().unwrap();
    if selector != [0x82, 0xad, 0x56, 0xcb] {
        return vec![selector];
    }
    let (legs,) = <(Vec<(Address, bool, Bytes)>,)>::abi_decode_sequence(&data[4..]).unwrap();
    legs.iter().map(|leg| leg.2[..4].try_into().unwrap()).collect()
}

#[test]
fn money_never_leaves_from_the_assets_module() {
    let requests = all_requests();
    for forbidden in [
        "tx_sender_module",
        "keystore_module",
        "send_raw_transaction",
        "request_approval",
        "get_transaction_count",
    ] {
        for request in &requests {
            let reads = match request {
                Request::ConfigStatus | Request::ListChains => true,
                Request::InitDefaults => true,
                Request::Call { call, .. } => {
                    let call = json(call);
                    assert_eq!(call.keys().len(), 2, "a read has neither sender nor value");
                    !call.to_text().contains(forbidden)
                }
            };
            assert!(
                reads,
                "assets glue contains forbidden money-moving capability: {forbidden}"
            );
        }
    }
    let balance_of = [0x70, 0xa0, 0x82, 0x31];
    let native_balance = [0x4d, 0x23, 0x01, 0xcc];
    let mut asked = 0;
    for request in &requests {
        if let Request::Call { call, .. } = request {
            for selector in selectors(call) {
                assert!(selector == balance_of || selector == native_balance, "{selector:x?}");
                asked += 1;
            }
        }
    }
    assert_eq!(asked, 3, "native and token balance in one batch, and one token to be sent");
}

#[test]
fn outbound_requests_are_explicitly_bounded() {
    for (unbounded, request, cap) in [
        (".config_status(", Request::ConfigStatus, 1_500_000_000),
        (".init_defaults(", Request::InitDefaults, 3_000_000_000),
        (".list_chain_configs(", Request::ListChains, 3_000_000_000),
        (".call(", Request::Call { chain_id: 1, call: String::new() }, 12_000_000_000),
    ] {
        assert_eq!(
            request.cap(),
            cap,
            "unbounded outbound call: {unbounded}"
        );
    }
    let requests = all_requests();
    assert!(requests.len() >= 4);
    assert!(requests.iter().all(|request| request.cap() <= RPC && RPC < READ));
    for (name, step) in operations(false) {
        let total = if name == "build_transfer" { TRANSFER } else { READ };
        let mut step = step;
        while let Step::Ask { request, pending } = step {
            assert_eq!(pending.total, total, "{name}");
            step = pending.advance(answer(&request));
        }
    }
    let step = on_context_ready(false);
    assert!(matches!(step, Step::Ask { pending, .. } if pending.total == STARTUP));
}

#[test]
fn no_dependency_call_can_hide_under_a_lock() {
    // Two operations that wait at once do not hinder each other, whichever goes on first.
    for first_goes_first in [true, false] {
        let (mut first, mut second) = (list_assets(1, TOKENS, false), list_assets(10, "", false));
        for _ in 0..3 {
            let (Step::Ask { request: a, pending: p }, Step::Ask { request: b, pending: q }) =
                (first, second)
            else {
                panic!("one operation waits for the other");
            };
            if first_goes_first {
                first = p.advance(answer(&a));
                second = q.advance(answer(&b));
            } else {
                second = q.advance(answer(&b));
                first = p.advance(answer(&a));
            }
        }
        assert_eq!(run(first).1, run(list_assets(1, TOKENS, true)).1);
        assert_eq!(run(second).1, run(list_assets(10, "", true)).1);
    }
}

#[test]
fn a_transfer_builds_one_call_and_checks_at_most_one_contract() {
    let (asked, reply, _) = run(build_transfer(1, Ok(token_request("0.000007")), false));
    let calls = asked.iter().filter(|r| matches!(r, Request::Call { .. })).count();
    assert_eq!(calls, 1);
    let reply = json(&reply);
    assert_eq!(reply.get_array("calls").unwrap().len(), 1);
    assert!(reply.to_text().contains("\"calls\":[{"));

    let mut native = token_request("1");
    native.token = None;
    let (asked, reply, _) = run(build_transfer(1, Ok(native), true));
    assert_eq!(asked, [Request::ListChains]);
    assert_eq!(json(&reply).get_array("calls").unwrap().len(), 1);
    assert_eq!(json(&reply).get_str("route"), Some("unknown"));
}

#[test]
fn refusals_are_relayed_as_json_objects() {
    assert_eq!(err(BLOCKED), BLOCKED);
    assert_eq!(err("plain"), r#"{"error":"plain","ok":false}"#);
    assert_eq!(err(r#"{"ok":true}"#), r#"{"error":"{\"ok\":true}","ok":false}"#);
    for (name, step) in operations(true) {
        if name == "decorate_history" {
            continue;
        }
        let (_, reply, _) = run_with(step, |_| Event::Reply(BLOCKED.into()));
        assert_eq!(reply, BLOCKED, "{name}");
    }
    for (name, step) in operations(true) {
        let (_, reply, _) = run_with(step, |request| match request {
            Request::Call { .. } => Event::Reply(BLOCKED.into()),
            other => answer(other),
        });
        if name == "get_balances" || name == "build_transfer" {
            assert_eq!(reply, BLOCKED, "{name}");
        }
    }
}

#[test]
fn only_the_declared_fact_providers_are_called() {
    // Every request is one of the provider's, and whichever fails, the reply names the provider.
    for request in all_requests() {
        assert!(matches!(
            request,
            Request::ConfigStatus
                | Request::InitDefaults
                | Request::ListChains
                | Request::Call { chain_id: 1, .. }
        ));
    }
    let mut clients = Vec::new();
    for failing in ["ListChains", "Call"] {
        for (name, step) in operations(true) {
            let (_, reply, _) = run_with(step, |request| {
                if format!("{request:?}").starts_with(failing) {
                    Event::Failed("down".into())
                } else {
                    answer(request)
                }
            });
            let reply = json(&reply);
            let mut errors: Vec<String> =
                reply.get_str("error").into_iter().map(str::to_string).collect();
            for failure in reply.get_array("decorationErrors").into_iter().flatten() {
                errors.push(failure.get_str("error").unwrap().to_string());
            }
            assert_eq!(errors.is_empty(), failing == "Call"
                && !["get_balances", "build_transfer"].contains(&name), "{name}");
            for error in errors {
                let (client, what) = error.split_once(": ").unwrap();
                assert_eq!(what, "down");
                clients.push(client.to_string());
            }
        }
    }
    clients.sort();
    clients.dedup();
    assert_eq!(clients, ["eth_rpc_module"]);
}

#[test]
fn the_caller_owns_token_membership() {
    let listed = |tokens: &str| {
        let (asked, reply, _) = run(list_assets(1, tokens, true));
        let reply = json(&reply);
        let rows = reply.get_array("tokens").unwrap();
        let symbols: Vec<String> =
            rows.iter().map(|row| row.get_str("symbol").unwrap().to_string()).collect();
        (asked, symbols)
    };
    let (asked_without, none) = listed("");
    let (asked_with, given) = listed(TOKENS);
    assert_eq!(none, ["ETH"]);
    assert_eq!(given, ["ETH", "USDC"]);
    assert_eq!(asked_with, asked_without, "tokens are never asked for");
    assert_eq!(asked_with, [Request::ListChains], "only the chain is asked for");
}

#[test]
fn every_fact_read_retries_unsettled_dependency_initialization() {
    let mut names = Vec::new();
    for (name, step) in operations(false) {
        let (asked, _, settled) = run(step);
        assert_eq!(
            asked[..3],
            [Request::ConfigStatus, Request::InitDefaults, Request::ListChains],
            "{name} does not retry dependency initialization"
        );
        assert!(settled, "{name}");
        names.push(name);
    }
    assert_eq!(
        names,
        ["list_assets", "get_balances", "resolve_asset", "build_transfer", "decorate_history"]
    );

    let (asked, reply, settled) = run(on_context_ready(false));
    assert_eq!(asked, [Request::ConfigStatus, Request::InitDefaults]);
    assert!(settled && reply.is_empty());
}

#[test]
fn a_settled_provider_is_not_asked_again() {
    for (name, step) in operations(true) {
        let (asked, _, settled) = run(step);
        assert_eq!(asked[0], Request::ListChains, "{name}");
        assert!(settled);
    }
    assert!(run(on_context_ready(true)).0.is_empty());
}

#[test]
fn only_explicit_answers_settle_and_nothing_stops_the_read() {
    for (status, init, asks_init, settles) in [
        (Event::Expired, Event::Expired, false, false),
        (Event::Failed("Timeout".into()), Event::Expired, false, false),
        (Event::Reply("not json".into()), Event::Expired, false, false),
        (Event::Reply(r#"{"state":"configured"}"#.into()), Event::Expired, false, true),
        (Event::Reply(r#"{"state":"unconfigured"}"#.into()), Event::Expired, true, false),
        (
            Event::Reply(r#"{"state":"unconfigured"}"#.into()),
            Event::Reply(r#"{"ok":false}"#.into()),
            true,
            false,
        ),
        (
            Event::Reply(r#"{"state":"unconfigured"}"#.into()),
            Event::Reply(r#"{"ok":true,"applied":false}"#.into()),
            true,
            true,
        ),
    ] {
        let (mut status, mut init) = (Some(status), Some(init));
        let (asked, reply, settled) = run_with(list_assets(1, "", false), |request| match request {
            Request::ConfigStatus => status.take().unwrap(),
            Request::InitDefaults => init.take().unwrap(),
            other => answer(other),
        });
        assert_eq!(asked.contains(&Request::InitDefaults), asks_init);
        assert_eq!(settled, settles);
        assert_eq!(json(&reply).get_bool("ok"), Some(true));
    }
}
