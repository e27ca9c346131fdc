use alloy::primitives::{Address as OutsideAddress, Bytes};
use alloy::sol_types::SolValue;
use evm_assets::json::Json;
use evm_assets::provider::{Event, Request};
use evm_assets::replies::{read_balances, read_held};
use evm_assets::service::{
    build_transfer, decorate_history, get_balances, list_assets, resolve_asset, Step,
};
use evm_assets::transfer::TransferRequest;
use evm_assets::uint::U256;

const ACCOUNT: &str = "0x0000000000000000000000000000000000000001";
const TOKENS: &str = r#"[{"address":"0xa0b86991c6218b36c1d19d4a2e9eb0ce3606eb48","symbol":"USDC","decimals":6}]"#;
const CHAINS: &str = r#"{"ok":true,"chains":[
    {"chainId":1,"name":"Ethereum","nativeSymbol":"ETH","nativeDecimals":18,"testnet":false},
    {"chainId":10,"name":"Optimism","nativeSymbol":"OETH","nativeDecimals":18,"testnet":true},
    {"chainId":5,"name":"Nowhere"}]}"#;

fn json(text: &str) -> Json {
    Json::parse(text).unwrap()
}

fn word(n: u8) -> Vec<u8> {
    let mut word = vec![0u8; 32];
    word[31] = n;
    word
}

fn request() -> TransferRequest {
    TransferRequest {
        from: ACCOUNT.into(),
        to: "0x0000000000000000000000000000000000000002".into(),
        amount: Some("7".into()),
        amount_units: None,
        token: Some("USDC".into()),
        token_address: None,
        tokens: json(TOKENS).as_array().unwrap().to_vec(),
        deadline_ms: Some(1_000),
    }
}

/// Runs a settled operation: the registry replies with `chains`, and calls with `result`.
fn run(mut step: Step, chains: &str, result: &str) -> String {
    loop {
        match step {
            Step::Ask { request, pending } => {
                let event = match request {
                    Request::ListChains => Event::Reply(chains.into()),
                    Request::Call { .. } => Event::Reply(result.into()),
                    other => panic!("{other:?}"),
                };
                step = pending.advance(event);
            }
            Step::Done { reply, .. } => return reply,
            Step::Unwritable { .. } => panic!("a row cannot be written to"),
        }
    }
}

fn asked(step: Step) -> (Request, evm_assets::service::Pending) {
    match step {
        Step::Ask { request, pending } => (request, pending),
        other => panic!("{other:?}"),
    }
}

fn refusal(step: Step) -> String {
    match step {
        Step::Done { reply, .. } => {
            let reply = json(&reply);
            assert_eq!(reply.get_bool("ok"), Some(false));
            reply.get_str("error").unwrap().to_string()
        }
        other => panic!("{other:?}"),
    }
}

fn error(reply: &str) -> String {
    json(reply).get_str("error").unwrap().to_string()
}

fn batch(legs: Vec<(bool, Vec<u8>)>) -> String {
    let legs: Vec<(bool, Bytes)> = legs.into_iter().map(|(ok, b)| (ok, Bytes::from(b))).collect();
    format!(
        r#"{{"ok":true,"result":"0x{}","route":"proxied"}}"#,
        hex::encode((legs,).abi_encode_sequence())
    )
}

#[test]
fn refused_requests_ask_nothing() {
    let negative = "chainId must be non-negative";
    assert_eq!(refusal(list_assets(-1, "", true)), negative);
    assert_eq!(refusal(get_balances(-1, ACCOUNT, "", "", true)), negative);
    assert_eq!(refusal(resolve_asset(-1, "ETH", "", true)), negative);
    assert_eq!(refusal(build_transfer(-1, Ok(request()), true)), negative);
    assert_eq!(
        refusal(get_balances(1, ACCOUNT, "", "value", true)),
        "tokenSort must be alpha, balance, or empty"
    );
    let why = refusal(get_balances(1, "0x12", "", "", true));
    let said = "0x12".parse::<OutsideAddress>().unwrap_err().to_string();
    assert_eq!(why, format!("invalid address: {said}"));
    assert_eq!(
        refusal(build_transfer(1, Err("missing field".into()), true)),
        "invalid transfer request: missing field"
    );
    assert!(refusal(decorate_history("nope", "", true)).starts_with("invalid history: "));
    assert_eq!(refusal(decorate_history("[]", "", true)), "history must be a JSON object");
    for step in [
        list_assets(1, "[{}]", true),
        get_balances(1, ACCOUNT, "[{}]", "", true),
        resolve_asset(1, "ETH", "[{}]", true),
        build_transfer(1, Ok(TransferRequest { tokens: vec![Json::Null], ..request() }), true),
    ] {
        match step {
            Step::Done { reply, .. } => assert_eq!(
                reply,
                r#"{"code":"bad_token","error":"tokens[0]: address is missing or invalid","ok":false}"#
            ),
            other => panic!("{other:?}"),
        }
    }
    match decorate_history("{}", r#"{"1":[{}]}"#, true) {
        Step::Done { reply, .. } => assert_eq!(
            reply,
            r#"{"code":"bad_token","error":"tokens[\"1\"][0]: address is missing or invalid","ok":false}"#
        ),
        other => panic!("{other:?}"),
    }
}

#[test]
fn a_list_is_native_first() {
    assert_eq!(
        run(list_assets(1, TOKENS, true), CHAINS, ""),
        r#"{"chainId":1,"ok":true,"tokens":[{"builtin":true,"decimals":18,"enabled":true,"name":"Ethereum","native":true,"source":"native","symbol":"ETH"},{"address":"0xa0b86991c6218b36c1d19d4a2e9eb0ce3606eb48","builtin":false,"decimals":6,"enabled":false,"name":"USDC","native":false,"source":"unknown","symbol":"USDC"}]}"#
    );
}

#[test]
fn missing_metadata_is_reported_never_guessed() {
    assert_eq!(
        error(&run(list_assets(5, "", true), CHAINS, "")),
        "chain 5 has no usable nativeDecimals metadata"
    );
    assert_eq!(
        error(&run(list_assets(7, "", true), CHAINS, "")),
        "chain 7 is not configured"
    );
    assert_eq!(
        error(&run(list_assets(7, "", true), r#"{"ok":true}"#, "")),
        "chain 7 is not configured"
    );
}

#[test]
fn balances_are_read_in_one_batch() {
    let (_, pending) = asked(get_balances(1, ACCOUNT, TOKENS, "balance", true));
    let (request, pending) = asked(pending.advance(Event::Reply(CHAINS.into())));
    let Request::Call { chain_id, call } = request else {
        panic!("no call");
    };
    assert_eq!(chain_id, 1);
    let call = json(&call);
    assert_eq!(call.get_str("to"), Some("0xcA11bde05977b3631167028862bE2a173976CA11"));
    let data = hex::decode(&call.get_str("data").unwrap()[2..]).unwrap();
    let (legs,) =
        <(Vec<(OutsideAddress, bool, Bytes)>,)>::abi_decode_sequence(&data[4..]).unwrap();
    assert_eq!(legs.len(), 2);
    assert_eq!(legs[0].2[..4], [0x4d, 0x23, 0x01, 0xcc]);
    assert_eq!(legs[1].0.to_string(), "0xA0b86991c6218b36c1d19D4a2e9Eb0cE3606eB48");
    assert_eq!(legs[1].2[..4], [0x70, 0xa0, 0x82, 0x31]);
    assert!(legs.iter().all(|leg| leg.1));

    let reply = batch(vec![(true, word(3)), (false, vec![])]);
    let Step::Done { reply, .. } = pending.advance(Event::Reply(reply)) else {
        panic!("no reply");
    };
    let reply = json(&reply);
    assert_eq!(reply.get_str("address"), Some(ACCOUNT));
    assert_eq!(reply.get_str("tokenSort"), Some("balance"));
    assert_eq!(reply.get_str("route"), Some("proxied"));
    let rows = reply.get_array("balances").unwrap();
    assert_eq!(rows[0].get_str("raw"), Some("3"));
    assert_eq!(rows[1].get_str("raw"), Some(""));
    assert!(rows[1].get("exact").is_none());
}

#[test]
fn an_undecodable_batch_is_refused() {
    for result in [r#"{"ok":true}"#, r#"{"ok":true,"result":"0xzz"}"#, r#"{"ok":true,"result":"0x12"}"#]
    {
        assert_eq!(
            error(&run(get_balances(1, ACCOUNT, "", "", true), CHAINS, result)),
            "could not decode the Multicall3 response"
        );
    }
    assert!(read_balances(&Json::text("0x")).is_err());
}

#[test]
fn one_asset_is_resolved() {
    let reply = json(&run(resolve_asset(10, "oeth", TOKENS, true), CHAINS, ""));
    assert_eq!(reply.get("asset").unwrap().get_bool("native"), Some(true));
    assert!(reply.get("asset").unwrap().get("chainId").is_none());
    assert_eq!(
        error(&run(resolve_asset(10, "DAI", TOKENS, true), CHAINS, "")),
        "asset 'DAI' is not offered"
    );
}

#[test]
fn a_token_transfer_is_checked_and_built() {
    let (_, pending) = asked(build_transfer(1, Ok(request()), true));
    assert_eq!(pending.total, 1_000_000_000);
    let (request, pending) = asked(pending.advance(Event::Reply(CHAINS.into())));
    assert_eq!(
        request,
        Request::Call {
            chain_id: 1,
            call: r#"{"data":"0x70a082310000000000000000000000000000000000000000000000000000000000000001","to":"0xA0b86991c6218b36c1d19D4a2e9Eb0cE3606eB48"}"#.into(),
        }
    );
    let held = format!(r#"{{"ok":true,"result":"0x{}","route":"verified"}}"#, hex::encode(word(7)));
    let Step::Done { reply, .. } = pending.advance(Event::Reply(held)) else {
        panic!("no reply");
    };
    let reply = json(&reply);
    assert_eq!(reply.get_bool("ok"), Some(true));
    assert_eq!(reply.get_str("amount"), Some("7"));
    assert_eq!(reply.get_str("amountDisplay"), Some("<0.00001"));
    assert_eq!(reply.get_str("amountExact"), Some("0.000007"));
    assert_eq!(reply.get_str("nativeSymbol"), Some("ETH"));
    assert_eq!(
        reply.get_str("tokenAddress"),
        Some("0xa0b86991c6218b36c1d19d4a2e9eb0ce3606eb48")
    );
    assert_eq!(reply.get_str("route"), Some("verified"));
    assert_eq!(
        reply.get_str("purpose"),
        Some(
            "Send 0.000007 USDC from 0x0000000000000000000000000000000000000001 to \
             0x0000000000000000000000000000000000000002"
        )
    );
}

#[test]
fn a_token_transfer_beyond_what_is_held_is_refused() {
    let held = format!(r#"{{"ok":true,"result":"0x{}"}}"#, hex::encode(word(6)));
    assert_eq!(
        error(&run(build_transfer(1, Ok(request()), true), CHAINS, &held)),
        "cannot send 0.000007 USDC; the account holds 0.000006 USDC"
    );
    assert_eq!(
        error(&run(build_transfer(1, Ok(request()), true), CHAINS, r#"{"ok":true,"result":7}"#)),
        "eth_call returned no decodable token balance"
    );
    assert_eq!(
        error(&run(build_transfer(1, Ok(request()), true), CHAINS, r#"{"ok":true,"result":"0x07"}"#)),
        "token balance response was shorter than uint256"
    );
    assert_eq!(read_held(&Json::Text(format!("0x0x{}", hex::encode(word(9))))), Ok(U256::from(9)));
}

#[test]
fn failures_of_the_provider_are_named() {
    let (_, pending) = asked(list_assets(1, "", true));
    assert_eq!(
        refusal(pending.advance(Event::Expired)),
        "no time left to read chain metadata"
    );
    let (_, pending) = asked(list_assets(1, "", true));
    assert_eq!(
        refusal(pending.advance(Event::Failed("Timeout".into()))),
        "eth_rpc_module: Timeout"
    );
    let (_, pending) = asked(get_balances(1, ACCOUNT, "", "", true));
    let (_, pending) = asked(pending.advance(Event::Reply(CHAINS.into())));
    assert_eq!(refusal(pending.advance(Event::Expired)), "no time left for the RPC read");
    let (_, pending) = asked(list_assets(1, "", true));
    assert!(refusal(pending.advance(Event::Reply("nonsense".into()))).contains("line 1"));
}

#[test]
fn each_row_is_decorated_with_its_own_chain() {
    let transfers = r#"[{"contract":"0xA0b86991c6218b36c1d19D4a2e9Eb0cE3606eB48","amount":"5"}]"#;
    let history = format!(
        r#"{{"transactions":[{{"chainId":1,"transfers":{transfers}}},
            {{"chainId":10,"transfers":{transfers},"nativeTransfers":[{{"amount":"1"}}]}},
            {{"chainId":7,"transfers":{transfers}}}, {{"note":1}}, "odd"]}}"#
    );
    let tokens = format!(r#"{{"1":{TOKENS}}}"#);
    let reply = json(&run(decorate_history(&history, &tokens, true), CHAINS, ""));
    let rows = reply.get_array("transactions").unwrap();
    assert_eq!(rows.len(), 5);
    assert_eq!(rows[0].get_str("network"), Some("Ethereum"));
    assert_eq!(rows[0].get_array("transfers").unwrap()[0].get_str("symbol"), Some("USDC"));
    assert_eq!(rows[1].get_array("transfers").unwrap()[0].get_bool("known"), Some(false));
    assert_eq!(rows[1].get_array("nativeTransfers").unwrap()[0].get_str("symbol"), Some("OETH"));
    assert_eq!(rows[1].get_bool("testnet"), Some(true));
    assert_eq!(rows[2].to_text(), json(&history).get_array("transactions").unwrap()[2].to_text());
    assert_eq!(rows[3].to_text(), r#"{"note":1}"#);
    assert_eq!(rows[4].as_str(), Some("odd"));
    let failures = reply.get_array("decorationErrors").unwrap();
    assert_eq!(failures.len(), 1);
    assert_eq!(failures[0].to_text(), r#"{"chainId":7,"error":"chain 7 is not configured"}"#);
}

#[test]
fn each_chain_is_asked_for_once() {
    let history = r#"{"transactions":[{"chainId":1},{"chainId":10},{"chainId":1}]}"#;
    let mut step = decorate_history(history, "", true);
    let mut count = 0;
    while let Step::Ask { request, pending } = step {
        assert_eq!(request, Request::ListChains);
        count += 1;
        step = pending.advance(Event::Reply(CHAINS.into()));
    }
    assert_eq!(count, 2);
    let empty = run(decorate_history(r#"{"other":true}"#, "", true), CHAINS, "");
    assert_eq!(empty, r#"{"other":true}"#);
}

#[test]
fn a_row_that_cannot_be_written_to_has_no_reply() {
    let history = r#"{"transactions":[{"chainId":1,"transfers":["odd"]}]}"#;
    let (_, pending) = asked(decorate_history(history, "", true));
    assert!(matches!(
        pending.advance(Event::Reply(CHAINS.into())),
        Step::Unwritable { settled: true }
    ));
    let (_, pending) = asked(decorate_history(history, "", true));
    let Step::Done { reply, .. } = pending.advance(Event::Expired) else {
        panic!("the rows of a chain that cannot be read stay as they are");
    };
    assert_eq!(
        json(&reply).get_array("transactions").unwrap()[0],
        json(r#"{"chainId":1,"transfers":["odd"]}"#)
    );
}

#[test]
fn each_failed_chain_is_reported_once_in_the_order_of_its_first_row() {
    let history = r#"{"transactions":[{"chainId":7},{"chainId":1},{"chainId":5},{"chainId":7},
        {"chainId":8},{"chainId":5}]}"#;
    let reply = json(&run(decorate_history(history, "", true), CHAINS, ""));
    let failures = reply.get_array("decorationErrors").unwrap();
    let chains: Vec<u64> = failures.iter().map(|f| f.get_u64("chainId").unwrap()).collect();
    assert_eq!(chains, [7, 5, 8]);
    assert_eq!(
        failures[1].get_str("error"),
        Some("chain 5 has no usable nativeDecimals metadata")
    );
    let rows = reply.get_array("transactions").unwrap();
    assert_eq!(rows.len(), 6);
    assert_eq!(rows[1].get_str("network"), Some("Ethereum"));
}

#[test]
fn a_refused_request_is_answered_with_its_reason() {
    let quoted = "asset '\"}{' is not offered";
    let reply = run(resolve_asset(1, "\"}{", "", true), CHAINS, "");
    assert_eq!(json(&reply).get_str("error"), Some(quoted));
    assert_eq!(json(&reply).get_bool("ok"), Some(false));
}

#[test]
fn a_decorated_history_stays_as_it_is() {
    let history = r#"{"transactions":[{"chainId":1,"nativeTransfers":[{"amount":"5"}],
        "transfers":[{"contract":"0xA0b86991c6218b36c1d19D4a2e9Eb0cE3606eB48","amount":"5"}]},
        {"chainId":7},{"note":1}]}"#;
    let tokens = format!(r#"{{"1":{TOKENS}}}"#);
    let once = run(decorate_history(history, &tokens, true), CHAINS, "");
    assert_eq!(run(decorate_history(&once, &tokens, true), CHAINS, ""), once);
}

#[test]
fn a_refusal_with_floats_is_relayed_with_all_it_says() {
    let refusal = r#"{"code":"verified_blocked","lag":[0.1,1.7976931348623157e308],"ok":false,"tries":3}"#;
    let (_, pending) = asked(list_assets(1, "", true));
    let Step::Done { reply, .. } = pending.advance(Event::Reply(refusal.into())) else {
        panic!("no reply");
    };
    let reply = json(&reply);
    assert_eq!(reply.get_bool("ok"), Some(false));
    assert_eq!(reply.get_str("code"), Some("verified_blocked"));
    assert_eq!(reply.get_u64("tries"), Some(3));
    let lag = reply.get_array("lag").unwrap();
    assert_eq!(lag.len(), 2);
    assert!(lag.iter().all(|n| matches!(n, Json::Float(_))));
    assert_eq!(reply.keys().len(), 4);
}
