use evm_assets::assets::{parse_tokens_by_chain, Asset};
use evm_assets::json::Json;
use evm_assets::rows::{
    decorate_history, decorate_history_networks, decorate_row, is_decoratable, is_networkable,
};

fn json(text: &str) -> Json {
    Json::parse(text).unwrap()
}

fn item<'a>(value: &'a Json, key: &str, index: usize) -> &'a Json {
    &value.get_array(key).unwrap()[index]
}

fn weth() -> Asset {
    Asset {
        chain_id: 1,
        symbol: "WETH".into(),
        name: "Wrapped Ether".into(),
        decimals: 18,
        address: Some("0xC02aaA39b223FE8D0A0e5C4F27eAD9083C756Cc2".into()),
        native: false,
        builtin: true,
        enabled: true,
        source: "builtin".into(),
        logo_uri: None,
        symbol_unknown: false,
    }
}

#[test]
fn an_erc20_send_is_read_back_as_a_transfer() {
    let mut row = json(
        r#"{"kind":"call","to":"0xC02aaA39b223FE8D0A0e5C4F27eAD9083C756Cc2",
        "txTo":"0xc02aaa39b223fe8d0a0e5c4f27ead9083c756cc2","value":"0","totalWei":"7",
        "meta":{"kind":"erc20","token":"0xc02aaa39b223fe8d0a0e5c4f27ead9083c756cc2",
                "recipient":"0x0000000000000000000000000000000000000002","amount":"1000000000000000000",
                "tokenSymbol":"WETH","tokenDecimals":18}}"#,
    );
    decorate_row(&mut row, &[weth()]);
    assert_eq!(row.get_str("kind"), Some("erc20"));
    assert_eq!(row.get_str("valueExact"), Some("1"));
    assert!(row.get("totalWei").is_none());
    assert_eq!(row.get_str("token"), Some("0xC02aaA39b223FE8D0A0e5C4F27eAD9083C756Cc2"));
    assert_eq!(row.get_str("to"), Some("0x0000000000000000000000000000000000000002"));
    assert_eq!(row.get_str("value"), Some("1000000000000000000"));
    assert_eq!(row.get_u64("valueDecimals"), Some(18));
    assert_eq!(row.get_bool("interactedWithDiffers"), Some(true));
    assert_eq!(row.get_str("interactedWithSymbol"), Some("WETH"));
}

#[test]
fn receipt_transfers_use_the_offered_contract_table() {
    let mut row = json(
        r#"{"transfers":[{"contract":"0xc02aaa39b223fe8d0a0e5c4f27ead9083c756cc2","amount":"1"}]}"#,
    );
    decorate_row(&mut row, &[weth()]);
    assert_eq!(item(&row, "transfers", 0).get_str("symbol"), Some("WETH"));
    assert_eq!(item(&row, "transfers", 0).get_bool("known"), Some(true));
}

fn ether() -> Asset {
    Asset {
        chain_id: 1,
        symbol: "ETH".into(),
        name: "Ether".into(),
        decimals: 18,
        address: None,
        native: true,
        builtin: true,
        enabled: true,
        source: "native".into(),
        logo_uri: None,
        symbol_unknown: false,
    }
}

/// EIP-7708: the system address logs ether with the ERC-20 Transfer topic. However a sender or a
/// token list presents it, it is never decorated, looked up or named as a token.
#[test]
fn a_system_emitted_transfer_is_never_a_token() {
    let system = "0xfffffffffffffffffffffffffffffffffffffffe";
    let fake = Asset {
        symbol: "FAKE".into(),
        address: Some(system.to_uppercase().replace("0X", "0x")),
        ..weth()
    };
    let mut row = json(&format!(
        r#"{{"txTo":"{system}","to":"{system}","transfers":[
        {{"contract":"{system}","amount":"5"}},
        {{"contract":"0xc02aaa39b223fe8d0a0e5c4f27ead9083c756cc2","amount":"1"}}]}}"#
    ));
    decorate_row(&mut row, &[weth(), fake.clone()]);
    let transfers = row.get_array("transfers").unwrap();
    assert_eq!(transfers.len(), 1, "{row:?}");
    assert_eq!(transfers[0].get_str("symbol"), Some("WETH"));
    assert!(row.get("interactedWithSymbol").is_none(), "no token lives at the system address");

    let mut only = json(&format!(r#"{{"transfers":[{{"contract":"{system}","amount":"5"}}]}}"#));
    decorate_row(&mut only, &[fake]);
    assert!(only.get("transfers").is_none(), "no token moved, so no token list: {only:?}");
}

#[test]
fn ether_transfers_are_priced_in_the_chains_native_asset() {
    let mut row = json(r#"{"nativeTransfers":[{"amount":"500000000000000000"}]}"#);
    decorate_row(&mut row, &[ether(), weth()]);
    let entry = item(&row, "nativeTransfers", 0);
    assert_eq!((entry.get_str("symbol"), entry.get_u64("decimals")), (Some("ETH"), Some(18)));
    assert_eq!(entry.get_str("amountDisplay"), Some("0.5"));
    assert!(entry.get("known").is_none(), "ether is not looked up in a token table");

    let nameless = Asset { symbol: String::new(), symbol_unknown: true, ..ether() };
    let mut row = json(r#"{"nativeTransfers":[{"amount":"5"}]}"#);
    decorate_row(&mut row, &[nameless]);
    assert_eq!(item(&row, "nativeTransfers", 0), &json(r#"{"amount":"5"}"#), "no unit, so no figure");
}

#[test]
fn each_history_row_uses_its_own_chain() {
    let mut history = json(r#"{"transactions":[{"chainId":1},{"chainId":10}]}"#);
    let mut seen = Vec::new();
    decorate_history(&mut history, |chain| {
        seen.push(chain);
        Vec::new()
    });
    assert_eq!(seen, [1, 10]);
}

#[test]
fn tokens_decorate_only_the_chain_they_are_given_for() {
    let given = format!(
        r#"{{"1":[{{"address":"{}","symbol":"WETH","decimals":18}}]}}"#,
        weth().address.unwrap()
    );
    let tokens = parse_tokens_by_chain(&given).unwrap();
    let transfers = r#"[{"contract":"0xc02aaa39b223fe8d0a0e5c4f27ead9083c756cc2","amount":"1"}]"#;
    let mut history = json(&format!(
        r#"{{"transactions":[{{"chainId":1,"transfers":{transfers}}},
                             {{"chainId":10,"transfers":{transfers}}}]}}"#
    ));
    decorate_history(&mut history, |chain| {
        tokens.get(&chain).cloned().unwrap_or_default()
    });
    let first = item(&history, "transactions", 0);
    let second = item(&history, "transactions", 1);
    assert_eq!(item(first, "transfers", 0).get_str("symbol"), Some("WETH"));
    assert_eq!(item(second, "transfers", 0).get_bool("known"), Some(false));
}

#[test]
fn history_rows_receive_chain_display_metadata() {
    let mut history = json(r#"{"transactions":[{"chainId":1}]}"#);
    decorate_history_networks(&mut history, |chain| {
        if chain == 1 {
            Some(json(r#"{"name":"Ethereum","nativeSymbol":"ETH","testnet":false}"#))
        } else {
            None
        }
    });
    let row = item(&history, "transactions", 0);
    assert_eq!(row.get_str("network"), Some("Ethereum"));
    assert_eq!(row.get_str("nativeSymbol"), Some("ETH"));
    assert_eq!(row.get_bool("testnet"), Some(false));
}

#[test]
fn rows_of_one_chain_are_asked_for_once() {
    let mut history = json(
        r#"{"transactions":[{"chainId":1},{"chainId":1},{},{"chainId":1}]}"#,
    );
    let mut seen = Vec::new();
    decorate_history(&mut history, |chain| {
        seen.push(chain);
        Vec::new()
    });
    assert_eq!(seen, [1, 0, 1]);
}

#[test]
fn decoration_keeps_whatever_else_a_row_says() {
    let text = r#"{"chainId":1,"hash":"0x01","note":{"a":[1,2.5,null]},"status":"ok"}"#;
    let mut row = json(text);
    decorate_row(&mut row, &[ether(), weth()]);
    assert_eq!(row.to_text(), text);
}

#[test]
fn a_send_without_its_facts_is_not_guessed() {
    let mut row = json(r#"{"meta":{"kind":"erc20","amount":"5","token":"weird","tokenSymbol":""}}"#);
    decorate_row(&mut row, &[]);
    assert_eq!(row.get_str("token"), Some("weird"));
    assert!(row.get("value").is_none() && row.get("tokenSymbol").is_none());
    let mut native = json(r#"{"meta":{"kind":"native"},"totalWei":"7"}"#);
    decorate_row(&mut native, &[]);
    assert_eq!(native.get_str("totalWei"), Some("7"));
}

#[test]
fn an_interaction_with_the_recipient_does_not_differ() {
    let mut row = json(
        r#"{"txTo":"0xC02AAA39B223FE8D0A0E5C4F27EAD9083C756CC2",
            "to":"0xC02aaA39b223FE8D0A0e5C4F27eAD9083C756Cc2"}"#,
    );
    decorate_row(&mut row, &[]);
    assert_eq!(row.get_bool("interactedWithDiffers"), Some(false));
    assert!(row.get("interactedWithSymbol").is_none());
}

#[test]
fn unknown_contracts_are_known_to_be_unknown() {
    let mut row = json(r#"{"transfers":[{"amount":"5"},null]}"#);
    decorate_row(&mut row, &[weth()]);
    assert_eq!(row.to_text(), r#"{"transfers":[{"amount":"5","known":false},{"known":false}]}"#);
    let mut empty = json(r#"{"transfers":[]}"#);
    decorate_row(&mut empty, &[weth()]);
    assert_eq!(empty.to_text(), "{}");
}

#[test]
fn what_cannot_be_written_to_is_told_beforehand() {
    assert!(!is_decoratable(&json(r#"{"transfers":["x"]}"#), &[]));
    assert!(is_decoratable(&json(r#"{"nativeTransfers":["x"]}"#), &[weth()]));
    assert!(!is_decoratable(&json(r#"{"nativeTransfers":["x"]}"#), &[ether()]));
    assert!(is_decoratable(&json(r#""x""#), &[ether()]));
    assert!(!is_networkable(&json("1"), &Some(json(r#"{"name":"Ethereum"}"#))));
    assert!(is_networkable(&json("1"), &Some(json(r#"{"id":1}"#))));
    assert!(is_networkable(&json("1"), &None));
    assert!(is_networkable(&json("null"), &Some(json(r#"{"name":"Ethereum"}"#))));
}

#[test]
fn a_history_without_transactions_stays_as_it_is() {
    let mut history = json(r#"{"transactions":{}}"#);
    decorate_history(&mut history, |_| Vec::new());
    decorate_history_networks(&mut history, |_| None);
    assert_eq!(history.to_text(), r#"{"transactions":{}}"#);
}

#[test]
fn decorating_twice_is_decorating_once() {
    for text in [
        r#"{"kind":"call","to":"0x00","txTo":"0xc02aaa39b223fe8d0a0e5c4f27ead9083c756cc2","totalWei":"7",
            "meta":{"kind":"erc20","token":"0xc02aaa39b223fe8d0a0e5c4f27ead9083c756cc2",
                    "recipient":"0x0000000000000000000000000000000000000002","amount":"15",
                    "tokenSymbol":"WETH","tokenDecimals":18}}"#,
        r#"{"transfers":[{"contract":"0xc02aaa39b223fe8d0a0e5c4f27ead9083c756cc2","amount":"1"},
                         {"contract":"0xfffffffffffffffffffffffffffffffffffffffe","amount":"1"},null],
            "nativeTransfers":[{"amount":"5"},{},null]}"#,
        r#"{"transfers":[{"contract":"0xfffffffffffffffffffffffffffffffffffffffe"}]}"#,
        r#"{"note":1}"#,
        r#""text""#,
    ] {
        let mut once = json(text);
        decorate_row(&mut once, &[ether(), weth()]);
        let mut twice = once.clone();
        decorate_row(&mut twice, &[ether(), weth()]);
        assert_eq!(twice.to_text(), once.to_text());
    }
}
