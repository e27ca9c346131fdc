use evm_assets::assets::{
    balance_rows, parse_tokens, parse_tokens_by_chain, resolve, tokens, Asset, TokenSort,
};
use evm_assets::json::Json;
use evm_assets::uint::U256;
use evm_assets::units::format_exact;

fn token(symbol: &str, address: &str) -> Asset {
    Asset {
        chain_id: 1,
        symbol: symbol.into(),
        name: symbol.into(),
        decimals: 18,
        address: Some(address.into()),
        native: false,
        builtin: false,
        enabled: true,
        source: "enabled".into(),
        logo_uri: None,
        symbol_unknown: false,
    }
}

fn json(text: &str) -> Json {
    Json::parse(text).unwrap()
}

fn symbols(rows: &[Json]) -> Vec<String> {
    rows.iter().map(|row| row.get_str("symbol").unwrap().to_string()).collect()
}

#[test]
fn an_address_is_an_unambiguous_identity() {
    let rows = [
        token("LIT", "0x0000000000000000000000000000000000000001"),
        token("LIT", "0x0000000000000000000000000000000000000002"),
    ];
    assert!(resolve(&rows, "LIT").is_err());
    assert_eq!(
        resolve(&rows, "0x0000000000000000000000000000000000000002").unwrap(),
        rows[1]
    );
}

#[test]
fn the_native_symbol_wins_a_collision() {
    let mut native = token("ETH", "0x0000000000000000000000000000000000000001");
    native.native = true;
    native.address = None;
    assert!(
        resolve(
            &[
                native.clone(),
                token("ETH", "0x0000000000000000000000000000000000000002")
            ],
            "ETH"
        )
        .unwrap()
        .native
    );
}

#[test]
fn balance_rows_keep_native_first() {
    let mut native = token("ETH", "0x0000000000000000000000000000000000000001");
    native.native = true;
    native.address = None;
    let rows = balance_rows(
        &[
            token("ZERO", "0x0000000000000000000000000000000000000002"),
            native,
        ],
        &[Some(U256::zero()), Some(U256::from(1))],
        TokenSort::Balance,
    );
    assert_eq!(rows[0].get_str("symbol"), Some("ETH"));
}

#[test]
fn unread_is_not_zero() {
    let rows = balance_rows(
        &[token("T", "0x0000000000000000000000000000000000000001")],
        &[None],
        TokenSort::Alpha,
    );
    assert_eq!(rows[0].get_str("raw"), Some(""));
    assert!(rows[0].get("display").is_none());
}

#[test]
fn unknown_sort_is_refused() {
    assert_eq!(TokenSort::parse("alpha"), Some(TokenSort::Alpha));
    assert_eq!(TokenSort::parse("balance"), Some(TokenSort::Balance));
    assert_eq!(TokenSort::parse("value"), None);
}

#[test]
fn sort_names_are_trimmed_and_folded() {
    assert_eq!(TokenSort::parse(""), Some(TokenSort::Alpha));
    assert_eq!(TokenSort::parse("  BaLaNce\t"), Some(TokenSort::Balance));
    assert_eq!(TokenSort::Alpha.as_str(), "alpha");
    assert_eq!(TokenSort::Balance.as_str(), "balance");
    assert_eq!(TokenSort::default(), TokenSort::Alpha);
}

#[test]
fn resolution_says_why_it_fails() {
    let rows = [
        token("LIT", "0x0000000000000000000000000000000000000001"),
        token("lit", "0x0000000000000000000000000000000000000002"),
    ];
    assert_eq!(resolve(&rows, "  ").unwrap_err(), "no asset was named");
    assert_eq!(resolve(&rows, "ETH").unwrap_err(), "asset 'ETH' is not offered");
    assert_eq!(
        resolve(&rows, "0x0000000000000000000000000000000000000003").unwrap_err(),
        "no offered token exists at 0x0000000000000000000000000000000000000003"
    );
    assert_eq!(
        resolve(&rows, "Lit").unwrap_err(),
        "'Lit' names 2 offered contracts (0x0000000000000000000000000000000000000001, \
         0x0000000000000000000000000000000000000002); use an address"
    );
    assert_eq!(resolve(&rows[..1], "lIt").unwrap(), rows[0]);
}

#[test]
fn an_ambiguous_symbol_is_refused_beside_a_native_asset() {
    let mut native = token("ETH", "");
    native.native = true;
    native.address = None;
    let rows = [
        native,
        token("LIT", "0x0000000000000000000000000000000000000001"),
        token("LIT", "0x0000000000000000000000000000000000000002"),
    ];
    assert!(resolve(&rows, "lit").unwrap_err().ends_with("; use an address"));
    assert!(resolve(&rows, "eth").unwrap().native);
}

#[test]
fn a_chain_record_gives_the_native_asset() {
    let record = json(r#"{"chainId":10,"name":"Optimism","nativeSymbol":"ETH","nativeDecimals":18}"#);
    let asset = Asset::from_chain(&record).unwrap();
    assert!(asset.native && asset.builtin && asset.enabled && !asset.symbol_unknown);
    assert_eq!((asset.chain_id, asset.decimals), (10, 18));
    assert_eq!((asset.name.as_str(), asset.source.as_str()), ("Optimism", "native"));

    let nameless = Asset::from_chain(&json(r#"{"chainId":10,"nativeDecimals":18}"#)).unwrap();
    assert!(nameless.symbol_unknown);
    assert_eq!(
        Asset::from_chain(&json(r#"{"nativeDecimals":18}"#)).unwrap_err(),
        "chain record has no chainId"
    );
    assert_eq!(
        Asset::from_chain(&json(r#"{"chainId":10,"nativeDecimals":256}"#)).unwrap_err(),
        "chain 10 has no usable nativeDecimals metadata"
    );
}

#[test]
fn a_token_row_is_trimmed_and_defaulted() {
    let row = json(
        r#"{"address":" 0x00000000000000000000000000000000000000aB ","symbol":" LIT ","decimals":6}"#,
    );
    let asset = Asset::from_token_row(5, &row).unwrap();
    assert_eq!(asset.address.as_deref(), Some("0x00000000000000000000000000000000000000aB"));
    assert_eq!((asset.symbol.as_str(), asset.name.as_str()), ("LIT", "LIT"));
    assert_eq!(asset.source, "unknown");
    assert!(!asset.builtin && !asset.enabled && !asset.native);
    for bad in [
        r#"{"symbol":"LIT","decimals":6}"#,
        r#"{"address":"0x12","symbol":"LIT","decimals":6}"#,
        r#"{"address":"0x0000000000000000000000000000000000000000","symbol":"Z","decimals":18}"#,
        r#"{"address":"0x00000000000000000000000000000000000000ab","symbol":" ","decimals":6}"#,
        r#"{"address":"0x00000000000000000000000000000000000000ab","symbol":"LIT"}"#,
        r#"{"address":"0x00000000000000000000000000000000000000ab","symbol":"LIT","decimals":256}"#,
        r#"{"address":"0x00000000000000000000000000000000000000ab","symbol":"LIT","decimals":-1}"#,
        r#"{"address":"0x00000000000000000000000000000000000000ab","symbol":"LIT","decimals":6.5}"#,
    ] {
        assert!(Asset::from_token_row(5, &json(bad)).is_none(), "{bad}");
    }
}

#[test]
fn rows_by_balance_are_ranked_by_what_they_hold() {
    let offered = [
        token("small", "0x0000000000000000000000000000000000000001"),
        token("empty", "0x0000000000000000000000000000000000000002"),
        token("large", "0x0000000000000000000000000000000000000003"),
        token("Also", "0x0000000000000000000000000000000000000004"),
    ];
    let raw = [Some(U256::from(5)), Some(U256::zero()), Some(U256::from(50)), None];
    let rows = balance_rows(&offered, &raw, TokenSort::Balance);
    assert_eq!(symbols(&rows), ["large", "small", "Also", "empty"]);
    let rows = balance_rows(&offered, &raw, TokenSort::Alpha);
    assert_eq!(symbols(&rows), ["Also", "empty", "large", "small"]);
}

#[test]
fn unread_balances_are_placed_among_the_empty_ones() {
    assert_eq!(
        alloy::primitives::U256::from_str_radix("", 10),
        Ok(alloy::primitives::U256::ZERO)
    );
    let offered = [
        token("unread", "0x0000000000000000000000000000000000000001"),
        token("empty", "0x0000000000000000000000000000000000000002"),
        token("zero", "0x0000000000000000000000000000000000000003"),
    ];
    let raw = [None, Some(U256::zero()), Some(U256::zero())];
    let rows = balance_rows(&offered, &raw, TokenSort::Balance);
    assert_eq!(symbols(&rows), ["empty", "unread", "zero"]);
}

#[test]
fn equal_places_keep_their_order() {
    let mut first = token("T", "0x0000000000000000000000000000000000000001");
    first.name = "first".into();
    let mut second = token("t", "0x0000000000000000000000000000000000000001");
    second.name = "second".into();
    let rows = balance_rows(&[second, first], &[], TokenSort::Alpha);
    assert_eq!(rows[0].get_str("name"), Some("second"));
    assert_eq!(rows[1].get_str("name"), Some("first"));
}

#[test]
fn a_balance_row_has_every_form_of_the_amount() {
    let mut asset = token("USDC", "0x0000000000000000000000000000000000000001");
    asset.decimals = 6;
    asset.logo_uri = Some("https://logo".into());
    let rows = balance_rows(&[asset], &[Some(U256::from(1_234_567))], TokenSort::Alpha);
    assert_eq!(
        rows[0].to_text(),
        r#"{"address":"0x0000000000000000000000000000000000000001","amountDisplay":"1.23456","amountExact":"1.234567","builtin":false,"decimals":6,"display":"1.23456","exact":"1.234567","name":"USDC","native":false,"raw":"1234567","symbol":"USDC"}"#
    );
}

#[test]
fn every_read_balance_is_rendered_whatever_its_decimals() {
    let most = U256 { w0: u64::MAX, w1: u64::MAX, w2: u64::MAX, w3: u64::MAX };
    for decimals in [0u8, 5, 6, 77, 82, 83, 84, 255] {
        for amount in [U256::zero(), U256::from(1), most] {
            let mut asset = token("T", "0x0000000000000000000000000000000000000001");
            asset.decimals = decimals;
            let rows = balance_rows(&[asset], &[Some(amount)], TokenSort::Balance);
            let raw = amount.to_decimal();
            assert_eq!(rows[0].get_str("raw"), Some(raw.as_str()));
            assert_eq!(
                rows[0].get_str("exact"),
                format_exact(&raw, decimals).as_deref(),
                "{decimals}"
            );
            let display = rows[0].get_str("display").unwrap();
            assert_eq!(display == "0", amount.is_zero(), "{decimals}");
            if decimals >= 83 && !amount.is_zero() {
                assert_eq!(display, "<0.00001");
            }
        }
    }
}

#[test]
fn an_asset_row_leaves_out_what_is_not_there() {
    let mut asset = token("T", "0x0000000000000000000000000000000000000001");
    asset.address = None;
    assert_eq!(
        asset.to_json().to_text(),
        r#"{"builtin":false,"chainId":1,"decimals":18,"enabled":true,"name":"T","native":false,"source":"enabled","symbol":"T"}"#
    );
    asset.symbol_unknown = true;
    asset.logo_uri = Some("x".into());
    let row = asset.to_json();
    assert_eq!(row.get_bool("symbolUnknown"), Some(true));
    assert_eq!(row.get_str("logoURI"), Some("x"));
}

#[test]
fn an_empty_text_gives_no_tokens() {
    assert_eq!(parse_tokens(1, "").unwrap(), []);
    assert_eq!(parse_tokens(1, "[]").unwrap(), []);
    assert!(parse_tokens_by_chain("").unwrap().is_empty());
    assert!(parse_tokens_by_chain("{}").unwrap().is_empty());
}

#[test]
fn a_bad_descriptor_is_refused_by_its_place() {
    let good = r#"{"address":"0x00000000000000000000000000000000000000ab","symbol":"A","decimals":6}"#;
    for (bad, why) in [
        (r#"{"symbol":"A","decimals":6}"#, "address is missing or invalid"),
        (r#"{"address":"0xzz","symbol":"A","decimals":6}"#, "address is missing or invalid"),
        (
            r#"{"address":"0x0000000000000000000000000000000000000000","symbol":"A","decimals":6}"#,
            "address is zero",
        ),
        (
            r#"{"address":"0x00000000000000000000000000000000000000ac","symbol":" ","decimals":6}"#,
            "symbol is missing or empty",
        ),
        (
            r#"{"address":"0x00000000000000000000000000000000000000ac","symbol":"A"}"#,
            "decimals are missing or out of range",
        ),
        (
            r#"{"address":"0x00000000000000000000000000000000000000ac","symbol":"A","decimals":256}"#,
            "decimals are missing or out of range",
        ),
    ] {
        let error = parse_tokens(1, &format!("[{good},{bad}]")).unwrap_err();
        assert_eq!(
            error,
            format!(r#"{{"code":"bad_token","error":"tokens[1]: {why}","ok":false}}"#)
        );
        let error = parse_tokens_by_chain(&format!(r#"{{"10":[{bad}]}}"#)).unwrap_err();
        let refusal = json(&error);
        assert_eq!(refusal.get_str("code"), Some("bad_token"));
        assert_eq!(
            refusal.get_str("error"),
            Some(format!(r#"tokens["10"][0]: {why}"#).as_str())
        );
    }
}

#[test]
fn a_repeated_address_keeps_its_first_occurrence() {
    let list = json(
        r#"[{"address":"0x00000000000000000000000000000000000000ab","symbol":"A","decimals":6},
            {"address":"0x00000000000000000000000000000000000000cd","symbol":"B","decimals":6},
            {"address":"00000000000000000000000000000000000000AB","symbol":"C","decimals":8}]"#,
    );
    let given = tokens(1, list.as_array().unwrap()).unwrap();
    assert_eq!(given.len(), 2);
    assert_eq!((given[0].symbol.as_str(), given[1].symbol.as_str()), ("A", "B"));
    assert!(given.iter().all(|asset| asset.chain_id == 1));
}

#[test]
fn what_is_no_list_of_tokens_is_refused() {
    assert!(parse_tokens(1, "nonsense").unwrap_err().starts_with("invalid tokens: "));
    assert_eq!(parse_tokens(1, "{}").unwrap_err(), "tokens must be a JSON array");
    assert!(parse_tokens_by_chain("nonsense").unwrap_err().starts_with("invalid tokens: "));
    assert_eq!(parse_tokens_by_chain("[]").unwrap_err(), "tokens must be a JSON object");
    assert_eq!(
        parse_tokens_by_chain(r#"{"01":[]}"#).unwrap_err(),
        r#"tokens["01"] names no chain id"#
    );
    assert_eq!(
        parse_tokens_by_chain(r#"{"18446744073709551616":[]}"#).unwrap_err(),
        r#"tokens["18446744073709551616"] names no chain id"#
    );
    assert_eq!(
        parse_tokens_by_chain(r#"{"1":{}}"#).unwrap_err(),
        r#"tokens["1"] must be a JSON array"#
    );
    assert!(parse_tokens_by_chain(r#"{"18446744073709551615":[]}"#)
        .unwrap()
        .contains_key(&u64::MAX));
}
