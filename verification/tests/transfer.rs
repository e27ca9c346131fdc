use evm_assets::assets::Asset;
use evm_assets::json::Json;
use evm_assets::transfer::{call, purpose, resolve, token_affordable, TransferRequest};
use evm_assets::uint::U256;

fn native() -> Asset {
    Asset {
        chain_id: 1,
        symbol: "ETH".into(),
        name: "Ether".into(),
        decimals: 18,
        address: None,
        native: true,
        builtin: true,
        enabled: true,
        source: "native".into(),
        logo_uri: None,
        symbol_unknown: false,
    }
}

fn usdc() -> Asset {
    Asset {
        symbol: "USDC".into(),
        name: "USD Coin".into(),
        decimals: 6,
        address: Some("0xa0b86991c6218b36c1d19d4a2e9eb0ce3606eb48".into()),
        native: false,
        ..native()
    }
}

fn req() -> TransferRequest {
    TransferRequest {
        from: "0x0000000000000000000000000000000000000001".into(),
        to: "0x0000000000000000000000000000000000000002".into(),
        amount: None,
        amount_units: Some("1.5".into()),
        token: None,
        token_address: None,
        tokens: Vec::new(),
        deadline_ms: None,
    }
}

#[test]
fn native_request_builds_one_plain_call() {
    let resolved = resolve(1, &req(), &[native()]).unwrap();
    assert_eq!(resolved.amount.to_decimal(), "1500000000000000000");
    let call = call(&resolved);
    assert_eq!(call.get_str("data"), Some("0x"));
    assert_eq!(call.get("meta").unwrap().get_str("kind"), Some("native"));
}

#[test]
fn purpose_names_every_human_fact() {
    let resolved = resolve(1, &req(), &[native()]).unwrap();
    let line = purpose(&resolved);
    let from = resolved.from.to_checksum();
    let to = resolved.to.to_checksum();
    for text in ["1.5 ETH", from.as_str(), to.as_str()] {
        assert!(line.contains(text));
    }
}

#[test]
fn overdrawn_token_is_refused_in_token_units() {
    let error =
        token_affordable(U256::from(1_000_000), U256::from(2_000_000), "USDC", 6).unwrap_err();
    assert!(error.contains("2 USDC") && error.contains("1 USDC"));
}

#[test]
fn deadline_is_a_caller_budget_not_an_asset_fact() {
    let mut request = req();
    request.deadline_ms = Some(4500);
    assert_eq!(resolve(1, &request, &[native()]).unwrap().chain_id, 1);
}

#[test]
fn a_native_call_is_written_out() {
    let resolved = resolve(1, &req(), &[native()]).unwrap();
    assert_eq!(
        call(&resolved).to_text(),
        r#"{"data":"0x","label":"Send ETH","meta":{"amount":"1500000000000000000","kind":"native","recipient":"0x0000000000000000000000000000000000000002"},"to":"0x0000000000000000000000000000000000000002","value":"0x14d1120d7b160000"}"#
    );
}

#[test]
fn a_token_call_is_written_out() {
    let mut request = req();
    request.token = Some("usdc".into());
    let resolved = resolve(1, &request, &[native(), usdc()]).unwrap();
    assert_eq!(resolved.native_symbol, "ETH");
    assert_eq!(
        call(&resolved).to_text(),
        r#"{"data":"0xa9059cbb0000000000000000000000000000000000000000000000000000000000000002000000000000000000000000000000000000000000000000000000000016e360","label":"Send USDC","meta":{"amount":"1500000","kind":"erc20","recipient":"0x0000000000000000000000000000000000000002","token":"0xa0b86991c6218b36c1d19d4a2e9eb0ce3606eb48","tokenDecimals":6,"tokenSymbol":"USDC"},"to":"0xA0b86991c6218b36c1d19D4a2e9Eb0cE3606eB48","value":"0x0"}"#
    );
}

#[test]
fn a_token_address_goes_before_the_token() {
    let mut request = req();
    request.token = Some("ETH".into());
    request.token_address = Some(" 0xA0B86991c6218b36c1d19d4a2e9eb0ce3606eb48 ".into());
    assert_eq!(resolve(1, &request, &[native(), usdc()]).unwrap().asset, usdc());
    request.token_address = Some("  ".into());
    assert!(resolve(1, &request, &[native(), usdc()]).unwrap().asset.native);
}

#[test]
fn a_request_is_refused_for_a_reason() {
    let mut request = req();
    request.from = "nobody".into();
    assert!(resolve(1, &request, &[native()]).unwrap_err().starts_with("invalid `from` address: "));
    let mut request = req();
    request.to = "0x12".into();
    assert!(resolve(1, &request, &[native()]).unwrap_err().starts_with("invalid `to` address: "));
    assert_eq!(
        resolve(7, &req(), &[usdc()]).unwrap_err(),
        "chain 7 has no native asset metadata"
    );
    let mut request = req();
    request.token = Some("DAI".into());
    assert_eq!(resolve(1, &request, &[native()]).unwrap_err(), "asset 'DAI' is not offered");
    let mut request = req();
    request.amount = Some("1".into());
    assert_eq!(
        resolve(1, &request, &[native()]).unwrap_err(),
        "send either `amount` or `amountUnits`, not both"
    );
    request.amount = None;
    request.amount_units = None;
    assert_eq!(resolve(1, &request, &[native()]).unwrap_err(), "no amount");
}

#[test]
fn what_is_held_can_be_sent_and_no_more() {
    assert_eq!(token_affordable(U256::from(5), U256::from(5), "T", 0), Ok(()));
    assert_eq!(
        token_affordable(U256::from(1), U256::from(25), "T", 1).unwrap_err(),
        "cannot send 2.5 T; the account holds 0.1 T"
    );
}

#[test]
fn a_purpose_is_one_line() {
    let resolved = resolve(1, &req(), &[native()]).unwrap();
    assert_eq!(
        purpose(&resolved),
        "Send 1.5 ETH from 0x0000000000000000000000000000000000000001 to \
         0x0000000000000000000000000000000000000002"
    );
    let _: Json = call(&resolved);
}

#[test]
fn a_displayed_address_is_the_address() {
    let mut request = req();
    request.from = "0xA0B86991C6218B36C1D19D4A2E9EB0CE3606EB48".into();
    let resolved = resolve(1, &request, &[native()]).unwrap();
    assert_eq!(resolved.from.to_checksum(), "0xA0b86991c6218b36c1d19D4a2e9Eb0cE3606eB48");
    request.from = resolved.from.to_checksum();
    assert_eq!(resolve(1, &request, &[native()]).unwrap().from, resolved.from);
    request.from = "a0b86991c6218b36c1d19d4a2e9eb0ce3606eb48".into();
    assert_eq!(resolve(1, &request, &[native()]).unwrap().from, resolved.from);
    assert!(resolved.from.same_as(&resolved.from) && !resolved.from.same_as(&resolved.to));
    assert!(!resolved.from.is_zero());
}
