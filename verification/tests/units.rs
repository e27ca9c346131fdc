use evm_assets::json::Json;
use evm_assets::uint::U256;
use evm_assets::units::{
    decorate, format_display, format_exact, parse_u256_any, parse_units, resolve_amount,
};

const MAX: &str = "115792089237316195423570985008687907853269984665640564039457584007913129639935";
const OVER: &str = "115792089237316195423570985008687907853269984665640564039457584007913129639936";

fn max() -> U256 {
    U256 { w0: u64::MAX, w1: u64::MAX, w2: u64::MAX, w3: u64::MAX }
}

#[test]
fn parses_human_units_exactly() {
    assert_eq!(
        parse_units("0.1", 18).unwrap().to_decimal(),
        "100000000000000000"
    );
    assert_eq!(parse_units("1.000001", 6).unwrap().to_decimal(), "1000001");
    assert_eq!(parse_units(".5", 2).unwrap().to_decimal(), "50");
}

#[test]
fn refuses_ambiguous_or_lossy_amounts() {
    for value in ["", "-1", "1e18", "1_000", "1.2.3", "0x1"] {
        assert!(parse_units(value, 18).is_err(), "{value}");
    }
    assert!(parse_units("1.0000001", 6).is_err());
}

#[test]
fn exact_rendering_keeps_every_digit() {
    assert_eq!(
        format_exact("1234567890123456789", 18).as_deref(),
        Some("1.234567890123456789")
    );
    assert_eq!(
        format_exact("1", 18).as_deref(),
        Some("0.000000000000000001")
    );
    assert_eq!(format_exact("0", 6).as_deref(), Some("0"));
}

#[test]
fn display_never_turns_dust_into_zero() {
    assert_eq!(format_display("1", 18).as_deref(), Some("<0.00001"));
    assert_eq!(format_display("0", 18).as_deref(), Some("0"));
}

#[test]
fn base_amount_keeps_legacy_semantics() {
    assert_eq!(
        resolve_amount(Some("0x2a"), None, 18, "ETH").unwrap(),
        U256::from(42)
    );
    assert!(resolve_amount(Some("1"), Some("1"), 18, "ETH").is_err());
}

#[test]
fn what_is_written_exactly_reads_back() {
    for raw in ["0", "1", "10", "1000000", "1234567890123456789", MAX] {
        for decimals in [0u8, 1, 6, 18, 77, 255] {
            let shown = format_exact(raw, decimals).unwrap();
            assert_eq!(parse_units(&shown, decimals).unwrap().to_decimal(), raw, "{shown}");
        }
    }
}

#[test]
fn different_amounts_are_written_differently() {
    let a = format_exact("100", 2).unwrap();
    let b = format_exact("1000", 2).unwrap();
    assert_eq!((a.as_str(), b.as_str()), ("1", "10"));
    assert_ne!(a, b);
}

#[test]
fn units_at_the_edge_of_the_word() {
    assert_eq!(parse_units(MAX, 0).unwrap(), max());
    assert!(parse_units(OVER, 0).is_err());
    assert_eq!(parse_units("0.000", 77).unwrap(), U256::from(0));
    assert_eq!(parse_units("  7. ", 0).unwrap(), U256::from(7));
    assert!(parse_units(".", 18).is_err());
}

#[test]
fn a_refused_amount_says_why() {
    let precise = parse_units("1.0000001", 6).unwrap_err();
    assert!(precise.contains("at most"), "{precise}");
    let named = resolve_amount(None, Some("1.0000001"), 6, "USDC").unwrap_err();
    assert!(named.starts_with("USDC has 6 decimals; "), "{named}");
    assert_eq!(
        resolve_amount(Some("1"), Some("1"), 18, "ETH").unwrap_err(),
        "send either `amount` or `amountUnits`, not both"
    );
}

#[test]
fn any_number_reads_decimal_and_hexadecimal() {
    assert_eq!(parse_u256_any("0x2a"), Some(U256::from(42)));
    assert_eq!(parse_u256_any("0X2A"), Some(U256::from(42)));
    assert_eq!(parse_u256_any(" 42 "), Some(U256::from(42)));
    assert_eq!(parse_u256_any(MAX), Some(max()));
    assert_eq!(parse_u256_any(OVER), None);
    assert_eq!(parse_u256_any("forty"), None);
    assert_eq!(parse_u256_any(""), None);
    assert_eq!(parse_u256_any("0x"), None);
    assert_eq!(parse_u256_any("1_000"), Some(U256::from(1000)));
    assert_eq!(parse_u256_any("_"), Some(U256::zero()));
    assert_eq!(parse_u256_any("0xg"), None);
}

#[test]
fn display_shows_at_most_five_places_and_never_more_than_is_there() {
    assert_eq!(format_display("1234567890123456789", 18).as_deref(), Some("1.23456"));
    assert_eq!(format_display("1999999999999999999", 18).as_deref(), Some("1.99999"));
    assert_eq!(format_display("1500000", 6).as_deref(), Some("1.5"));
    assert_eq!(format_display("42", 0).as_deref(), Some("42"));
    assert_eq!(format_display("15", 1).as_deref(), Some("1.5"));
    assert_eq!(format_display("9", 6).as_deref(), Some("<0.00001"));
    assert_eq!(format_display("10", 6).as_deref(), Some("0.00001"));
    assert_eq!(format_display(OVER, 18), None);
    assert_eq!(format_display(MAX, 77).as_deref(), Some("1.15792"));
    assert_eq!(format_display(MAX, 82).as_deref(), Some("0.00001"));
    assert_eq!(format_display(MAX, 83).as_deref(), Some("<0.00001"));
    assert_eq!(format_display("1", 255).as_deref(), Some("<0.00001"));
    assert_eq!(format_display("0", 255).as_deref(), Some("0"));
    assert_eq!(format_display("x", 18), None);
}

#[test]
fn decoration_writes_both_texts_beside_the_key() {
    let mut row = Json::object();
    decorate(&mut row, "amount", "1500000", 6);
    assert_eq!(row.get_str("amountDisplay"), Some("1.5"));
    assert_eq!(row.get_str("amountExact"), Some("1.5"));
    let mut kept = Json::text("no object");
    decorate(&mut kept, "amount", "not a number", 6);
    assert_eq!(kept, Json::text("no object"));
    let mut beyond = Json::Null;
    decorate(&mut beyond, "amount", OVER, 0);
    assert_eq!(beyond.get_str("amountExact"), Some(OVER));
    assert!(beyond.get("amountDisplay").is_none());
}

#[test]
fn words_match_the_outside_integer() {
    let n = alloy::primitives::U256::from_str_radix("123456789012345678901234567890123456789", 10)
        .unwrap();
    let limbs = n.into_limbs();
    let ours = U256 { w0: limbs[0], w1: limbs[1], w2: limbs[2], w3: limbs[3] };
    assert_eq!(ours.to_decimal(), n.to_string());
    assert_eq!(ours.to_be_bytes(), n.to_be_bytes::<32>().to_vec());
    assert_eq!(U256::from_be_slice(&n.to_be_bytes::<32>()), ours);
    assert_eq!(U256::from(7).is_below(&ours), true);
    assert_eq!(ours.is_below(&U256::from(7)), false);
}
