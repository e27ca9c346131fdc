use alloy::primitives::{keccak256, Address as OutsideAddress, Bytes, U256 as OutsideWord};
use alloy::sol_types::SolValue;
use evm_assets::address::Address;
use evm_assets::codec::{
    aggregate, balance_of, decode_aggregate, multicall3, native_balance, read_answers, transfer,
};
use evm_assets::uint::U256;

fn address(text: &str) -> Address {
    Address { bytes: hex::decode(text).unwrap().try_into().unwrap() }
}

fn alice() -> Address {
    address("70997970C51812dc3A010C7d01b50e0d17dc79C8")
}

fn outside(a: Address) -> OutsideAddress {
    OutsideAddress::from(a.bytes)
}

#[test]
fn transfer_has_the_erc20_selector() {
    assert_eq!(
        &transfer(alice(), U256::from(7))[..4],
        &[0xa9, 0x05, 0x9c, 0xbb]
    );
}

#[test]
fn balance_has_the_erc20_selector() {
    assert_eq!(&balance_of(alice())[..4], &[0x70, 0xa0, 0x82, 0x31]);
}

#[test]
fn aggregate_allows_each_leg_to_fail() {
    let encoded = aggregate(&[(alice(), balance_of(alice()))]);
    assert_eq!(&encoded[..4], &[0x82, 0xad, 0x56, 0xcb]);
    let (legs,) =
        <(Vec<(OutsideAddress, bool, Bytes)>,)>::abi_decode_sequence(&encoded[4..]).unwrap();
    assert_eq!(legs, [(outside(alice()), true, Bytes::from(balance_of(alice())))]);
}

#[test]
fn selectors_are_those_of_the_signatures() {
    let selector = |signature: &str| keccak256(signature.as_bytes())[..4].to_vec();
    assert_eq!(balance_of(alice())[..4], selector("balanceOf(address)"));
    assert_eq!(transfer(alice(), U256::zero())[..4], selector("transfer(address,uint256)"));
    assert_eq!(native_balance(alice())[..4], selector("getEthBalance(address)"));
    assert_eq!(aggregate(&[])[..4], selector("aggregate3((address,bool,bytes)[])"));
}

#[test]
fn words_are_those_of_the_outside_encoder() {
    assert_eq!(balance_of(alice())[4..], (outside(alice()),).abi_encode_sequence());
    assert_eq!(native_balance(alice())[4..], (outside(alice()),).abi_encode_sequence());
    let amount = U256 { w0: 1, w1: 2, w2: 3, w3: 4 };
    assert_eq!(
        transfer(alice(), amount)[4..],
        (outside(alice()), OutsideWord::from_limbs([1, 2, 3, 4])).abi_encode_sequence()
    );
}

#[test]
fn the_batch_contract_is_the_canonical_one() {
    assert_eq!(multicall3().to_checksum(), "0xcA11bde05977b3631167028862bE2a173976CA11");
}

#[test]
fn a_batch_reply_is_read_leg_by_leg() {
    let mut long = vec![0u8; 40];
    long[31] = 9;
    long[35] = 1;
    let answers = vec![
        (true, Bytes::from(long)),
        (false, Bytes::from(vec![1u8; 32])),
        (true, Bytes::from(vec![1u8; 31])),
        (true, Bytes::from(vec![0u8; 32])),
    ];
    let data = (answers,).abi_encode_sequence();
    assert_eq!(
        decode_aggregate(&data).unwrap(),
        [Some(U256::from(9)), None, None, Some(U256::zero())]
    );
    assert_eq!(decode_aggregate(&data[..40]), None);
    assert_eq!(decode_aggregate(&[]), None);
}

#[test]
fn answers_that_failed_or_came_back_short_hold_nothing() {
    let mut word = vec![0u8; 32];
    word[0] = 0x80;
    let amounts = read_answers(&[(true, word.clone()), (false, word), (true, vec![])]);
    assert_eq!(amounts, [Some(U256 { w0: 0, w1: 0, w2: 0, w3: 1 << 63 }), None, None]);
}
