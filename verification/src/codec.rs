//! ABI encoding for ERC-20 transfers and one Multicall3 balance batch.
use vstd::prelude::*;

use crate::address;
use crate::address::Address;
use crate::digits;
use crate::uint;
use crate::uint::U256;

verus! {

/// The address at which Multicall3 stands on every chain.
pub const MULTICALL3: &'static str = "0xcA11bde05977b3631167028862bE2a173976CA11";

/// The selector of `balanceOf(address)`.
pub open spec fn balance_of_selector() -> Seq<u8> {
    seq![0x70, 0xa0, 0x82, 0x31]
}

/// The selector of `transfer(address,uint256)`.
pub open spec fn transfer_selector() -> Seq<u8> {
    seq![0xa9, 0x05, 0x9c, 0xbb]
}

/// The selector of `getEthBalance(address)`.
pub open spec fn native_balance_selector() -> Seq<u8> {
    seq![0x4d, 0x23, 0x01, 0xcc]
}

/// The selector of `aggregate3((address,bool,bytes)[])`.
pub open spec fn aggregate_selector() -> Seq<u8> {
    seq![0x82, 0xad, 0x56, 0xcb]
}

/// An address as a 32-byte word: zeros in front of its twenty bytes.
pub open spec fn address_word(bytes: Seq<u8>) -> Seq<u8> {
    Seq::new(12, |i: int| 0u8) + bytes
}

/// What a call hands to the batch: whom it calls, whether it may fail, and its data.
pub type Leg = (Address, bool, Vec<u8>);

/// The legs of a batch, as they are.
pub open spec fn leg_views(legs: Seq<Leg>) -> Seq<(Seq<u8>, bool, Seq<u8>)> {
    legs.map_values(|leg: Leg| (leg.0@, leg.1, leg.2@))
}

/// The answers of a batch, as they are.
pub open spec fn answer_views(answers: Seq<(bool, Vec<u8>)>) -> Seq<(bool, Seq<u8>)> {
    answers.map_values(|a: (bool, Vec<u8>)| (a.0, a.1@))
}

/// The ABI encoding of a list of legs as the one parameter of a call.
pub uninterp spec fn encoded_legs(legs: Seq<(Seq<u8>, bool, Seq<u8>)>) -> Seq<u8>;

/// The list of answers that an ABI encoding holds as the one value of a reply.
pub uninterp spec fn decoded_answers(data: Seq<u8>) -> Option<Seq<(bool, Seq<u8>)>>;

/// The legs of a balance batch: each call as it is given, and each may fail.
pub open spec fn batch_legs(calls: Seq<(Address, Vec<u8>)>) -> Seq<(Seq<u8>, bool, Seq<u8>)> {
    calls.map_values(|call: (Address, Vec<u8>)| (call.0@, true, call.1@))
}

/// The balance that one answer holds: the first word of its data, where the call succeeded and
/// the data hold one.
pub open spec fn leg_amount(success: bool, data: Seq<u8>) -> Option<nat> {
    if success && data.len() >= 32 {
        Some(uint::be_value(data.take(32)))
    } else {
        None
    }
}

/// The balances that the answers of a batch hold, one for each.
pub open spec fn leg_amounts(answers: Seq<(bool, Seq<u8>)>) -> Seq<Option<nat>> {
    answers.map_values(|a: (bool, Seq<u8>)| leg_amount(a.0, a.1))
}

/// `SolValue::abi_encode_sequence` of `alloy`, on a list of `(address, bool, bytes)`. What the
/// encoding is, is only named.
#[verifier::external_body]
fn encode_legs(legs: &Vec<Leg>) -> (r: Vec<u8>)
    ensures
        r@ == encoded_legs(leg_views(legs@)),
{
    let list: Vec<(alloy::primitives::Address, bool, alloy::primitives::Bytes)> = legs.iter().map(
        |leg|
            (
                alloy::primitives::Address::from(leg.0.bytes),
                leg.1,
                alloy::primitives::Bytes::from(leg.2.clone()),
            ),
    ).collect();
    alloy::sol_types::SolValue::abi_encode_sequence(&(list,))
}

/// `SolValue::abi_decode_sequence` of `alloy`, for a list of `(bool, bytes)`. What the data decode
/// to, and whether they do, is only named.
#[verifier::external_body]
fn decode_answers(data: &[u8]) -> (r: Option<Vec<(bool, Vec<u8>)>>)
    ensures
        r is Some == decoded_answers(data@) is Some,
        r is Some ==> answer_views(r->0@) == decoded_answers(data@)->0,
{
    match <(Vec<(bool, alloy::primitives::Bytes)>,) as alloy::sol_types::SolValue>::abi_decode_sequence(data) {
        Ok((list,)) => Some(list.into_iter().map(|a| (a.0, a.1.to_vec())).collect()),
        Err(_) => None,
    }
}

/// The constant is an address.
proof fn lemma_multicall3()
    ensures
        address::is_address(MULTICALL3@),
{
    reveal_strlit("0xcA11bde05977b3631167028862bE2a173976CA11");
    let s = address::unprefixed(MULTICALL3@);
    assert forall|i: int| 0 <= i < s.len() implies 0 <= digits::digit_of(
        #[trigger] s[i],
    ) < 16 by {
        assert(s[i] == MULTICALL3@[i + 2]);
    }
}

/// The Multicall3 contract.
pub fn multicall3() -> (r: Address)
    ensures
        r@ == address::address_of(MULTICALL3@),
{
    proof {
        lemma_multicall3();
    }
    match Address::parse(MULTICALL3) {
        Ok(a) => a,
        Err(_) => {
            assert(false);
            Address { bytes: [0;20] }
        },
    }
}

/// Appends an address as a 32-byte word.
fn push_address(out: &mut Vec<u8>, a: &Address)
    ensures
        final(out)@ == old(out)@ + address_word(a@),
{
    let ghost before = out@;
    let mut i: usize = 0;
    while i < 12
        invariant
            i <= 12,
            out@ == before + Seq::new(i as nat, |i: int| 0u8),
        decreases 12 - i,
    {
        out.push(0);
        i = i + 1;
        assert(out@ =~= before + Seq::new(i as nat, |i: int| 0u8));
    }
    let ghost front = out@;
    let mut j: usize = 0;
    while j < 20
        invariant
            j <= 20,
            out@ == front + a@.take(j as int),
        decreases 20 - j,
    {
        out.push(a.bytes[j]);
        j = j + 1;
        assert(out@ =~= front + a@.take(j as int));
    }
    assert(out@ =~= before + address_word(a@));
}

/// The call data of `balanceOf(owner)`.
pub fn balance_of(owner: Address) -> (r: Vec<u8>)
    ensures
        r@ == balance_of_selector() + address_word(owner@),
{
    let mut out: Vec<u8> = vec![0x70, 0xa0, 0x82, 0x31];
    assert(out@ =~= balance_of_selector());
    push_address(&mut out, &owner);
    out
}

/// The call data of `transfer(to, amount)`.
pub fn transfer(to: Address, amount: U256) -> (r: Vec<u8>)
    ensures
        r@ == transfer_selector() + address_word(to@) + uint::be_bytes(amount@, 32),
{
    let mut out: Vec<u8> = vec![0xa9, 0x05, 0x9c, 0xbb];
    assert(out@ =~= transfer_selector());
    push_address(&mut out, &to);
    let mut word = amount.to_be_bytes();
    out.append(&mut word);
    out
}

/// The call data of `getEthBalance(owner)`.
pub fn native_balance(owner: Address) -> (r: Vec<u8>)
    ensures
        r@ == native_balance_selector() + address_word(owner@),
{
    let mut out: Vec<u8> = vec![0x4d, 0x23, 0x01, 0xcc];
    assert(out@ =~= native_balance_selector());
    push_address(&mut out, &owner);
    out
}

/// Another list of the same bytes.
fn bytes_of(data: &Vec<u8>) -> (r: Vec<u8>)
    ensures
        r@ == data@,
{
    let mut out: Vec<u8> = Vec::new();
    out.extend_from_slice(data.as_slice());
    assert(out@ =~= data@);
    out
}

/// The call data of `aggregate3(calls)`, in which each leg may fail by itself.
pub fn aggregate(calls: &[(Address, Vec<u8>)]) -> (r: Vec<u8>)
    ensures
        r@ == aggregate_selector() + encoded_legs(batch_legs(calls@)),
{
    let mut legs: Vec<Leg> = Vec::new();
    let mut i: usize = 0;
    while i < calls.len()
        invariant
            i <= calls.len(),
            legs.len() == i,
            forall|k: int|
                0 <= k < i ==> leg_views(legs@)[k] == #[trigger] batch_legs(calls@)[k],
        decreases calls.len() - i,
    {
        let ghost before = leg_views(legs@);
        legs.push((calls[i].0, true, bytes_of(&calls[i].1)));
        assert forall|k: int| 0 <= k < i + 1 implies leg_views(legs@)[k] == #[trigger] batch_legs(
            calls@,
        )[k] by {
            if k < i {
                assert(leg_views(legs@)[k] == before[k]);
            }
        }
        i = i + 1;
    }
    assert(leg_views(legs@) =~= batch_legs(calls@));
    let mut out: Vec<u8> = vec![0x82, 0xad, 0x56, 0xcb];
    assert(out@ =~= aggregate_selector());
    let mut list = encode_legs(&legs);
    out.append(&mut list);
    out
}

/// The balances that the answers of a batch hold. A leg that failed, or came back short, holds
/// none.
pub fn read_answers(answers: &[(bool, Vec<u8>)]) -> (r: Vec<Option<U256>>)
    ensures
        uint::amounts(r@) == leg_amounts(answer_views(answers@)),
{
    let mut out: Vec<Option<U256>> = Vec::new();
    let mut i: usize = 0;
    while i < answers.len()
        invariant
            i <= answers.len(),
            out.len() == i,
            forall|k: int|
                0 <= k < i ==> match #[trigger] out[k] {
                    Some(n) => leg_amount(answers[k].0, answers[k].1@) == Some(n@),
                    None => leg_amount(answers[k].0, answers[k].1@) is None,
                },
        decreases answers.len() - i,
    {
        let data = &answers[i].1;
        let amount = if answers[i].0 && data.len() >= 32 {
            let word = vstd::slice::slice_subrange(data.as_slice(), 0, 32);
            assert(word@ =~= data@.take(32));
            Some(U256::from_be_slice(word))
        } else {
            None
        };
        out.push(amount);
        i = i + 1;
    }
    assert(uint::amounts(out@) =~= leg_amounts(answer_views(answers@)));
    out
}

/// The balances that the reply of a batch holds, where it decodes.
pub fn decode_aggregate(data: &[u8]) -> (r: Option<Vec<Option<U256>>>)
    ensures
        match decoded_answers(data@) {
            Some(answers) => r matches Some(list) && uint::amounts(list@) == leg_amounts(answers),
            None => r is None,
        },
{
    match decode_answers(data) {
        Some(answers) => Some(read_answers(answers.as_slice())),
        None => None,
    }
}

/// An address as a word is 32 bytes that are worth the same as its twenty, with the address at
/// their end.
pub proof fn law_an_address_word_is_worth_the_address(bytes: Seq<u8>)
    requires
        bytes.len() == 20,
    ensures
        address_word(bytes).len() == 32,
        address_word(bytes).skip(12) == bytes,
        uint::be_value(address_word(bytes)) == uint::be_value(bytes),
{
    let front = Seq::new(12, |i: int| 0u8);
    assert(address_word(bytes).skip(12) =~= bytes);
    uint::law_bytes_count_by_their_places(front, bytes, 0);
    lemma_zero_bytes(12);
}

proof fn lemma_zero_bytes(n: nat)
    ensures
        uint::be_value(Seq::new(n, |i: int| 0u8)) == 0,
    decreases n,
{
    let s = Seq::new(n, |i: int| 0u8);
    if n > 0 {
        assert(s.drop_last() =~= Seq::new((n - 1) as nat, |i: int| 0u8));
        lemma_zero_bytes((n - 1) as nat);
    }
}

/// A leg that succeeded holds whatever amount its first 32 bytes write; one that failed, or came
/// back with fewer, holds none.
pub proof fn law_a_leg_holds_what_its_first_word_writes(n: nat, rest: Seq<u8>, data: Seq<u8>)
    requires
        n < uint::limit(),
    ensures
        leg_amount(true, uint::be_bytes(n, 32) + rest) == Some(n),
        leg_amount(false, data) is None,
        data.len() < 32 ==> leg_amount(true, data) is None,
{
    uint::law_words_read_back(n);
    assert((uint::be_bytes(n, 32) + rest).take(32) =~= uint::be_bytes(n, 32));
}

/// The amounts of a batch are those of its answers, one for each and in their order.
pub proof fn law_each_answer_is_read_in_its_place(answers: Seq<(bool, Seq<u8>)>, i: int)
    requires
        0 <= i < answers.len(),
    ensures
        leg_amounts(answers).len() == answers.len(),
        leg_amounts(answers)[i] == leg_amount(answers[i].0, answers[i].1),
{
}

/// Every call of a batch is in it as it was given, in its place, and may fail by itself.
pub proof fn law_each_call_is_in_its_place(calls: Seq<(Address, Vec<u8>)>, i: int)
    requires
        0 <= i < calls.len(),
    ensures
        batch_legs(calls).len() == calls.len(),
        batch_legs(calls)[i] == (calls[i].0@, true, calls[i].1@),
{
}

} // verus!
