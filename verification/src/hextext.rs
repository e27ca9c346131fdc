//! Bytes as hexadecimal text, through the `hex` crate.
use vstd::prelude::*;

use crate::digits;
use crate::uint;

verus! {

/// `bytes` written out, two small hexadecimal digits for each.
pub open spec fn hex_text(bytes: Seq<u8>) -> Seq<char> {
    Seq::new(
        2 * bytes.len(),
        |i: int|
            if i % 2 == 0 {
                digits::digit_char(bytes[i / 2] as int / 16)
            } else {
                digits::digit_char(bytes[i / 2] as int % 16)
            },
    )
}

/// Whether every character of `s` is a hexadecimal digit, of either case.
pub open spec fn all_hex(s: Seq<char>) -> bool {
    forall|i: int| 0 <= i < s.len() ==> 0 <= digits::digit_of(#[trigger] s[i]) < 16
}

/// Whether `s` writes whole bytes in hexadecimal digits.
pub open spec fn is_hex(s: Seq<char>) -> bool {
    s.len() % 2 == 0 && all_hex(s)
}

/// The bytes that the pairs of hexadecimal digits in `s` write.
pub open spec fn unhexed(s: Seq<char>) -> Seq<u8> {
    Seq::new(
        s.len() / 2,
        |i: int| (digits::digit_of(s[2 * i]) * 16 + digits::digit_of(s[2 * i + 1])) as u8,
    )
}

/// Reading back what bytes were written as gives the bytes.
pub proof fn law_hex_text_reads_back(bytes: Seq<u8>)
    ensures
        is_hex(hex_text(bytes)),
        unhexed(hex_text(bytes)) == bytes,
{
    let s = hex_text(bytes);
    assert forall|i: int| 0 <= i < s.len() implies 0 <= digits::digit_of(#[trigger] s[i]) < 16 by {
        let b = bytes[i / 2] as int;
        assert(0 <= b / 16 < 16 && 0 <= b % 16 < 16);
    }
    assert forall|i: int| 0 <= i < bytes.len() implies #[trigger] unhexed(s)[i] == bytes[i] by {
        let b = bytes[i] as int;
        assert((2 * i) / 2 == i && (2 * i) % 2 == 0);
        assert((2 * i + 1) / 2 == i && (2 * i + 1) % 2 == 1);
        assert(digits::digit_of(digits::digit_char(b / 16)) == b / 16);
        assert(digits::digit_of(digits::digit_char(b % 16)) == b % 16);
        assert(b / 16 * 16 + b % 16 == b);
    }
    assert(unhexed(s) =~= bytes);
}

/// `hex::encode`: two small hexadecimal digits for each byte.
#[verifier::external_body]
pub(crate) fn encode(bytes: &[u8]) -> (r: String)
    ensures
        r@ == hex_text(bytes@),
{
    hex::encode(bytes)
}

/// `hex::decode`: the bytes that pairs of hexadecimal digits of either case write; nothing for an
/// odd count or any other character.
#[verifier::external_body]
pub(crate) fn decode(text: &str) -> (r: Option<Vec<u8>>)
    ensures
        r matches Some(bytes) ==> is_hex(text@) && bytes@ == unhexed(text@),
        r is None ==> !is_hex(text@),
{
    hex::decode(text).ok()
}

/// Bytes in hexadecimal are worth the same as a number: reading hexadecimal digits as bytes and
/// the bytes as a big-endian number gives the number that the digits write in base sixteen.
pub proof fn law_hex_digits_are_worth_their_bytes(s: Seq<char>)
    requires
        is_hex(s),
    ensures
        unhexed(s).len() * 2 == s.len(),
        uint::be_value(unhexed(s)) == digits::numeral_value(s, 16),
    decreases s.len(),
{
    if s.len() > 0 {
        let n = s.len() as int;
        let front = s.take(n - 2);
        assert forall|i: int| 0 <= i < front.len() implies 0 <= digits::digit_of(
            #[trigger] front[i],
        ) < 16 by {
            assert(front[i] == s[i]);
        }
        law_hex_digits_are_worth_their_bytes(front);
        let hi = digits::digit_of(s[n - 2]);
        let lo = digits::digit_of(s[n - 1]);
        assert(0 <= hi < 16 && 0 <= lo < 16);
        let b = unhexed(s);
        assert(b.drop_last() =~= unhexed(front));
        assert(b.last() == (hi * 16 + lo) as u8);
        assert(s[n - 2] != '_' && s[n - 1] != '_');
        assert(s.drop_last().drop_last() =~= front);
        assert(s.drop_last().last() == s[n - 2]);
        let v = digits::numeral_value(front, 16);
        assert(digits::numeral_value(s.drop_last(), 16) == v * 16 + hi);
        assert(digits::numeral_value(s, 16) == (v * 16 + hi) * 16 + lo);
    } else {
        assert(unhexed(s) =~= Seq::empty());
    }
}

/// Bytes are written as two hexadecimal digits each, the upper half first.
pub proof fn law_bytes_are_two_digits_each(bytes: Seq<u8>, i: int)
    requires
        0 <= i < bytes.len(),
    ensures
        hex_text(bytes).len() == 2 * bytes.len(),
        16 * digits::digit_of(hex_text(bytes)[2 * i]) + digits::digit_of(hex_text(bytes)[2 * i + 1])
            == bytes[i],
{
    law_hex_text_reads_back(bytes);
    let s = hex_text(bytes);
    assert(unhexed(s)[i] == bytes[i]);
    assert(0 <= digits::digit_of(s[2 * i]) < 16 && 0 <= digits::digit_of(s[2 * i + 1]) < 16);
}

} // verus!
