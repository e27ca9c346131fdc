//! Account and contract addresses: twenty bytes here, their text from `alloy`.
use vstd::prelude::*;

use crate::digits;
use crate::hextext;
use crate::text;

verus! {

/// An Ethereum address.
#[derive(Clone, Copy, Debug, PartialEq, Eq)]
pub struct Address {
    pub bytes: [u8; 20],
}

impl View for Address {
    type V = Seq<u8>;

    open spec fn view(&self) -> Seq<u8> {
        self.bytes@
    }
}

/// `s` without the `0x` or `0X` in front, where it has one.
pub open spec fn unprefixed(s: Seq<char>) -> Seq<char> {
    if s.len() >= 2 && s[0] == '0' && (s[1] == 'x' || s[1] == 'X') {
        s.skip(2)
    } else {
        s
    }
}

/// Whether `s` writes an address: forty hexadecimal digits of either case, with or without `0x`.
pub open spec fn is_address(s: Seq<char>) -> bool {
    unprefixed(s).len() == 40 && hextext::all_hex(unprefixed(s))
}

/// The address that `s` writes.
pub open spec fn address_of(s: Seq<char>) -> Seq<u8> {
    hextext::unhexed(unprefixed(s))
}

/// Whether every byte of `bytes` is zero.
pub open spec fn all_zero(bytes: Seq<u8>) -> bool {
    forall|i: int| 0 <= i < bytes.len() ==> #[trigger] bytes[i] == 0
}

/// What `alloy`'s address parser says of a text that writes no address.
pub uninterp spec fn address_refusal(text: Seq<char>) -> Seq<char>;

/// The text that `alloy` displays an address as: `0x` and forty hexadecimal digits, their case
/// carrying the EIP-55 checksum.
pub uninterp spec fn checksummed(bytes: Seq<u8>) -> Seq<char>;

impl Address {
    /// The `FromStr` of `alloy`'s `Address`: forty hexadecimal digits of either case, a `0x` or
    /// `0X` in front passed over, no checksum asked for. The words of a refusal are only named.
    #[verifier::external_body]
    pub(crate) fn parse(text: &str) -> (r: Result<Address, String>)
        ensures
            r matches Ok(a) ==> is_address(text@) && a@ == address_of(text@),
            r matches Err(e) ==> !is_address(text@) && e@ == address_refusal(text@),
    {
        match text.parse::<alloy::primitives::Address>() {
            Ok(a) => Ok(Address { bytes: a.into_array() }),
            Err(e) => Err(e.to_string()),
        }
    }

    /// The `Display` of `alloy`'s `Address`. Which letters are capitals, EIP-55 decides; apart
    /// from their case the digits behind `0x` are the bytes in hexadecimal.
    #[verifier::external_body]
    fn display(&self) -> (r: String)
        ensures
            r@ == checksummed(self@),
            r@.len() == 42 && r@[0] == '0' && r@[1] == 'x',
            text::lowered(r@) == seq!['0', 'x'] + hextext::hex_text(self@),
    {
        alloy::primitives::Address::from(self.bytes).to_string()
    }

    /// The address in hexadecimal with its EIP-55 checksum.
    pub fn to_checksum(&self) -> (r: String)
        ensures
            r@ == checksummed(self@),
            r@.len() == 42 && r@[0] == '0' && r@[1] == 'x',
            text::lowered(r@) == seq!['0', 'x'] + hextext::hex_text(self@),
    {
        self.display()
    }

    /// Whether this is the zero address.
    pub fn is_zero(&self) -> (r: bool)
        ensures
            r == all_zero(self@),
    {
        let mut i: usize = 0;
        while i < 20
            invariant
                i <= 20,
                forall|j: int| 0 <= j < i ==> #[trigger] self@[j] == 0,
            decreases 20 - i,
        {
            if self.bytes[i] != 0 {
                assert(self@[i as int] != 0);
                return false;
            }
            i = i + 1;
        }
        true
    }

    /// Whether two addresses are one.
    pub fn same_as(&self, other: &Address) -> (r: bool)
        ensures
            r == (self@ == other@),
    {
        let mut i: usize = 0;
        while i < 20
            invariant
                i <= 20,
                forall|j: int| 0 <= j < i ==> #[trigger] self@[j] == other@[j],
            decreases 20 - i,
        {
            if self.bytes[i] != other.bytes[i] {
                assert(self@[i as int] != other@[i as int]);
                return false;
            }
            i = i + 1;
        }
        assert(self@ =~= other@);
        true
    }
}

/// A text that is `0x` and the bytes of an address in hexadecimal, but for the case of its letters,
/// writes that address: what an address is displayed as parses as the same address.
pub proof fn law_displayed_addresses_read_back(s: Seq<char>, bytes: Seq<u8>)
    requires
        bytes.len() == 20,
        text::lowered(s) == seq!['0', 'x'] + hextext::hex_text(bytes),
    ensures
        is_address(s),
        address_of(s) == bytes,
{
    let low = text::lowered(s);
    let h = hextext::hex_text(bytes);
    hextext::law_hex_text_reads_back(bytes);
    assert(h.len() == 40);
    assert((seq!['0', 'x'] + h).len() == 42);
    assert(low.len() == 42 && s.len() == 42);
    assert(low[0] == text::folded(s[0]) && low[1] == text::folded(s[1]));
    assert(low[0] == '0' && low[1] == 'x');
    let t = unprefixed(s);
    assert forall|i: int| 0 <= i < 40 implies 0 <= digits::digit_of(#[trigger] t[i]) < 16
        && digits::digit_of(t[i]) == digits::digit_of(h[i]) by {
        assert(low[i + 2] == text::folded(s[i + 2]));
        assert(low[i + 2] == h[i]);
        assert(0 <= digits::digit_of(h[i]) < 16);
    }
    assert forall|i: int| 0 <= i < 20 implies address_of(s)[i] == #[trigger] bytes[i] by {
        assert(hextext::unhexed(h)[i] == bytes[i]);
        assert(digits::digit_of(t[2 * i]) == digits::digit_of(h[2 * i]));
        assert(digits::digit_of(t[2 * i + 1]) == digits::digit_of(h[2 * i + 1]));
    }
    assert(address_of(s) =~= bytes);
}

} // verus!
