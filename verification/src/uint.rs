//! 256-bit unsigned integers: plain words here, text and powers from `alloy`.
use vstd::arithmetic::div_mod::*;
use vstd::arithmetic::mul::*;
use vstd::arithmetic::power::*;
use vstd::prelude::*;

use crate::digits;

verus! {

/// Two to the power 256: what no [`U256`] reaches.
pub open spec fn limit() -> nat {
    0x1_0000000000000000_0000000000000000_0000000000000000_0000000000000000nat
}

/// A 256-bit unsigned integer as four 64-bit words, the least significant first.
#[derive(Clone, Copy, Debug, PartialEq, Eq, Structural)]
pub struct U256 {
    pub w0: u64,
    pub w1: u64,
    pub w2: u64,
    pub w3: u64,
}

impl View for U256 {
    type V = nat;

    open spec fn view(&self) -> nat {
        (self.w0 + 0x1_0000000000000000 * (self.w1 + 0x1_0000000000000000 * (self.w2
            + 0x1_0000000000000000 * self.w3))) as nat
    }
}

/// The numbers that a list holds, where it holds one.
pub open spec fn amounts(list: Seq<Option<U256>>) -> Seq<Option<nat>> {
    Seq::new(
        list.len(),
        |i: int|
            match list[i] {
                Some(n) => Some(n@),
                None => None,
            },
    )
}

/// The number that `bytes` write, the most significant byte first.
pub open spec fn be_value(bytes: Seq<u8>) -> nat
    decreases bytes.len(),
{
    if bytes.len() == 0 {
        0
    } else {
        be_value(bytes.drop_last()) * 256 + bytes.last() as nat
    }
}

/// The last `width` bytes of `n`, the most significant first.
pub open spec fn be_bytes(n: nat, width: nat) -> Seq<u8>
    decreases width,
{
    if width == 0 {
        Seq::empty()
    } else {
        be_bytes(n / 256, (width - 1) as nat).push((n % 256) as u8)
    }
}

/// Every [`U256`] is below two to the power 256.
pub proof fn lemma_below_limit(v: U256)
    ensures
        v@ < limit(),
{
}

/// Bytes followed by `b` write the first part's value moved up by as many bytes, plus `b`'s.
proof fn lemma_be_append(a: Seq<u8>, b: Seq<u8>)
    ensures
        be_value(a + b) == be_value(a) * pow(256, b.len()) + be_value(b),
    decreases b.len(),
{
    if b.len() == 0 {
        assert(a + b =~= a);
        lemma_pow0(256);
        lemma_mul_basics_3(be_value(a) as int);
    } else {
        let c = b.drop_last();
        assert((a + b).drop_last() =~= a + c);
        lemma_be_append(a, c);
        assert(pow(256, b.len()) == 256 * pow(256, c.len())) by {
            reveal(pow);
        }
        let v = be_value(a) as int;
        let t = pow(256, c.len());
        assert((v * t) * 256 == v * (256 * t)) by (nonlinear_arith);
    }
}

/// Bytes split into a high and a low part write the two parts one after the other.
proof fn lemma_be_bytes_append(hi: nat, lo: nat, j: nat, k: nat)
    requires
        lo < pow(256, k),
    ensures
        be_bytes((hi * pow(256, k) + lo) as nat, j + k) == be_bytes(hi, j) + be_bytes(lo, k),
    decreases k,
{
    let n = (hi * pow(256, k) + lo) as nat;
    if k == 0 {
        lemma_pow0(256);
        assert(be_bytes(hi, j) + be_bytes(lo, k) =~= be_bytes(hi, j));
        lemma_mul_basics_3(hi as int);
    } else {
        let m = (k - 1) as nat;
        assert(pow(256, k) == 256 * pow(256, m)) by {
            reveal(pow);
        }
        let t = pow(256, m);
        assert(hi * (256 * t) == (hi * t) * 256) by (nonlinear_arith);
        let rest = lo / 256;
        assert(n == (hi * t + rest) * 256 + lo % 256);
        assert(n / 256 == hi * t + rest);
        assert(n % 256 == lo % 256);
        assert(rest < t);
        lemma_be_bytes_append(hi, rest, j, m);
        assert(be_bytes(hi, j) + be_bytes(lo, k) =~= (be_bytes(hi, j) + be_bytes(rest, m)).push(
            (lo % 256) as u8,
        ));
    }
}

/// Two to the power 64 is 256 to the power 8.
proof fn lemma_word_power()
    ensures
        pow(256, 8) == 0x1_0000000000000000,
{
    reveal_with_fuel(pow, 9);
}

proof fn lemma_be_value_bound(bytes: Seq<u8>)
    ensures
        be_value(bytes) < pow(256, bytes.len()),
    decreases bytes.len(),
{
    lemma_pow0(256);
    if bytes.len() > 0 {
        lemma_be_value_bound(bytes.drop_last());
        assert(pow(256, bytes.len()) == 256 * pow(256, (bytes.len() - 1) as nat)) by {
            reveal(pow);
        }
    }
}

/// The eight bytes of `bytes` from `from` on as one word.
fn word_at(bytes: &[u8], from: usize) -> (r: u64)
    requires
        from + 8 <= bytes@.len(),
    ensures
        r == be_value(bytes@.subrange(from as int, from + 8)),
{
    let mut out: u64 = 0;
    let mut i: usize = 0;
    proof {
        lemma_word_power();
    }
    while i < 8
        invariant
            i <= 8,
            from + 8 <= bytes.len(),
            out == be_value(bytes@.subrange(from as int, from + i)),
            pow(256, 8) == 0x1_0000000000000000,
        decreases 8 - i,
    {
        proof {
            let next = bytes@.subrange(from as int, from + i + 1);
            assert(next.drop_last() =~= bytes@.subrange(from as int, from + i));
            lemma_be_value_bound(next);
            lemma_pow_increases(256, (i + 1) as nat, 8);
        }
        out = out * 256 + bytes[from + i] as u64;
        i = i + 1;
    }
    out
}

/// Appends the eight bytes of `word` to `out`, the most significant first.
fn push_word(out: &mut Vec<u8>, word: u64)
    ensures
        final(out)@ == old(out)@ + be_bytes(word as nat, 8),
{
    let mut rest: u64 = word;
    let mut low: Vec<u8> = Vec::new();
    let mut i: usize = 0;
    let ghost whole = be_bytes(word as nat, 8);
    assert(whole =~= be_bytes(rest as nat, 8) + Seq::new(0, |j: int| low@[low@.len() - 1 - j]));
    while i < 8
        invariant
            i <= 8,
            low@.len() == i,
            whole == be_bytes(rest as nat, (8 - i) as nat) + Seq::new(
                i as nat,
                |j: int| low@[i - 1 - j],
            ),
        decreases 8 - i,
    {
        let ghost before = Seq::new(i as nat, |j: int| low@[i - 1 - j]);
        let ghost head = be_bytes(rest as nat, (8 - i) as nat);
        let b: u8 = (rest % 256) as u8;
        low.push(b);
        rest = rest / 256;
        i = i + 1;
        assert(Seq::new(i as nat, |j: int| low@[i - 1 - j]) =~= seq![b] + before);
        assert(head + before =~= be_bytes(rest as nat, (8 - i) as nat) + (seq![b] + before));
    }
    assert(whole =~= Seq::new(8, |j: int| low@[7 - j]));
    let ghost start = out@;
    while i > 0
        invariant
            i <= 8,
            low@.len() == 8,
            out@ == start + Seq::new((8 - i) as nat, |j: int| low@[7 - j]),
        decreases i,
    {
        out.push(low[i - 1]);
        i = i - 1;
        assert(out@ =~= start + Seq::new((8 - i) as nat, |j: int| low@[7 - j]));
    }
}

impl U256 {
    /// Zero.
    pub fn zero() -> (r: U256)
        ensures
            r@ == 0,
    {
        U256 { w0: 0, w1: 0, w2: 0, w3: 0 }
    }

    /// The number `n`.
    pub fn from(n: u64) -> (r: U256)
        ensures
            r@ == n,
    {
        U256 { w0: n, w1: 0, w2: 0, w3: 0 }
    }

    /// Whether this is zero.
    pub fn is_zero(&self) -> (r: bool)
        ensures
            r == (self@ == 0),
    {
        self.w0 == 0 && self.w1 == 0 && self.w2 == 0 && self.w3 == 0
    }

    /// Whether this is below `other`.
    pub fn is_below(&self, other: &U256) -> (r: bool)
        ensures
            r == (self@ < other@),
    {
        if self.w3 != other.w3 {
            self.w3 < other.w3
        } else if self.w2 != other.w2 {
            self.w2 < other.w2
        } else if self.w1 != other.w1 {
            self.w1 < other.w1
        } else {
            self.w0 < other.w0
        }
    }

    /// The number that 32 bytes write, the most significant first.
    pub fn from_be_slice(bytes: &[u8]) -> (r: U256)
        requires
            bytes@.len() == 32,
        ensures
            r@ == be_value(bytes@),
    {
        let r = U256 {
            w3: word_at(bytes, 0),
            w2: word_at(bytes, 8),
            w1: word_at(bytes, 16),
            w0: word_at(bytes, 24),
        };
        proof {
            lemma_word_power();
            let b = bytes@;
            assert(b =~= b.subrange(0, 24) + b.subrange(24, 32));
            assert(b.subrange(0, 24) =~= b.subrange(0, 16) + b.subrange(16, 24));
            assert(b.subrange(0, 16) =~= b.subrange(0, 8) + b.subrange(8, 16));
            lemma_be_append(b.subrange(0, 24), b.subrange(24, 32));
            lemma_be_append(b.subrange(0, 16), b.subrange(16, 24));
            lemma_be_append(b.subrange(0, 8), b.subrange(8, 16));
        }
        r
    }

    /// This number as 32 bytes, the most significant first.
    pub fn to_be_bytes(&self) -> (r: Vec<u8>)
        ensures
            r@ == be_bytes(self@, 32),
    {
        let mut out: Vec<u8> = Vec::new();
        push_word(&mut out, self.w3);
        push_word(&mut out, self.w2);
        push_word(&mut out, self.w1);
        push_word(&mut out, self.w0);
        proof {
            lemma_word_power();
            let b: int = 0x1_0000000000000000;
            let n2 = (self.w2 + b * self.w3) as nat;
            let n1 = (self.w1 + b * n2) as nat;
            lemma_be_bytes_append(self.w3 as nat, self.w2 as nat, 8, 8);
            lemma_be_bytes_append(n2, self.w1 as nat, 16, 8);
            lemma_be_bytes_append(n1, self.w0 as nat, 24, 8);
            assert(Seq::<u8>::empty() + be_bytes(self.w3 as nat, 8) =~= be_bytes(
                self.w3 as nat,
                8,
            ));
        }
        out
    }

    /// `alloy`'s `U256::from_str_radix` for base ten and sixteen: it reads digits of either case,
    /// passes over underscores wherever they stand, takes an empty text for zero, and refuses
    /// every other character and every number that 256 bits do not hold.
    #[verifier::external_body]
    pub(crate) fn from_str_radix(text: &str, radix: u64) -> (r: Option<U256>)
        requires
            radix == 10 || radix == 16,
        ensures
            r matches Some(v) ==> digits::is_numeral(text@, radix as int) && v@ == digits::numeral_value(
                text@,
                radix as int,
            ),
            r is None ==> !digits::is_numeral(text@, radix as int) || digits::numeral_value(text@, radix as int)
                >= limit(),
    {
        let limbs = alloy::primitives::U256::from_str_radix(text, radix).ok()?.into_limbs();
        Some(U256 { w0: limbs[0], w1: limbs[1], w2: limbs[2], w3: limbs[3] })
    }

    /// This number in decimal.
    pub fn to_decimal(&self) -> (r: String)
        ensures
            r@ == digits::decimal(self@),
    {
        self.display()
    }

    /// The text that `alloy`'s `U256` displays as: the number in decimal.
    #[verifier::external_body]
    fn display(&self) -> (r: String)
        ensures
            r@ == digits::decimal(self@),
    {
        alloy::primitives::U256::from_limbs([self.w0, self.w1, self.w2, self.w3]).to_string()
    }

    /// The text that `alloy`'s `U256` gives for `{:x}`: the number in base sixteen, small letters.
    #[verifier::external_body]
    pub(crate) fn to_hex(&self) -> (r: String)
        ensures
            r@ == digits::digits(self@, 16),
    {
        format!("{:x}", alloy::primitives::U256::from_limbs([self.w0, self.w1, self.w2, self.w3]))
    }

    /// `alloy`'s `U256::checked_pow`: this number to the power `exponent`, nothing where 256 bits
    /// do not hold it.
    #[verifier::external_body]
    pub(crate) fn checked_pow(&self, exponent: &U256) -> (r: Option<U256>)
        ensures
            r matches Some(v) ==> v@ == pow(self@ as int, exponent@),
            r is None ==> pow(self@ as int, exponent@) >= limit(),
    {
        let base = alloy::primitives::U256::from_limbs([self.w0, self.w1, self.w2, self.w3]);
        let power = alloy::primitives::U256::from_limbs(
            [exponent.w0, exponent.w1, exponent.w2, exponent.w3],
        );
        let limbs = base.checked_pow(power)?.into_limbs();
        Some(U256 { w0: limbs[0], w1: limbs[1], w2: limbs[2], w3: limbs[3] })
    }
}

/// Big-endian bytes read back as the number that they were written from.
proof fn lemma_be_bytes_read_back(n: nat, width: nat)
    requires
        n < pow(256, width),
    ensures
        be_bytes(n, width).len() == width,
        be_value(be_bytes(n, width)) == n,
    decreases width,
{
    if width == 0 {
        lemma_pow0(256);
    } else {
        let rest = (width - 1) as nat;
        reveal(pow);
        assert(pow(256, width) == 256 * pow(256, rest));
        assert(n / 256 < pow(256, rest)) by (nonlinear_arith)
            requires
                n < 256 * pow(256, rest),
        ;
        lemma_be_bytes_read_back(n / 256, rest);
        let bytes = be_bytes(n, width);
        assert(bytes.drop_last() =~= be_bytes(n / 256, rest));
        assert(bytes.last() == (n % 256) as u8);
    }
}

/// A 256-bit number reads back from the 32 bytes that it is written as.
pub proof fn law_words_read_back(n: nat)
    requires
        n < limit(),
    ensures
        be_bytes(n, 32).len() == 32,
        be_value(be_bytes(n, 32)) == n,
{
    reveal_with_fuel(pow, 9);
    assert(pow(256, 8) == 0x1_0000000000000000int);
    lemma_pow_adds(256, 8, 8);
    assert(pow(256, 16) == 0x1_0000000000000000_0000000000000000int);
    lemma_pow_adds(256, 16, 16);
    assert(pow(256, 32) == limit());
    lemma_be_bytes_read_back(n, 32);
}

/// Big-endian bytes count by their places: one more byte multiplies what the bytes are worth by
/// 256 and adds the byte; none are worth nothing, and bytes in front count by how many follow.
pub proof fn law_bytes_count_by_their_places(a: Seq<u8>, b: Seq<u8>, last: u8)
    ensures
        be_value(Seq::empty()) == 0,
        be_value(a.push(last)) == 256 * be_value(a) + last,
        be_value(a + b) == be_value(a) * pow(256, b.len()) + be_value(b),
{
    assert(a.push(last).drop_last() =~= a);
    lemma_be_append(a, b);
}

/// A list of numbers is read number by number, and a gap stays a gap.
pub proof fn law_amounts_are_read_one_by_one(list: Seq<Option<U256>>, i: int)
    requires
        0 <= i < list.len(),
    ensures
        amounts(list).len() == list.len(),
        list[i] is None ==> amounts(list)[i] is None,
        list[i] matches Some(n) ==> amounts(list)[i] == Some(n@),
{
}

} // verus!
