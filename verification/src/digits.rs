//! Numbers as text: positional digits, their values, and fixed-point decimal rendering.
use vstd::arithmetic::div_mod::*;
use vstd::arithmetic::mul::*;
use vstd::arithmetic::power::*;
use vstd::prelude::*;

verus! {

/// The value of `c` as a digit, letters of either case standing for ten and up; -1 for any other
/// character.
pub open spec fn digit_of(c: char) -> int {
    if '0' <= c <= '9' {
        c as int - '0' as int
    } else if 'a' <= c <= 'z' {
        c as int - 'a' as int + 10
    } else if 'A' <= c <= 'Z' {
        c as int - 'A' as int + 10
    } else {
        -1
    }
}

/// The digit that stands for `d`, small letters from ten on.
pub open spec fn digit_char(d: int) -> char {
    if d < 10 {
        (d + '0' as int) as char
    } else {
        (d - 10 + 'a' as int) as char
    }
}

/// Whether every character of `s` is a digit below `radix`; underscores may stand anywhere.
pub open spec fn is_numeral(s: Seq<char>, radix: int) -> bool {
    forall|i: int| 0 <= i < s.len() ==> #[trigger] s[i] == '_' || 0 <= digit_of(s[i]) < radix
}

/// The number that `s` writes in base `radix`; underscores do not count.
pub open spec fn numeral_value(s: Seq<char>, radix: int) -> int
    decreases s.len(),
{
    if s.len() == 0 {
        0
    } else if s.last() == '_' {
        numeral_value(s.drop_last(), radix)
    } else {
        numeral_value(s.drop_last(), radix) * radix + digit_of(s.last())
    }
}

/// Whether `c` is an ASCII decimal digit.
pub open spec fn is_digit(c: char) -> bool {
    '0' <= c <= '9'
}

/// Whether `s` is made of ASCII decimal digits alone.
pub open spec fn all_digits(s: Seq<char>) -> bool {
    forall|i: int| 0 <= i < s.len() ==> is_digit(#[trigger] s[i])
}

/// The shortest text that writes `n` in base `radix`.
pub open spec fn digits(n: nat, radix: nat) -> Seq<char>
    decreases n,
{
    if radix < 2 || n < radix {
        seq![digit_char(n as int)]
    } else {
        proof {
            lemma_div_decreases(n as int, radix as int);
        }
        digits(n / radix, radix).push(digit_char((n % radix) as int))
    }
}

/// `n` in decimal.
pub open spec fn decimal(n: nat) -> Seq<char> {
    digits(n, 10)
}

/// The last `width` decimal digits of `n`, with zeros in front where `n` is shorter.
pub open spec fn fixed(n: nat, width: nat) -> Seq<char>
    decreases width,
{
    if width == 0 {
        Seq::empty()
    } else {
        fixed(n / 10, (width - 1) as nat).push(digit_char((n % 10) as int))
    }
}

/// `width` zeros.
pub open spec fn zeros(width: nat) -> Seq<char> {
    Seq::new(width, |i: int| '0')
}

/// `s` without the zeros at its front.
pub open spec fn no_front_zeros(s: Seq<char>) -> Seq<char>
    decreases s.len(),
{
    if s.len() > 0 && s[0] == '0' {
        no_front_zeros(s.drop_first())
    } else {
        s
    }
}

/// `s` without the zeros at its end.
pub open spec fn no_back_zeros(s: Seq<char>) -> Seq<char>
    decreases s.len(),
{
    if s.len() > 0 && s.last() == '0' {
        no_back_zeros(s.drop_last())
    } else {
        s
    }
}

/// `10` to the power `k`.
pub open spec fn tens(k: nat) -> nat {
    pow(10, k) as nat
}

/// `n` units of ten to the power `-places`, written out exactly: the whole part in decimal, then,
/// where anything is left, a point and the fraction without zeros at its end.
pub open spec fn rendered(n: nat, places: nat) -> Seq<char> {
    let whole = decimal(n / tens(places));
    let fraction = no_back_zeros(fixed(n % tens(places), places));
    if fraction.len() == 0 {
        whole
    } else {
        whole + seq!['.'] + fraction
    }
}

pub proof fn lemma_tens(k: nat)
    ensures
        tens(k) > 0,
        tens(k) == pow(10, k),
        tens(0) == 1,
        tens(k + 1) == 10 * tens(k),
{
    lemma_pow_positive(10, k);
    lemma_pow0(10);
    lemma_pow_positive(10, k + 1);
    assert(pow(10, k + 1) == 10 * pow(10, k)) by {
        reveal(pow);
    }
}

/// A digit text continued by decimal digits has the first part's value moved up by as many
/// places, plus the second part's.
pub proof fn lemma_value_append(a: Seq<char>, b: Seq<char>)
    requires
        all_digits(b),
    ensures
        numeral_value(a + b, 10) == numeral_value(a, 10) * tens(b.len()) + numeral_value(b, 10),
    decreases b.len(),
{
    if b.len() == 0 {
        assert(a + b =~= a);
        lemma_tens(0);
        lemma_mul_basics_3(numeral_value(a, 10));
    } else {
        let c = b.drop_last();
        assert((a + b).drop_last() =~= a + c);
        assert((a + b).last() == b.last());
        assert(is_digit(b[b.len() - 1]));
        lemma_value_append(a, c);
        lemma_tens(c.len());
        let va = numeral_value(a, 10);
        let t = tens(c.len()) as int;
        assert((va * t) * 10 == va * (10 * t)) by (nonlinear_arith);
    }
}

/// Decimal digits write a number below ten to the power of their count.
pub proof fn lemma_value_bound(s: Seq<char>)
    requires
        all_digits(s),
    ensures
        0 <= numeral_value(s, 10) < tens(s.len()),
        is_numeral(s, 10),
    decreases s.len(),
{
    lemma_tens(0);
    if s.len() > 0 {
        assert(is_digit(s[s.len() - 1]));
        lemma_value_bound(s.drop_last());
        lemma_tens((s.len() - 1) as nat);
    }
    assert forall|i: int| 0 <= i < s.len() implies #[trigger] s[i] == '_' || 0 <= digit_of(s[i])
        < 10 by {
        assert(is_digit(s[i]));
    }
}

/// Zeros are worth nothing.
pub proof fn lemma_zeros_value(k: nat)
    ensures
        numeral_value(zeros(k), 10) == 0,
        all_digits(zeros(k)),
    decreases k,
{
    if k > 0 {
        assert(zeros(k).drop_last() =~= zeros((k - 1) as nat));
        lemma_zeros_value((k - 1) as nat);
    }
}

/// Cutting a digit text `k` places before its end divides its value by ten to the power `k`.
pub proof fn lemma_value_split(s: Seq<char>, k: nat)
    requires
        all_digits(s),
        k <= s.len(),
    ensures
        numeral_value(s.take(s.len() - k), 10) == numeral_value(s, 10) / tens(k) as int,
        numeral_value(s.skip(s.len() - k), 10) == numeral_value(s, 10) % tens(k) as int,
{
    let a = s.take(s.len() - k);
    let b = s.skip(s.len() - k);
    assert(s =~= a + b);
    assert(all_digits(b)) by {
        assert forall|i: int| 0 <= i < b.len() implies is_digit(#[trigger] b[i]) by {
            assert(is_digit(s[s.len() - k + i]));
        }
    }
    assert(all_digits(a)) by {
        assert forall|i: int| 0 <= i < a.len() implies is_digit(#[trigger] a[i]) by {
            assert(is_digit(s[i]));
        }
    }
    lemma_value_append(a, b);
    lemma_value_bound(b);
    lemma_tens(k);
    lemma_fundamental_div_mod_converse(
        numeral_value(s, 10),
        tens(k) as int,
        numeral_value(a, 10),
        numeral_value(b, 10),
    );
}

/// A digit text is the fixed-width writing of its own value.
pub proof fn lemma_fixed_of_value(s: Seq<char>)
    requires
        all_digits(s),
    ensures
        fixed(numeral_value(s, 10) as nat, s.len()) == s,
    decreases s.len(),
{
    lemma_value_bound(s);
    if s.len() > 0 {
        let c = s.drop_last();
        assert(is_digit(s[s.len() - 1]));
        lemma_value_bound(c);
        lemma_fixed_of_value(c);
        let v = numeral_value(c, 10);
        let d = digit_of(s.last());
        assert((v * 10 + d) / 10 == v && (v * 10 + d) % 10 == d) by (nonlinear_arith)
            requires
                0 <= d < 10,
        ;
        assert(digit_char(d) == s.last());
        assert(s =~= c.push(s.last()));
    } else {
        assert(s =~= Seq::empty());
    }
}

/// The fixed-width writing of `n` has the width asked for, holds digits alone, and is worth what
/// is left of `n` below that width.
pub proof fn lemma_fixed(n: nat, width: nat)
    ensures
        fixed(n, width).len() == width,
        all_digits(fixed(n, width)),
        numeral_value(fixed(n, width), 10) == n % tens(width),
    decreases width,
{
    lemma_tens(0);
    if width > 0 {
        let w = (width - 1) as nat;
        lemma_fixed(n / 10, w);
        lemma_tens(w);
        let s = fixed(n, width);
        assert(s.drop_last() =~= fixed(n / 10, w));
        let d = (n % 10) as int;
        assert(digit_of(digit_char(d)) == d);
        lemma_breakdown(n as int, 10, tens(w) as int);
        assert(10 * tens(w) == tens(width));
        assert(numeral_value(s, 10) == ((n / 10) % tens(w)) * 10 + d);
    } else {
        assert(n % 1 == 0);
    }
}

/// The shortest writing of `n` holds digits alone, is worth `n`, and opens with a zero only where
/// it is `"0"` itself.
pub proof fn lemma_decimal(n: nat)
    ensures
        decimal(n).len() > 0,
        all_digits(decimal(n)),
        numeral_value(decimal(n), 10) == n,
        decimal(n)[0] == '0' ==> n == 0,
        decimal(0) == seq!['0'],
    decreases n,
{
    let s = decimal(n);
    if n < 10 {
        assert(s.drop_last() =~= Seq::empty());
        assert(numeral_value(s.drop_last(), 10) == 0);
        assert(digit_of(digit_char(n as int)) == n);
    } else {
        lemma_decimal(n / 10);
        assert(s.drop_last() =~= decimal(n / 10));
        assert(digit_of(digit_char((n % 10) as int)) == n % 10);
        assert(s[0] == decimal(n / 10)[0]);
    }
}

/// Two digit texts of one length and one value are one text.
pub proof fn lemma_value_injective(a: Seq<char>, b: Seq<char>)
    requires
        all_digits(a),
        all_digits(b),
        a.len() == b.len(),
        numeral_value(a, 10) == numeral_value(b, 10),
    ensures
        a == b,
{
    lemma_fixed_of_value(a);
    lemma_fixed_of_value(b);
}

/// A digit text that opens with no zero is worth at least ten to the power of what follows.
proof fn lemma_leading_value(s: Seq<char>)
    requires
        all_digits(s),
        s.len() > 0,
        s[0] != '0',
    ensures
        tens((s.len() - 1) as nat) <= numeral_value(s, 10),
{
    let a = s.take(1);
    let b = s.skip(1);
    assert(s =~= a + b);
    assert(is_digit(s[0]));
    assert(all_digits(b)) by {
        assert forall|i: int| 0 <= i < b.len() implies is_digit(#[trigger] b[i]) by {
            assert(is_digit(s[i + 1]));
        }
    }
    lemma_value_append(a, b);
    lemma_value_bound(b);
    assert(a.drop_last() =~= Seq::empty());
    assert(numeral_value(a.drop_last(), 10) == 0);
    lemma_tens(b.len());
    let va = numeral_value(a, 10);
    let t = tens(b.len()) as int;
    assert(va >= 1);
    assert(va * t >= t) by (nonlinear_arith)
        requires
            va >= 1,
            t > 0,
    ;
}

/// The zeros at the front of a digit text do not count; without them it is the shortest writing
/// of its value, `"0"` where nothing is left.
pub proof fn lemma_no_front_zeros(s: Seq<char>)
    requires
        all_digits(s),
    ensures
        no_front_zeros(s).len() == 0 ==> numeral_value(s, 10) == 0,
        no_front_zeros(s).len() > 0 ==> no_front_zeros(s) == decimal(numeral_value(s, 10) as nat),
    decreases s.len(),
{
    if s.len() > 0 && s[0] == '0' {
        let b = s.drop_first();
        assert(all_digits(b)) by {
            assert forall|i: int| 0 <= i < b.len() implies is_digit(#[trigger] b[i]) by {
                assert(is_digit(s[i + 1]));
            }
        }
        lemma_no_front_zeros(b);
        assert(s =~= seq!['0'] + b);
        lemma_value_append(seq!['0'], b);
        assert(seq!['0'].drop_last() =~= Seq::<char>::empty());
        assert(numeral_value(seq!['0'].drop_last(), 10) == 0);
        assert(numeral_value(seq!['0'], 10) == 0);
        lemma_tens(b.len());
        assert(0 * tens(b.len()) == 0);
    } else if s.len() > 0 {
        let n = numeral_value(s, 10) as nat;
        lemma_value_bound(s);
        lemma_leading_value(s);
        let t = decimal(n);
        lemma_decimal(n);
        lemma_tens(0);
        lemma_pow_increases(10, 0, (s.len() - 1) as nat);
        assert(n > 0);
        lemma_value_bound(t);
        lemma_leading_value(t);
        if t.len() < s.len() {
            lemma_tens((s.len() - 1) as nat);
            lemma_tens(t.len());
            lemma_pow_increases(10, t.len(), (s.len() - 1) as nat);
        } else if s.len() < t.len() {
            lemma_tens((t.len() - 1) as nat);
            lemma_tens(s.len());
            lemma_pow_increases(10, s.len(), (t.len() - 1) as nat);
        }
        lemma_value_injective(s, t);
    }
}

/// Taking the zeros off the end of a digit text divides its value by ten for each.
pub proof fn lemma_no_back_zeros(s: Seq<char>)
    requires
        all_digits(s),
    ensures
        all_digits(no_back_zeros(s)),
        no_back_zeros(s).len() <= s.len(),
        no_back_zeros(s) == s.take(no_back_zeros(s).len() as int),
        numeral_value(s, 10) == numeral_value(no_back_zeros(s), 10) * tens(
            (s.len() - no_back_zeros(s).len()) as nat,
        ),
        no_back_zeros(s).len() > 0 ==> no_back_zeros(s).last() != '0',
    decreases s.len(),
{
    let t = no_back_zeros(s);
    lemma_tens(0);
    if s.len() > 0 && s.last() == '0' {
        let b = s.drop_last();
        lemma_no_back_zeros(b);
        assert(b.take(t.len() as int) =~= s.take(t.len() as int));
        let k = (b.len() - t.len()) as nat;
        lemma_tens(k);
        let v = numeral_value(t, 10);
        let u = tens(k) as int;
        assert(v * u * 10 == v * (10 * u)) by (nonlinear_arith);
    } else {
        assert(s =~= s.take(s.len() as int));
        lemma_mul_basics_3(numeral_value(s, 10));
    }
}

/// Numbers that are written alike in decimal are one number.
pub proof fn lemma_value_injective_of_decimal(a: nat, b: nat)
    requires
        decimal(a) == decimal(b),
    ensures
        a == b,
{
    lemma_decimal(a);
    lemma_decimal(b);
}

/// Zero is written as `"0"` at any number of decimals.
pub proof fn lemma_rendered_zero(places: nat)
    ensures
        rendered(0, places) == seq!['0'],
{
    lemma_tens(places);
    lemma_decimal(0);
    let t = fixed(0, places);
    lemma_fixed(0, places);
    lemma_zeros_value(places);
    assert(0nat % tens(places) == 0) by {
        lemma_small_mod(0, tens(places));
    }
    assert(0nat / tens(places) == 0) by {
        lemma_basic_div(0, tens(places) as int);
    }
    lemma_value_injective(t, zeros(places));
    lemma_no_back_zeros_of_zeros(places);
}

proof fn lemma_no_back_zeros_of_zeros(k: nat)
    ensures
        no_back_zeros(zeros(k)).len() == 0,
    decreases k,
{
    if k > 0 {
        assert(zeros(k).drop_last() =~= zeros((k - 1) as nat));
        lemma_no_back_zeros_of_zeros((k - 1) as nat);
    }
}

/// `n` in decimal.
pub fn decimal_text(n: u64) -> (r: String)
    ensures
        r@ == decimal(n as nat),
    decreases n,
{
    let d: u8 = (n % 10) as u8;
    let mut out = if n < 10 {
        String::new()
    } else {
        decimal_text(n / 10)
    };
    out.push((d + 48) as char);
    assert(n < 10 ==> out@ =~= seq![digit_char(n as int)]);
    out
}

/// Digits count by their places: one more decimal digit multiplies what a text is worth by ten and
/// adds the digit, and a text of none is worth nothing.
pub proof fn law_digits_count_by_their_places(s: Seq<char>, c: char)
    requires
        is_digit(c),
    ensures
        numeral_value(Seq::empty(), 10) == 0,
        numeral_value(s.push(c), 10) == 10 * numeral_value(s, 10) + (c as int - '0' as int),
{
    assert(s.push(c).drop_last() =~= s);
}

/// A number in decimal is digits alone that are worth the number, without a zero in front but for
/// zero itself; no other text is.
pub proof fn law_decimal_is_the_one_writing(n: nat, s: Seq<char>)
    ensures
        all_digits(decimal(n)),
        numeral_value(decimal(n), 10) == n,
        decimal(n)[0] == '0' ==> decimal(n).len() == 1,
        s.len() > 0 && all_digits(s) && numeral_value(s, 10) == n && (s[0] == '0' ==> s.len() == 1)
            ==> s == decimal(n),
{
    lemma_decimal(n);
    if s.len() > 0 && all_digits(s) && numeral_value(s, 10) == n && (s[0] == '0' ==> s.len() == 1) {
        let t = decimal(n);
        if n == 0 {
            if s[0] != '0' {
                lemma_leading_value(s);
                lemma_tens((s.len() - 1) as nat);
            }
            assert(s =~= seq!['0']);
        } else {
            if s[0] == '0' {
                assert(s.drop_last() =~= Seq::empty());
                assert(numeral_value(s.drop_last(), 10) == 0);
                assert(numeral_value(s, 10) == 0);
            }
            lemma_leading_value(s);
            lemma_leading_value(t);
            lemma_value_bound(s);
            lemma_value_bound(t);
            if s.len() < t.len() {
                lemma_pow_increases(10, s.len(), (t.len() - 1) as nat);
                lemma_tens(s.len());
                lemma_tens((t.len() - 1) as nat);
            } else if t.len() < s.len() {
                lemma_pow_increases(10, t.len(), (s.len() - 1) as nat);
                lemma_tens(t.len());
                lemma_tens((s.len() - 1) as nat);
            }
            lemma_value_injective(s, t);
        }
    }
}

/// A number in base sixteen is small hexadecimal digits that are worth the number, without a zero
/// in front but for zero itself.
pub proof fn law_base_sixteen_is_worth_the_number(n: nat)
    ensures
        digits(n, 16).len() > 0,
        forall|i: int|
            0 <= i < digits(n, 16).len() ==> is_digit(#[trigger] digits(n, 16)[i]) || 'a'
                <= digits(n, 16)[i] <= 'f',
        numeral_value(digits(n, 16), 16) == n,
        digits(n, 16)[0] == '0' ==> n == 0 && digits(n, 16).len() == 1,
    decreases n,
{
    let s = digits(n, 16);
    let d = (n % 16) as int;
    assert(digit_of(digit_char(d)) == d);
    if n < 16 {
        assert(s.drop_last() =~= Seq::empty());
        assert(numeral_value(s.drop_last(), 16) == 0);
        assert(n % 16 == n);
    } else {
        let rest = digits(n / 16, 16);
        law_base_sixteen_is_worth_the_number(n / 16);
        assert(s.drop_last() =~= rest);
        assert(s[0] == rest[0]);
        assert(s.last() != '_');
        assert forall|i: int| 0 <= i < s.len() implies is_digit(#[trigger] s[i]) || 'a' <= s[i]
            <= 'f' by {
            if i < rest.len() {
                assert(s[i] == rest[i]);
            }
        }
    }
}

/// Whether `t` writes `n` at `places` decimals as the whole part `w` and the fraction `f`: a point
/// stands between them where there is a fraction, both are digits, the whole part has no zero in
/// front and the fraction none at its end, and together they are worth `n`.
pub open spec fn is_writing(
    t: Seq<char>,
    w: Seq<char>,
    f: Seq<char>,
    n: int,
    places: nat,
) -> bool {
    &&& f.len() == 0 ==> t == w
    &&& f.len() > 0 ==> t == w.push('.') + f
    &&& w.len() > 0
    &&& all_digits(w)
    &&& all_digits(f)
    &&& w[0] == '0' ==> w.len() == 1
    &&& f.len() <= places
    &&& f.len() > 0 ==> f.last() != '0'
    &&& numeral_value(w, 10) * pow(10, places) + numeral_value(f, 10) * pow(
        10,
        (places - f.len()) as nat,
    ) == n
}

/// An exact text is a whole part and, where anything is left, a point and a fraction, which
/// together are worth the number at its decimals.
pub proof fn law_exact_texts_are_worth_the_number(n: nat, places: nat)
    ensures
        exists|w: Seq<char>, f: Seq<char>|
            is_writing(rendered(n, places), w, f, n as int, places),
{
    let unit = tens(places);
    let w = decimal(n / unit);
    let full = fixed(n % unit, places);
    let f = no_back_zeros(full);
    lemma_tens(places);
    law_decimal_is_the_one_writing(n / unit, w);
    lemma_decimal(n / unit);
    lemma_fixed(n % unit, places);
    lemma_no_back_zeros(full);
    lemma_tens((places - f.len()) as nat);
    lemma_small_mod(n % unit, unit);
    lemma_fundamental_div_mod(n as int, unit as int);
    let q = (n / unit) as int;
    assert(q * unit == unit * q) by (nonlinear_arith);
    assert(w + seq!['.'] + f =~= w.push('.') + f);
    assert(is_writing(rendered(n, places), w, f, n as int, places));
}

/// Hexadecimal digits count by their places, small letters and capitals alike.
pub proof fn law_hexadecimal_digits_count_by_their_places(s: Seq<char>, c: char)
    ensures
        is_digit(c) ==> numeral_value(s.push(c), 16) == 16 * numeral_value(s, 16) + (c as int
            - '0' as int),
        'a' <= c <= 'f' ==> numeral_value(s.push(c), 16) == 16 * numeral_value(s, 16) + (c as int
            - 'a' as int + 10),
        'A' <= c <= 'F' ==> numeral_value(s.push(c), 16) == 16 * numeral_value(s, 16) + (c as int
            - 'A' as int + 10),
{
    assert(s.push(c).drop_last() =~= s);
}

} // verus!
