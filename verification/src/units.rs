//! Exact conversion between human decimals and base units. No floating point belongs here.
use vstd::arithmetic::power::*;
use vstd::prelude::*;
use vstd::string::StrSliceExecFns;
use vstd::string::StringExecFns;

use crate::digits;
use crate::digits::decimal_text;
use crate::hextext;
use crate::json;
use crate::json::{Json, JsonView};
use crate::text;
use crate::text::{chars_of, joined, string_of, trim};
use crate::uint;
use crate::uint::U256;

verus! {

/// The number of fraction digits that a display amount shows at most.
pub const DISPLAY_PLACES: u8 = 5;

/// Where the first point in `s` stands; the length of `s` where it has none.
pub open spec fn point(s: Seq<char>) -> int
    decreases s.len(),
{
    if s.len() == 0 || s[0] == '.' {
        0
    } else {
        1 + point(s.drop_first())
    }
}

/// What stands before the first point of `s`.
pub open spec fn whole_part(s: Seq<char>) -> Seq<char> {
    s.take(point(s))
}

/// What stands behind the first point of `s`; nothing where it has none.
pub open spec fn fraction_part(s: Seq<char>) -> Seq<char> {
    if point(s) < s.len() {
        s.skip(point(s) + 1)
    } else {
        Seq::empty()
    }
}

/// Whether `s` is made of digits and at most one point.
pub open spec fn is_amount(s: Seq<char>) -> bool {
    &&& forall|i: int| 0 <= i < s.len() ==> digits::is_digit(#[trigger] s[i]) || s[i] == '.'
    &&& forall|i: int, j: int|
        0 <= i < j < s.len() ==> !(#[trigger] s[i] == '.' && #[trigger] s[j] == '.')
}

/// Why a human amount is refused.
pub enum Refusal {
    Missing,
    Negative,
    Malformed,
    TooPrecise { given: usize },
    TooLarge,
}

/// The amount in base units that `input` writes for an asset of `decimals` decimals, or why it is
/// refused.
pub open spec fn units_outcome(input: Seq<char>, decimals: nat) -> Result<nat, Refusal> {
    let t = text::trimmed(input);
    if t.len() == 0 {
        Err(Refusal::Missing)
    } else if t[0] == '-' {
        Err(Refusal::Negative)
    } else if !is_amount(t) {
        Err(Refusal::Malformed)
    } else if whole_part(t).len() == 0 && fraction_part(t).len() == 0 {
        Err(Refusal::Missing)
    } else if fraction_part(t).len() > decimals {
        Err(Refusal::TooPrecise { given: fraction_part(t).len() as usize })
    } else {
        let n = digits::numeral_value(whole_part(t) + fraction_part(t), 10) * digits::tens(
            (decimals - fraction_part(t).len()) as nat,
        );
        if n >= uint::limit() {
            Err(Refusal::TooLarge)
        } else {
            Ok(n as nat)
        }
    }
}

/// What a refusal says.
pub open spec fn refusal_text(refusal: Refusal, input: Seq<char>, decimals: nat) -> Seq<char> {
    match refusal {
        Refusal::Missing => "enter an amount"@,
        Refusal::Negative => "an amount cannot be negative"@,
        Refusal::Malformed => "'"@ + input
            + "' is not an amount — use digits and at most one decimal point"@,
        Refusal::TooPrecise { given } => "that amount has "@ + digits::decimal(given as nat)
            + " decimals; at most "@ + digits::decimal(decimals) + " are allowed"@,
        Refusal::TooLarge => "that amount is too large"@,
    }
}

/// Where the first point in `s` stands; the length of `s` where it has none.
fn find_point(s: &Vec<char>) -> (r: usize)
    ensures
        r == point(s@),
        r <= s@.len(),
        forall|i: int| 0 <= i < r ==> #[trigger] s@[i] != '.',
        r < s@.len() ==> s@[r as int] == '.',
{
    let mut i: usize = 0;
    assert(s@.skip(0) =~= s@);
    while i < s.len() && s[i] != '.'
        invariant
            i <= s@.len(),
            point(s@) == i + point(s@.skip(i as int)),
            forall|j: int| 0 <= j < i ==> #[trigger] s@[j] != '.',
        decreases s@.len() - i,
    {
        assert(s@.skip(i as int).drop_first() =~= s@.skip(i + 1));
        i = i + 1;
    }
    i
}

/// Whether `s` is made of digits and at most one point.
fn check_amount(s: &Vec<char>) -> (r: bool)
    ensures
        r == is_amount(s@),
{
    let mut seen = false;
    let ghost mut at: int = 0;
    let mut i: usize = 0;
    while i < s.len()
        invariant
            i <= s@.len(),
            forall|j: int| 0 <= j < i ==> digits::is_digit(#[trigger] s@[j]) || s@[j] == '.',
            forall|j: int, k: int|
                0 <= j < k < i ==> !(#[trigger] s@[j] == '.' && #[trigger] s@[k] == '.'),
            seen ==> 0 <= at < i && s@[at] == '.',
            !seen ==> forall|j: int| 0 <= j < i ==> #[trigger] s@[j] != '.',
        decreases s@.len() - i,
    {
        if s[i] == '.' {
            if seen {
                assert(s@[at] == '.' && s@[i as int] == '.');
                return false;
            }
            seen = true;
            proof {
                at = i as int;
            }
        } else if !('0' <= s[i] && s[i] <= '9') {
            assert(!digits::is_digit(s@[i as int]) && s@[i as int] != '.');
            return false;
        }
        i = i + 1;
    }
    true
}

/// The text of `parts`' digits with `more` zeros behind them.
fn scaled_digits(whole: &[char], fraction: &[char], more: usize) -> (r: String)
    ensures
        r@ == whole@ + fraction@ + digits::zeros(more as nat),
{
    let mut out = string_of(whole);
    out.append(string_of(fraction).as_str());
    let ghost start = out@;
    let mut i: usize = 0;
    assert(start + digits::zeros(0) =~= start);
    while i < more
        invariant
            i <= more,
            out@ == start + digits::zeros(i as nat),
        decreases more - i,
    {
        out.push('0');
        i = i + 1;
        assert(out@ =~= start + digits::zeros(i as nat));
    }
    out
}

/// The amount in base units that `input` writes, or why it is refused.
fn read_units(input: &str, decimals: u8) -> (r: Result<U256, Refusal>)
    ensures
        match r {
            Ok(v) => units_outcome(input@, decimals as nat) == Ok::<nat, Refusal>(v@),
            Err(e) => units_outcome(input@, decimals as nat) == Err::<nat, Refusal>(e),
        },
{
    let t = chars_of(trim(input));
    if t.len() == 0 {
        return Err(Refusal::Missing);
    }
    if t[0] == '-' {
        return Err(Refusal::Negative);
    }
    if !check_amount(&t) {
        return Err(Refusal::Malformed);
    }
    let at: usize = find_point(&t);
    let whole = vstd::slice::slice_subrange(t.as_slice(), 0, at);
    let fraction = if at < t.len() {
        vstd::slice::slice_subrange(t.as_slice(), at + 1, t.len())
    } else {
        vstd::slice::slice_subrange(t.as_slice(), at, at)
    };
    assert(whole@ =~= whole_part(t@));
    assert(fraction@ =~= fraction_part(t@));
    if whole.len() == 0 && fraction.len() == 0 {
        return Err(Refusal::Missing);
    }
    if fraction.len() > decimals as usize {
        return Err(Refusal::TooPrecise { given: fraction.len() });
    }
    let more: usize = decimals as usize - fraction.len();
    let text = scaled_digits(whole, fraction, more);
    proof {
        let ds = whole@ + fraction@;
        assert forall|i: int| 0 <= i < ds.len() implies digits::is_digit(#[trigger] ds[i]) by {
            if i < at {
                assert(ds[i] == t@[i]);
            } else {
                assert(ds[i] == t@[i + 1]);
                assert(t@[at as int] == '.');
            }
        }
        digits::lemma_zeros_value(more as nat);
        digits::lemma_value_append(ds, digits::zeros(more as nat));
        let all = ds + digits::zeros(more as nat);
        assert(digits::all_digits(all)) by {
            assert forall|i: int| 0 <= i < all.len() implies digits::is_digit(#[trigger] all[i]) by {
                if i < ds.len() {
                    assert(digits::is_digit(ds[i]));
                }
            }
        }
        digits::lemma_value_bound(all);
    }
    match U256::from_str_radix(text.as_str(), 10) {
        Some(v) => {
            proof {
                crate::uint::lemma_below_limit(v);
            }
            Ok(v)
        },
        None => Err(Refusal::TooLarge),
    }
}

/// What a refusal says.
fn say_refusal(refusal: &Refusal, input: &str, decimals: u8) -> (r: String)
    ensures
        r@ == refusal_text(*refusal, input@, decimals as nat),
{
    match refusal {
        Refusal::Missing => "enter an amount".to_owned(),
        Refusal::Negative => "an amount cannot be negative".to_owned(),
        Refusal::Malformed => {
            let mut out = "'".to_owned();
            out.append(input);
            out.append("' is not an amount — use digits and at most one decimal point");
            out
        },
        Refusal::TooPrecise { given } => {
            let mut out = "that amount has ".to_owned();
            out.append(decimal_text(*given as u64).as_str());
            out.append(" decimals; at most ");
            out.append(decimal_text(decimals as u64).as_str());
            out.append(" are allowed");
            out
        },
        Refusal::TooLarge => "that amount is too large".to_owned(),
    }
}

/// The amount in base units that a human decimal writes for an asset of `decimals` decimals.
pub fn parse_units(input: &str, decimals: u8) -> (r: Result<U256, String>)
    ensures
        match units_outcome(input@, decimals as nat) {
            Ok(n) => r matches Ok(v) && v@ == n,
            Err(why) => r matches Err(e) && e@ == refusal_text(why, input@, decimals as nat),
        },
{
    match read_units(input, decimals) {
        Ok(v) => Ok(v),
        Err(why) => Err(say_refusal(&why, input, decimals)),
    }
}

/// The number that `input` writes in base sixteen behind `0x` or `0X`, in base ten otherwise;
/// nothing where it writes none or 256 bits do not hold it.
pub open spec fn any_value(input: Seq<char>) -> Option<nat> {
    let t = text::trimmed(input);
    let prefixed = t.len() >= 2 && t[0] == '0' && (t[1] == 'x' || t[1] == 'X');
    let s = if prefixed {
        t.skip(2)
    } else {
        t
    };
    let radix = if prefixed {
        16int
    } else {
        10
    };
    if s.len() > 0 && digits::is_numeral(s, radix) && digits::numeral_value(s, radix)
        < uint::limit() {
        Some(digits::numeral_value(s, radix) as nat)
    } else {
        None
    }
}

/// The number that `input` writes in base sixteen behind `0x` or `0X`, in base ten otherwise.
pub fn parse_u256_any(input: &str) -> (r: Option<U256>)
    ensures
        match any_value(input@) {
            Some(n) => r matches Some(v) && v@ == n,
            None => r is None,
        },
{
    let t = trim(input);
    let n: usize = t.unicode_len();
    let prefixed = n >= 2 && t.get_char(0) == '0' && (t.get_char(1) == 'x' || t.get_char(1) == 'X');
    let s = if prefixed {
        t.substring_char(2, n)
    } else {
        t
    };
    assert(prefixed ==> s@ =~= t@.skip(2));
    if s.unicode_len() == 0 {
        return None;
    }
    let radix: u64 = if prefixed {
        16
    } else {
        10
    };
    let r = U256::from_str_radix(s, radix);
    proof {
        if r is Some {
            uint::lemma_below_limit(r->0);
        }
    }
    r
}

/// Whether a refusal names a limit that the asset's decimals explain.
pub open spec fn names_limit(refusal: Refusal) -> bool {
    refusal is Malformed || refusal is TooPrecise
}

/// The amount in base units that a request asks for: `amount` in base units already, or
/// `amount_units` as a human decimal of an asset with `decimals` decimals; or what a refusal says.
pub open spec fn amount_outcome(
    amount: Option<Seq<char>>,
    amount_units: Option<Seq<char>>,
    decimals: nat,
    symbol: Seq<char>,
) -> Result<nat, Seq<char>> {
    match (amount, amount_units) {
        (Some(_), Some(_)) => Err("send either `amount` or `amountUnits`, not both"@),
        (None, None) => Err("no amount"@),
        (Some(raw), None) => match any_value(raw) {
            Some(n) => Ok(n),
            None => Err("amount '"@ + raw + "' is not a number"@),
        },
        (None, Some(human)) => match units_outcome(human, decimals) {
            Ok(n) => Ok(n),
            Err(why) => Err(
                if names_limit(why) {
                    symbol + " has "@ + digits::decimal(decimals) + " decimals; "@ + refusal_text(
                        why,
                        human,
                        decimals,
                    )
                } else {
                    refusal_text(why, human, decimals)
                },
            ),
        },
    }
}

/// The text of an optional string.
pub open spec fn given(s: Option<&str>) -> Option<Seq<char>> {
    match s {
        Some(t) => Some(t@),
        None => None,
    }
}

/// The amount in base units that a request asks for. Naming both `amount` and `amount_units` is
/// refused, and so is naming neither.
pub fn resolve_amount(
    amount: Option<&str>,
    amount_units: Option<&str>,
    decimals: u8,
    symbol: &str,
) -> (r: Result<U256, String>)
    ensures
        match amount_outcome(given(amount), given(amount_units), decimals as nat, symbol@) {
            Ok(n) => r matches Ok(v) && v@ == n,
            Err(why) => r matches Err(e) && e@ == why,
        },
{
    match (amount, amount_units) {
        (Some(_), Some(_)) => Err("send either `amount` or `amountUnits`, not both".to_owned()),
        (None, None) => Err("no amount".to_owned()),
        (Some(raw), None) => match parse_u256_any(raw) {
            Some(v) => Ok(v),
            None => {
                let mut out = "amount '".to_owned();
                out.append(raw);
                out.append("' is not a number");
                Err(out)
            },
        },
        (None, Some(human)) => match read_units(human, decimals) {
            Ok(v) => Ok(v),
            Err(why) => {
                let said = say_refusal(&why, human, decimals);
                let limited = match why {
                    Refusal::Malformed => true,
                    Refusal::TooPrecise { given: _ } => true,
                    _ => false,
                };
                if limited {
                    let mut out = symbol.to_owned();
                    out.append(" has ");
                    out.append(decimal_text(decimals as u64).as_str());
                    out.append(" decimals; ");
                    out.append(said.as_str());
                    Err(out)
                } else {
                    Err(said)
                }
            },
        },
    }
}

/// The digits of a raw amount: the text without white space around it, where that is made of
/// decimal digits.
pub open spec fn raw_digits(raw: Seq<char>) -> Option<Seq<char>> {
    let t = text::trimmed(raw);
    if t.len() > 0 && digits::all_digits(t) {
        Some(t)
    } else {
        None
    }
}

/// The number of base units that a raw amount writes.
pub open spec fn raw_value(raw: Seq<char>) -> Option<nat> {
    match raw_digits(raw) {
        Some(t) => Some(digits::numeral_value(t, 10) as nat),
        None => None,
    }
}

/// A raw amount written out exactly, every digit kept.
pub open spec fn exact_text(raw: Seq<char>, decimals: nat) -> Option<Seq<char>> {
    match raw_value(raw) {
        Some(n) => Some(digits::rendered(n, decimals)),
        None => None,
    }
}

/// The number of fraction digits that a display amount of an asset with `decimals` decimals shows.
pub open spec fn shown_places(decimals: nat) -> nat {
    if decimals < DISPLAY_PLACES {
        decimals
    } else {
        DISPLAY_PLACES as nat
    }
}

/// What stands for an amount too small to show at `places` fraction digits.
pub open spec fn dust(places: nat) -> Seq<char> {
    "<0."@ + digits::zeros((places - 1) as nat) + "1"@
}

/// A raw amount as it is displayed: cut to the shown places, never rounded up, and never turned
/// into zero. Amounts beyond 256 bits have no display text.
pub open spec fn display_text(raw: Seq<char>, decimals: nat) -> Option<Seq<char>> {
    let places = shown_places(decimals);
    let unit = digits::tens((decimals - places) as nat);
    match raw_value(raw) {
        None => None,
        Some(n) => if n >= uint::limit() {
            None
        } else if n == 0 {
            Some("0"@)
        } else if places == 0 {
            Some(digits::decimal(n))
        } else if n < unit {
            Some(dust(places))
        } else {
            Some(digits::rendered(n / unit, places))
        },
    }
}

/// The digits of a raw amount.
fn decimal(raw: &str) -> (r: Option<Vec<char>>)
    ensures
        match raw_digits(raw@) {
            Some(t) => r matches Some(v) && v@ == t,
            None => r is None,
        },
{
    let t = chars_of(trim(raw));
    if t.len() == 0 {
        return None;
    }
    let mut i: usize = 0;
    while i < t.len()
        invariant
            i <= t@.len(),
            t@ == text::trimmed(raw@),
            forall|j: int| 0 <= j < i ==> digits::is_digit(#[trigger] t@[j]),
        decreases t@.len() - i,
    {
        if !('0' <= t[i] && t[i] <= '9') {
            assert(!digits::is_digit(t@[i as int]));
            return None;
        }
        i = i + 1;
    }
    Some(t)
}

/// A digit text cut `places` digits before its end, zeros taken off the front of the one part and
/// off the end of the other, is its value written out at `places` decimals.
proof fn lemma_layout(s: Seq<char>, places: nat)
    requires
        digits::all_digits(s),
        places <= s.len(),
    ensures
        ({
            let n = digits::numeral_value(s, 10) as nat;
            let whole = digits::no_front_zeros(s.take(s.len() - places));
            let shown = if whole.len() == 0 {
                seq!['0']
            } else {
                whole
            };
            let fraction = digits::no_back_zeros(s.skip(s.len() - places));
            digits::rendered(n, places) == if fraction.len() == 0 {
                shown
            } else {
                shown + seq!['.'] + fraction
            }
        }),
{
    let head = s.take(s.len() - places);
    let tail = s.skip(s.len() - places);
    digits::lemma_value_bound(s);
    digits::lemma_value_split(s, places);
    assert(digits::all_digits(head)) by {
        assert forall|k: int| 0 <= k < head.len() implies digits::is_digit(#[trigger] head[k]) by {
            assert(digits::is_digit(s[k]));
        }
    }
    assert(digits::all_digits(tail)) by {
        assert forall|k: int| 0 <= k < tail.len() implies digits::is_digit(#[trigger] tail[k]) by {
            assert(digits::is_digit(s[k + s.len() - places]));
        }
    }
    digits::lemma_no_front_zeros(head);
    digits::lemma_decimal(0);
    digits::lemma_fixed_of_value(tail);
    digits::lemma_tens(places);
    let n = digits::numeral_value(s, 10) as nat;
    digits::lemma_value_bound(head);
    assert(digits::numeral_value(head, 10) as nat == n / digits::tens(places));
    assert(digits::numeral_value(tail, 10) as nat == n % digits::tens(places));
    assert(tail == digits::fixed(n % digits::tens(places), places));
}

/// `ds` with zeros in front of it, so that more than `places` digits stand there.
fn padded_digits(ds: &[char], places: u8) -> (r: Vec<char>)
    requires
        digits::all_digits(ds@),
    ensures
        digits::all_digits(r@),
        r@.len() > places,
        digits::numeral_value(r@, 10) == digits::numeral_value(ds@, 10),
{
    let mut padded: Vec<char> = Vec::new();
    let mut i: usize = ds.len();
    while i <= places as usize
        invariant
            padded@ == digits::zeros(padded@.len()),
            ds@.len() <= i,
            i <= places + 1 || i == ds@.len(),
            padded@.len() == i - ds@.len(),
        decreases places + 1 - i,
    {
        padded.push('0');
        i = i + 1;
        assert(padded@ =~= digits::zeros(padded@.len()));
    }
    let ghost front = padded@;
    let mut j: usize = 0;
    assert(front + ds@.take(0) =~= front);
    while j < ds.len()
        invariant
            j <= ds@.len(),
            padded@ == front + ds@.take(j as int),
        decreases ds@.len() - j,
    {
        padded.push(ds[j]);
        j = j + 1;
        assert(padded@ =~= front + ds@.take(j as int));
    }
    proof {
        assert(ds@.take(j as int) =~= ds@);
        digits::lemma_zeros_value(front.len());
        digits::lemma_value_append(front, ds@);
        digits::lemma_tens(ds@.len());
        assert(0 * digits::tens(ds@.len()) == 0);
        assert forall|k: int| 0 <= k < padded@.len() implies digits::is_digit(
            #[trigger] padded@[k],
        ) by {
            if k >= front.len() {
                assert(padded@[k] == ds@[k - front.len()]);
            }
        }
    }
    padded
}

/// `ds` written with a point `places` digits before its end.
fn render(ds: &[char], places: u8) -> (r: String)
    requires
        digits::all_digits(ds@),
    ensures
        r@ == digits::rendered(digits::numeral_value(ds@, 10) as nat, places as nat),
{
    let padded = padded_digits(ds, places);
    let split: usize = padded.len() - places as usize;
    let mut from: usize = 0;
    let ghost head = padded@.take(split as int);
    let ghost tail = padded@.skip(split as int);
    assert(head.skip(0) =~= head);
    while from < split && padded[from] == '0'
        invariant
            from <= split <= padded@.len(),
            head == padded@.take(split as int),
            digits::no_front_zeros(head) == digits::no_front_zeros(head.skip(from as int)),
        decreases split - from,
    {
        assert(head.skip(from as int).drop_first() =~= head.skip(from + 1));
        from = from + 1;
    }
    let mut to: usize = padded.len();
    assert(tail =~= padded@.subrange(split as int, to as int));
    while to > split && padded[to - 1] == '0'
        invariant
            split <= to <= padded@.len(),
            digits::no_back_zeros(tail) == digits::no_back_zeros(
                padded@.subrange(split as int, to as int),
            ),
        decreases to - split,
    {
        assert(padded@.subrange(split as int, to as int).drop_last() =~= padded@.subrange(
            split as int,
            to - 1,
        ));
        to = to - 1;
    }
    assert(head.skip(from as int) =~= padded@.subrange(from as int, split as int));
    let mut out = if from == split {
        "0".to_owned()
    } else {
        string_of(vstd::slice::slice_subrange(padded.as_slice(), from, split))
    };
    proof {
        lemma_layout(padded@, places as nat);
        reveal_strlit("0");
        assert("0"@ =~= seq!['0']);
    }
    if to > split {
        let ghost shown = out@;
        out.push('.');
        out.append(
            string_of(vstd::slice::slice_subrange(padded.as_slice(), split, to)).as_str(),
        );
        assert(shown.push('.') =~= shown + seq!['.']);
    }
    out
}

/// A raw amount of base units written out exactly for an asset of `decimals` decimals.
pub fn format_exact(raw: &str, decimals: u8) -> (r: Option<String>)
    ensures
        match exact_text(raw@, decimals as nat) {
            Some(t) => r matches Some(s) && s@ == t,
            None => r is None,
        },
{
    match decimal(raw) {
        Some(ds) => Some(render(ds.as_slice(), decimals)),
        None => None,
    }
}

/// What stands for an amount too small to show at `places` fraction digits.
fn dust_text(places: u8) -> (r: String)
    requires
        places > 0,
    ensures
        r@ == dust(places as nat),
{
    let mut out = "<0.".to_owned();
    let mut i: u8 = 1;
    assert("<0."@ + digits::zeros(0) =~= "<0."@);
    while i < places
        invariant
            1 <= i <= places,
            out@ == "<0."@ + digits::zeros((i - 1) as nat),
        decreases places - i,
    {
        out.push('0');
        i = i + 1;
        assert(out@ =~= "<0."@ + digits::zeros((i - 1) as nat));
    }
    out.append("1");
    out
}

/// A raw amount of base units as it is displayed for an asset of `decimals` decimals.
pub fn format_display(raw: &str, decimals: u8) -> (r: Option<String>)
    ensures
        match display_text(raw@, decimals as nat) {
            Some(t) => r matches Some(s) && s@ == t,
            None => r is None,
        },
{
    let ds = match decimal(raw) {
        Some(ds) => ds,
        None => return None,
    };
    proof {
        digits::lemma_value_bound(ds@);
    }
    let value = match U256::from_str_radix(string_of(ds.as_slice()).as_str(), 10) {
        Some(v) => v,
        None => return None,
    };
    proof {
        uint::lemma_below_limit(value);
    }
    if value.is_zero() {
        return Some("0".to_owned());
    }
    let places: u8 = if decimals < DISPLAY_PLACES {
        decimals
    } else {
        DISPLAY_PLACES
    };
    if places == 0 {
        return Some(value.to_decimal());
    }
    let hidden: u8 = decimals - places;
    let ghost unit = digits::tens(hidden as nat);
    proof {
        digits::lemma_tens(hidden as nat);
    }
    let threshold = match U256::from(10).checked_pow(&U256::from(hidden as u64)) {
        Some(v) => v,
        // The smallest shown amount is beyond 256 bits, so every amount is below it.
        None => return Some(dust_text(places)),
    };
    if value.is_below(&threshold) {
        return Some(dust_text(places));
    }
    proof {
        if ds@.len() <= hidden {
            digits::lemma_tens(ds@.len());
            lemma_pow_increases(10, ds@.len(), hidden as nat);
        }
        digits::lemma_value_split(ds@, hidden as nat);
    }
    let kept = vstd::slice::slice_subrange(ds.as_slice(), 0, ds.len() - hidden as usize);
    proof {
        assert(kept@ =~= ds@.take(ds@.len() - hidden));
        assert forall|k: int| 0 <= k < kept@.len() implies digits::is_digit(
            #[trigger] kept@[k],
        ) by {
            assert(digits::is_digit(ds@[k]));
        }
    }
    Some(render(kept, places))
}

/// `v` with the display text and the exact text of a raw amount written beside `key`, each where
/// there is one.
pub open spec fn decorated(
    v: JsonView,
    key: Seq<char>,
    raw: Seq<char>,
    decimals: nat,
) -> JsonView {
    let shown = match display_text(raw, decimals) {
        Some(t) => json::put(v, key + "Display"@, JsonView::Text(t)),
        None => v,
    };
    match exact_text(raw, decimals) {
        Some(t) => json::put(shown, key + "Exact"@, JsonView::Text(t)),
        None => shown,
    }
}

/// Writes the display text and the exact text of `raw` into `value`, under `key` with `Display`
/// and `Exact` behind it.
pub fn decorate(value: &mut Json, key: &str, raw: &str, decimals: u8)
    requires
        json::writable(old(value)@) || exact_text(raw@, decimals as nat) is None,
    ensures
        final(value)@ == decorated(old(value)@, key@, raw@, decimals as nat),
{
    match format_display(raw, decimals) {
        Some(display) => value.set(joined(key, "Display").as_str(), Json::Text(display)),
        None => {},
    }
    match format_exact(raw, decimals) {
        Some(exact) => value.set(joined(key, "Exact").as_str(), Json::Text(exact)),
        None => {},
    }
}

/// The first point of a text is where a point stands that none comes before.
proof fn lemma_point(s: Seq<char>, k: int)
    requires
        0 <= k <= s.len(),
        forall|j: int| 0 <= j < k ==> #[trigger] s[j] != '.',
        k < s.len() ==> s[k] == '.',
    ensures
        point(s) == k,
    decreases s.len(),
{
    if k > 0 {
        assert(s[0] != '.');
        assert forall|j: int| 0 <= j < k - 1 implies #[trigger] s.drop_first()[j] != '.' by {
            assert(s[j + 1] != '.');
        }
        lemma_point(s.drop_first(), k - 1);
    }
}

/// A text with no white space at its ends is its own trimmed text.
proof fn lemma_trimmed_same(s: Seq<char>)
    requires
        s.len() > 0,
        !text::is_white(s[0]),
        !text::is_white(s.last()),
    ensures
        text::trimmed(s) == s,
{
}

/// An exact text reads as the whole part and the fraction that it was written from.
proof fn lemma_rendered_parts(n: nat, places: nat)
    ensures
        ({
            let t = digits::rendered(n, places);
            let w = whole_part(t);
            let f = fraction_part(t);
            &&& t.len() > 0
            &&& t[0] != '-'
            &&& text::trimmed(t) == t
            &&& is_amount(t)
            &&& w.len() > 0
            &&& f.len() <= places
            &&& digits::numeral_value(w + f, 10) * digits::tens((places - f.len()) as nat) == n
        }),
{
    let t = digits::rendered(n, places);
    let unit = digits::tens(places);
    let high = n / unit;
    let low = n % unit;
    let w = digits::decimal(high);
    let full = digits::fixed(low, places);
    let f = digits::no_back_zeros(full);
    digits::lemma_decimal(high);
    digits::lemma_tens(places);
    digits::lemma_fixed(low, places);
    digits::lemma_no_back_zeros(full);
    let rest = (places - f.len()) as nat;
    assert forall|j: int| 0 <= j < w.len() implies #[trigger] w[j] != '.' && w[j] != '-'
        && !text::is_white(w[j]) by {
        assert(digits::is_digit(w[j]));
    }
    assert forall|j: int| 0 <= j < f.len() implies #[trigger] f[j] != '.' && !text::is_white(
        f[j],
    ) by {
        assert(digits::is_digit(f[j]));
    }
    assert(w[0] != '-');
    if f.len() == 0 {
        assert(t == w);
        lemma_point(t, t.len() as int);
        assert(whole_part(t) =~= w);
        assert(fraction_part(t) =~= f);
        assert(!text::is_white(w[w.len() - 1]));
    } else {
        assert forall|j: int| 0 <= j < w.len() implies #[trigger] t[j] != '.' by {
            assert(t[j] == w[j]);
        }
        lemma_point(t, w.len() as int);
        assert(whole_part(t) =~= w);
        assert(fraction_part(t) =~= f);
        assert(t.last() == f[f.len() - 1]);
        assert(t[0] == w[0]);
    }
    lemma_trimmed_same(t);
    assert forall|i: int| 0 <= i < t.len() implies digits::is_digit(#[trigger] t[i]) || t[i]
        == '.' by {
        if i < w.len() {
            assert(t[i] == w[i]);
            assert(digits::is_digit(w[i]));
        } else if i > w.len() {
            assert(t[i] == f[i - w.len() - 1]);
            assert(digits::is_digit(f[i - w.len() - 1]));
        }
    }
    assert forall|i: int, j: int| 0 <= i < j < t.len() implies !(#[trigger] t[i] == '.'
        && #[trigger] t[j] == '.') by {
        if i < w.len() {
            assert(t[i] == w[i]);
        } else if j > w.len() {
            assert(t[j] == f[j - w.len() - 1]);
        }
    }
    digits::lemma_value_append(w, f);
    let vf = digits::numeral_value(f, 10);
    let a = digits::tens(f.len()) as int;
    let b = digits::tens(rest) as int;
    digits::lemma_tens(f.len());
    digits::lemma_tens(rest);
    lemma_pow_adds(10, f.len(), rest);
    assert(a * b == unit);
    assert((high * a + vf) * b == high * (a * b) + vf * b) by (nonlinear_arith);
    vstd::arithmetic::div_mod::lemma_fundamental_div_mod(n as int, unit as int);
    vstd::arithmetic::div_mod::lemma_small_mod(low, unit);
    assert(high * unit == unit * high) by (nonlinear_arith);
    assert(vf * b == low);
}

/// A number in decimal is the raw amount of that number.
pub proof fn lemma_raw_of_decimal(n: nat)
    ensures
        raw_value(digits::decimal(n)) == Some(n),
{
    let t = digits::decimal(n);
    digits::lemma_decimal(n);
    assert(digits::is_digit(t[0]) && digits::is_digit(t[t.len() - 1]));
    lemma_trimmed_same(t);
}

/// What [`format_exact`] writes, [`parse_units`] reads back as the same number of base units: no
/// digit is lost or made up on the way.
pub proof fn law_exact_text_reads_back(raw: Seq<char>, decimals: nat)
    requires
        raw_value(raw) is Some,
        raw_value(raw)->0 < uint::limit(),
    ensures
        units_outcome(exact_text(raw, decimals)->0, decimals) == Ok::<nat, Refusal>(
            raw_value(raw)->0,
        ),
{
    lemma_rendered_parts(raw_value(raw)->0, decimals);
}

/// Two amounts that [`format_exact`] writes alike are one amount.
pub proof fn law_exact_text_tells_amounts_apart(a: Seq<char>, b: Seq<char>, decimals: nat)
    requires
        raw_value(a) is Some,
        raw_value(b) is Some,
        exact_text(a, decimals) == exact_text(b, decimals),
    ensures
        raw_value(a) == raw_value(b),
{
    lemma_rendered_parts(raw_value(a)->0, decimals);
    lemma_rendered_parts(raw_value(b)->0, decimals);
}

/// [`format_display`] shows `0` for nothing but zero: an amount too small to show is shown as
/// less than the smallest shown amount.
pub proof fn law_display_never_turns_dust_into_zero(raw: Seq<char>, decimals: nat)
    requires
        display_text(raw, decimals) is Some,
    ensures
        display_text(raw, decimals)->0 == "0"@ <==> raw_value(raw) == Some(0nat),
{
    let n = raw_value(raw)->0;
    let places = shown_places(decimals);
    let unit = digits::tens((decimals - places) as nat);
    reveal_strlit("0");
    reveal_strlit("<0.");
    digits::lemma_decimal(0);
    digits::lemma_tens((decimals - places) as nat);
    digits::lemma_tens(places);
    assert("0"@ =~= seq!['0']);
    if n > 0 {
        if places == 0 {
            if digits::decimal(n) == digits::decimal(0) {
                digits::lemma_value_injective_of_decimal(n, 0);
            }
        } else if n < unit {
            assert(dust(places)[0] == '<');
            assert("0"@[0] == '0');
        } else {
            let q = n / unit;
            assert(q >= 1) by (nonlinear_arith)
                requires
                    n >= unit,
                    unit > 0,
                    q == n / unit,
            ;
            lemma_rendered_parts(q, places);
            lemma_rendered_parts(0, places);
            digits::lemma_fixed(0, places);
            digits::lemma_rendered_zero(places);
        }
    }
}

/// A display text that shows digits shows no more than is there, and less than one smallest shown
/// amount less.
pub proof fn law_display_never_overstates(raw: Seq<char>, decimals: nat)
    requires
        raw_value(raw) is Some,
        display_text(raw, decimals) is Some,
        raw_value(raw)->0 >= digits::tens((decimals - shown_places(decimals)) as nat),
    ensures
        ({
            let n = raw_value(raw)->0;
            let unit = digits::tens((decimals - shown_places(decimals)) as nat);
            exists|shown: nat|
                display_text(raw, decimals)->0 == #[trigger] digits::rendered(
                    shown,
                    shown_places(decimals),
                ) && shown * unit <= n < (shown + 1) * unit
        }),
{
    let n = raw_value(raw)->0;
    let places = shown_places(decimals);
    let unit = digits::tens((decimals - places) as nat);
    let shown = n / unit;
    digits::lemma_tens((decimals - places) as nat);
    digits::lemma_tens(0);
    assert(shown * unit <= n < (shown + 1) * unit) by (nonlinear_arith)
        requires
            unit > 0,
            shown == n / unit,
    ;
    if places == 0 {
        assert(n / 1 == n && n % 1 == 0);
        assert(digits::fixed(0, 0) =~= Seq::empty());
        assert(digits::rendered(n, 0) == digits::decimal(n));
    }
    assert(n > 0) by (nonlinear_arith)
        requires
            n >= unit,
            unit > 0,
    ;
    assert(display_text(raw, decimals)->0 == digits::rendered(shown, places));
}

/// An amount is scaled exactly or refused: what is read, times ten to the number of fraction
/// digits, is the digits of the input times ten to the number of decimals; and an amount with more
/// fraction digits than the asset has decimals is refused.
pub proof fn law_human_amounts_are_scaled_exactly(input: Seq<char>, decimals: nat)
    ensures
        ({
            let t = text::trimmed(input);
            let w = whole_part(t);
            let f = fraction_part(t);
            &&& units_outcome(input, decimals) matches Ok(n) ==> n * digits::tens(f.len())
                == digits::numeral_value(w + f, 10) * digits::tens(decimals)
            &&& f.len() > decimals ==> units_outcome(input, decimals) is Err
        }),
{
    let t = text::trimmed(input);
    let w = whole_part(t);
    let f = fraction_part(t);
    if units_outcome(input, decimals) is Ok {
        let v = digits::numeral_value(w + f, 10);
        let rest = (decimals - f.len()) as nat;
        digits::lemma_tens(f.len());
        digits::lemma_tens(rest);
        digits::lemma_tens(decimals);
        lemma_pow_adds(10, rest, f.len());
        let a = digits::tens(rest) as int;
        let b = digits::tens(f.len()) as int;
        assert((v * a) * b == v * (a * b)) by (nonlinear_arith);
        let n = units_outcome(input, decimals)->Ok_0;
        assert forall|i: int| 0 <= i < (w + f).len() implies digits::is_digit(
            #[trigger] (w + f)[i],
        ) by {
            let k = point(t);
            lemma_point_bound(t);
            if i < w.len() {
                assert(t[i] == (w + f)[i]);
                lemma_before_point(t, i);
            } else {
                assert(t[k + 1 + i - w.len()] == (w + f)[i]);
                assert(t[k] == '.');
            }
        }
        digits::lemma_value_bound(w + f);
        assert(v * a >= 0) by (nonlinear_arith)
            requires
                v >= 0,
                a > 0,
        ;
    }
}

/// A point stands inside the text, or there is none.
proof fn lemma_point_bound(s: Seq<char>)
    ensures
        0 <= point(s) <= s.len(),
        point(s) < s.len() ==> s[point(s)] == '.',
    decreases s.len(),
{
    if s.len() > 0 && s[0] != '.' {
        lemma_point_bound(s.drop_first());
    }
}

/// No point stands before the first one.
proof fn lemma_before_point(s: Seq<char>, i: int)
    requires
        0 <= i < point(s),
        i < s.len(),
    ensures
        s[i] != '.',
    decreases s.len(),
{
    if i > 0 {
        lemma_before_point(s.drop_first(), i - 1);
    }
}

/// Supplying both amounts is refused, and so is supplying none.
pub proof fn law_one_amount_is_supplied(
    amount: Option<Seq<char>>,
    amount_units: Option<Seq<char>>,
    decimals: nat,
    symbol: Seq<char>,
)
    requires
        amount is Some <==> amount_units is Some,
    ensures
        amount_outcome(amount, amount_units, decimals, symbol) is Err,
{
}

/// Every amount that 256 bits hold has a display text as well as an exact one, whatever the
/// decimals of its asset are.
pub proof fn law_amounts_have_both_texts(n: nat, decimals: nat)
    requires
        n < uint::limit(),
    ensures
        display_text(digits::decimal(n), decimals) is Some,
        exact_text(digits::decimal(n), decimals) == Some(digits::rendered(n, decimals)),
{
    lemma_raw_of_decimal(n);
}

/// The display text is the exact text cut to five places: with at most five decimals it is the
/// exact text itself, otherwise that of the amount without the digits behind the fifth place, and
/// `<0.00001` where nothing but zeros would be left of an amount that is not zero.
pub proof fn law_display_is_the_exact_text_cut_to_five_places(n: nat, decimals: nat)
    requires
        n < uint::limit(),
    ensures
        decimals <= 5 || n == 0 ==> display_text(digits::decimal(n), decimals) == exact_text(
            digits::decimal(n),
            decimals,
        ),
        decimals > 5 && 0 < n < pow(10, (decimals - 5) as nat) ==> display_text(
            digits::decimal(n),
            decimals,
        ) == Some("<0.00001"@),
        decimals > 5 && n >= pow(10, (decimals - 5) as nat) ==> display_text(
            digits::decimal(n),
            decimals,
        ) == exact_text(digits::decimal((n / pow(10, (decimals - 5) as nat) as nat) as nat), 5),
{
    lemma_raw_of_decimal(n);
    digits::lemma_rendered_zero(decimals);
    digits::lemma_tens(0);
    reveal_strlit("0");
    assert("0"@ =~= seq!['0']);
    if decimals == 0 {
        assert(n / 1 == n && n % 1 == 0);
        assert(digits::fixed(0, 0) =~= Seq::empty());
        assert(digits::rendered(n, 0) == digits::decimal(n));
    } else if decimals <= 5 {
        assert(n / 1 == n);
    } else {
        let k = (decimals - 5) as nat;
        digits::lemma_tens(k);
        reveal_strlit("<0.");
        reveal_strlit("1");
        reveal_strlit("<0.00001");
        assert("<0.00001"@ =~= "<0."@ + digits::zeros(4) + "1"@);
        lemma_raw_of_decimal(n / digits::tens(k));
    }
}

/// A raw amount is decimal digits with white space around them at most, and is worth what its
/// digits are worth; anything else is no amount, and has neither text.
pub proof fn law_raw_amounts_are_worth_their_digits(raw: Seq<char>, decimals: nat)
    ensures
        ({
            let t = text::trimmed(raw);
            let written = t.len() > 0 && digits::all_digits(t);
            &&& written ==> raw_value(raw) == Some(digits::numeral_value(t, 10) as nat)
            &&& written ==> exact_text(raw, decimals) == exact_text(
                digits::decimal(digits::numeral_value(t, 10) as nat),
                decimals,
            )
            &&& written ==> display_text(raw, decimals) == display_text(
                digits::decimal(digits::numeral_value(t, 10) as nat),
                decimals,
            )
            &&& !written ==> exact_text(raw, decimals) is None && display_text(raw, decimals)
                is None
            &&& written ==> digits::numeral_value(t, 10) >= 0
        }),
{
    let t = text::trimmed(raw);
    if t.len() > 0 && digits::all_digits(t) {
        digits::lemma_value_bound(t);
        lemma_raw_of_decimal(digits::numeral_value(t, 10) as nat);
    }
}

/// An exact text of an amount is worth the amount: it is a whole part and, where anything is left,
/// a point and a fraction without zeros at its end.
pub proof fn law_exact_texts_are_worth_the_amount(raw: Seq<char>, decimals: nat)
    requires
        exact_text(raw, decimals) is Some,
    ensures
        exists|w: Seq<char>, f: Seq<char>|
            digits::is_writing(
                exact_text(raw, decimals)->0,
                w,
                f,
                digits::numeral_value(text::trimmed(raw), 10),
                decimals,
            ),
{
    let t = text::trimmed(raw);
    digits::lemma_value_bound(t);
    let n = digits::numeral_value(t, 10) as nat;
    digits::law_exact_texts_are_worth_the_number(n, decimals);
    let (w, f) = choose|w: Seq<char>, f: Seq<char>|
        digits::is_writing(digits::rendered(n, decimals), w, f, n as int, decimals);
    assert(digits::is_writing(
        exact_text(raw, decimals)->0,
        w,
        f,
        digits::numeral_value(t, 10),
        decimals,
    ));
}

/// Digits, a point and digits are an amount worth their digits at the asset's decimals, wherever
/// there is a digit and there are no more behind the point than decimals; it is refused only where
/// 256 bits do not hold it.
pub proof fn law_written_amounts_are_scaled(w: Seq<char>, f: Seq<char>, decimals: nat)
    requires
        digits::all_digits(w),
        digits::all_digits(f),
        w.len() + f.len() > 0,
        f.len() <= decimals,
    ensures
        ({
            let n = digits::numeral_value(w + f, 10) * pow(10, (decimals - f.len()) as nat);
            let outcome = if n < uint::limit() {
                Ok(n as nat)
            } else {
                Err(Refusal::TooLarge)
            };
            &&& n >= 0
            &&& units_outcome(w + seq!['.'] + f, decimals) == outcome
            &&& f.len() == 0 ==> units_outcome(w, decimals) == outcome
        }),
{
    let t = w + seq!['.'] + f;
    let d = (decimals - f.len()) as nat;
    digits::lemma_tens(d);
    assert forall|i: int| 0 <= i < (w + f).len() implies digits::is_digit(#[trigger] (w + f)[i]) by {
        if i < w.len() {
            assert((w + f)[i] == w[i]);
        } else {
            assert((w + f)[i] == f[i - w.len()]);
        }
    }
    digits::lemma_value_bound(w + f);
    assert(digits::numeral_value(w + f, 10) * digits::tens(d) >= 0) by (nonlinear_arith)
        requires
            digits::numeral_value(w + f, 10) >= 0,
            digits::tens(d) > 0,
    ;
    assert forall|i: int| 0 <= i < w.len() implies #[trigger] w[i] != '.' && w[i] != '-'
        && !text::is_white(w[i]) by {
        assert(digits::is_digit(w[i]));
    }
    assert forall|i: int| 0 <= i < f.len() implies #[trigger] f[i] != '.' && !text::is_white(
        f[i],
    ) by {
        assert(digits::is_digit(f[i]));
    }
    assert forall|i: int| 0 <= i < t.len() implies (digits::is_digit(#[trigger] t[i]) || t[i]
        == '.') && (t[i] == '.' <==> i == w.len()) by {
        if i < w.len() {
            assert(t[i] == w[i]);
        } else if i > w.len() {
            assert(t[i] == f[i - w.len() - 1]);
        }
    }
    lemma_point(t, w.len() as int);
    assert(whole_part(t) =~= w);
    assert(fraction_part(t) =~= f);
    if f.len() > 0 {
        assert(t.last() == f[f.len() - 1]);
    }
    if w.len() > 0 {
        assert(t[0] == w[0]);
    }
    lemma_trimmed_same(t);
    if f.len() == 0 {
        lemma_point(w, w.len() as int);
        assert(whole_part(w) =~= w);
        assert(fraction_part(w) =~= f);
        assert(!text::is_white(w[w.len() - 1]));
        lemma_trimmed_same(w);
        assert(w + f =~= w);
        assert(t[0] == w[0]);
    }
}

/// Only digits with at most one point among them are an amount: whatever is read holds at least
/// one digit and nothing else but that point, with white space around it at most.
pub proof fn law_only_digits_and_a_point_are_an_amount(input: Seq<char>, decimals: nat)
    requires
        units_outcome(input, decimals) is Ok,
    ensures
        exists|w: Seq<char>, f: Seq<char>|
            {
                &&& digits::all_digits(w)
                &&& digits::all_digits(f)
                &&& w.len() + f.len() > 0
                &&& f.len() <= decimals
                &&& text::trimmed(input) == #[trigger] (w + seq!['.'] + f) || (f.len() == 0
                    && text::trimmed(input) == w)
            },
{
    let t = text::trimmed(input);
    let w = whole_part(t);
    let f = fraction_part(t);
    let k = point(t);
    lemma_point_bound(t);
    assert forall|i: int| 0 <= i < w.len() implies digits::is_digit(#[trigger] w[i]) by {
        assert(w[i] == t[i]);
        lemma_before_point(t, i);
    }
    assert forall|i: int| 0 <= i < f.len() implies digits::is_digit(#[trigger] f[i]) by {
        assert(f[i] == t[k + 1 + i]);
        assert(t[k] == '.');
    }
    let whole = w + seq!['.'] + f;
    if k < t.len() {
        assert(t =~= whole);
    } else {
        assert(t =~= w);
    }
}

/// A base amount is a number in decimal, or in hexadecimal behind `0x`, and is worth what its
/// digits are worth, as far as 256 bits hold it.
pub proof fn law_base_amounts_are_worth_their_digits(s: Seq<char>)
    requires
        s.len() > 0,
    ensures
        digits::all_digits(s) ==> any_value(s) == if digits::numeral_value(s, 10) < uint::limit() {
            Some(digits::numeral_value(s, 10) as nat)
        } else {
            None
        },
        hextext::all_hex(s) ==> any_value(seq!['0', 'x'] + s) == if digits::numeral_value(s, 16)
            < uint::limit() {
            Some(digits::numeral_value(s, 16) as nat)
        } else {
            None
        },
{
    if digits::all_digits(s) {
        assert forall|i: int| 0 <= i < s.len() implies #[trigger] s[i] == '_' || 0
            <= digits::digit_of(s[i]) < 10 by {
            assert(digits::is_digit(s[i]));
        }
        assert(digits::is_digit(s[0]) && digits::is_digit(s[s.len() - 1]));
        if s.len() >= 2 {
            assert(digits::is_digit(s[1]));
        }
        lemma_trimmed_same(s);
    }
    if hextext::all_hex(s) {
        let t = seq!['0', 'x'] + s;
        assert(t.skip(2) =~= s);
        assert(t[0] == '0' && t[1] == 'x');
        assert(t.last() == s[s.len() - 1]);
        assert(0 <= digits::digit_of(s[s.len() - 1]) < 16);
        lemma_trimmed_same(t);
        assert forall|i: int| 0 <= i < s.len() implies #[trigger] s[i] == '_' || 0
            <= digits::digit_of(s[i]) < 16 by {
        }
    }
}

/// The amount of a request is what is given: base units as they are, human units scaled by the
/// decimals.
pub proof fn law_the_amount_is_what_is_given(
    given_text: Seq<char>,
    decimals: nat,
    symbol: Seq<char>,
    n: nat,
)
    ensures
        amount_outcome(Some(given_text), None, decimals, symbol) == Ok::<nat, Seq<char>>(n)
            <==> any_value(given_text) == Some(n),
        amount_outcome(None, Some(given_text), decimals, symbol) == Ok::<nat, Seq<char>>(n)
            <==> units_outcome(given_text, decimals) == Ok::<nat, Refusal>(n),
{
}

/// Decorating with an amount writes its display text and its exact text beside the key, each where
/// there is one, and nothing else.
pub proof fn law_decoration_writes_both_texts(
    v: JsonView,
    key: Seq<char>,
    raw: Seq<char>,
    decimals: nat,
    other: Seq<char>,
)
    requires
        json::writable(v),
    ensures
        ({
            let d = decorated(v, key, raw, decimals);
            &&& display_text(raw, decimals) matches Some(t) ==> json::member(d, key + "Display"@)
                == Some(JsonView::Text(t))
            &&& exact_text(raw, decimals) matches Some(t) ==> json::member(d, key + "Exact"@)
                == Some(JsonView::Text(t))
            &&& other != key + "Display"@ && other != key + "Exact"@ ==> json::member(d, other)
                == json::member(v, other)
            &&& display_text(raw, decimals) is None ==> json::member(d, key + "Display"@)
                == json::member(v, key + "Display"@)
            &&& exact_text(raw, decimals) is None ==> json::member(d, key + "Exact"@)
                == json::member(v, key + "Exact"@)
        }),
{
    let a = key + "Display"@;
    let b = key + "Exact"@;
    reveal_strlit("Display");
    reveal_strlit("Exact");
    assert(a.len() == key.len() + 7 && b.len() == key.len() + 5);
}

/// A base amount is nothing but digits, underscores between them, and `0x` in front of hexadecimal
/// ones.
pub proof fn law_nothing_else_is_a_base_amount(input: Seq<char>, i: int)
    requires
        any_value(input) is Some,
        0 <= i < text::trimmed(input).len(),
    ensures
        text::trimmed(input).len() > 0,
        ({
            let c = text::trimmed(input)[i];
            ||| digits::is_digit(c)
            ||| c == '_'
            ||| text::trimmed(input)[0] == '0' && text::trimmed(input).len() > 2 && (i == 1 && (c
                == 'x' || c == 'X') || i > 1 && ('a' <= c <= 'f' || 'A' <= c <= 'F'))
        }),
{
    let t = text::trimmed(input);
    let prefixed = t.len() >= 2 && t[0] == '0' && (t[1] == 'x' || t[1] == 'X');
    if prefixed {
        let s = t.skip(2);
        if i >= 2 {
            assert(s[i - 2] == t[i]);
        }
    } else {
        assert(t[i] == '_' || 0 <= digits::digit_of(t[i]) < 10);
    }
}

/// A human amount is refused for what is wrong with it: nothing to read, a minus, a character that
/// does not belong, or more fraction digits than the asset has decimals.
pub proof fn law_an_amount_is_refused_for_its_fault(input: Seq<char>, decimals: nat)
    ensures
        ({
            let t = text::trimmed(input);
            let r = units_outcome(input, decimals);
            &&& t.len() == 0 ==> r == Err::<nat, Refusal>(Refusal::Missing)
            &&& t.len() == 1 && t[0] == '.' ==> r == Err::<nat, Refusal>(Refusal::Missing)
            &&& t.len() > 0 && t[0] == '-' ==> r == Err::<nat, Refusal>(Refusal::Negative)
            &&& t.len() > 0 && t[0] != '-' && (exists|i: int|
                0 <= i < t.len() && !digits::is_digit(#[trigger] t[i]) && t[i] != '.') ==> r == Err::<
                nat,
                Refusal,
            >(Refusal::Malformed)
        }),
{
    let t = text::trimmed(input);
    if t.len() == 1 && t[0] == '.' {
        assert(point(t) == 0);
        assert(whole_part(t).len() == 0);
        assert(fraction_part(t).len() == 0);
    }
}

/// A refused amount is told why in these words, with its own fraction digits and the asset's
/// decimals where they matter.
pub proof fn law_a_refused_amount_is_told_why(
    input: Seq<char>,
    decimals: nat,
    symbol: Seq<char>,
    given_places: usize,
)
    ensures
        refusal_text(Refusal::Missing, input, decimals) == "enter an amount"@,
        refusal_text(Refusal::Negative, input, decimals) == "an amount cannot be negative"@,
        refusal_text(Refusal::TooLarge, input, decimals) == "that amount is too large"@,
        refusal_text(Refusal::TooPrecise { given: given_places }, input, decimals)
            == "that amount has "@ + digits::decimal(given_places as nat)
            + " decimals; at most "@ + digits::decimal(decimals) + " are allowed"@,
        amount_outcome(Some(input), None, decimals, symbol) matches Err(e) ==> e == "amount '"@
            + input + "' is not a number"@,
        amount_outcome(None, Some(input), decimals, symbol) matches Err(e) ==> {
            let why = units_outcome(input, decimals)->Err_0;
            e == if why is TooPrecise || why is Malformed {
                symbol + " has "@ + digits::decimal(decimals) + " decimals; "@ + refusal_text(
                    why,
                    input,
                    decimals,
                )
            } else {
                refusal_text(why, input, decimals)
            }
        },
{
}

/// An amount with more fraction digits than the asset has decimals is refused with the number of
/// those digits.
pub proof fn law_a_lossy_amount_is_refused_by_its_places(w: Seq<char>, f: Seq<char>, decimals: nat)
    requires
        digits::all_digits(w),
        digits::all_digits(f),
        f.len() > decimals,
        f.len() <= usize::MAX,
    ensures
        units_outcome(w.push('.') + f, decimals) matches Err(why) && (why matches Refusal::TooPrecise {
            given,
        } && given == f.len()),
{
    let t = w.push('.') + f;
    assert forall|i: int| 0 <= i < w.len() implies #[trigger] w[i] != '.' && w[i] != '-'
        && !text::is_white(w[i]) by {
        assert(digits::is_digit(w[i]));
    }
    assert forall|i: int| 0 <= i < f.len() implies #[trigger] f[i] != '.' && !text::is_white(
        f[i],
    ) by {
        assert(digits::is_digit(f[i]));
    }
    assert forall|i: int| 0 <= i < t.len() implies (digits::is_digit(#[trigger] t[i]) || t[i]
        == '.') && (t[i] == '.' <==> i == w.len()) by {
        if i < w.len() {
            assert(t[i] == w[i]);
        } else if i > w.len() {
            assert(t[i] == f[i - w.len() - 1]);
        }
    }
    lemma_point(t, w.len() as int);
    assert(whole_part(t) =~= w);
    assert(fraction_part(t) =~= f);
    assert(t.last() == f[f.len() - 1]);
    if w.len() > 0 {
        assert(t[0] == w[0]);
    }
    lemma_trimmed_same(t);
}

} // verus!
