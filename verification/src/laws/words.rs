//! Numbers as text.

use crate::single::Single;
use vstd::prelude::*;

verus! {

/// The character is a decimal digit.
pub open spec fn is_digit(c: char) -> bool {
    '0' <= c <= '9'
}

/// All characters are decimal digits.
pub open spec fn all_digits(text: Seq<char>) -> bool {
    forall|i: int| 0 <= i < text.len() ==> is_digit(#[trigger] text[i])
}

/// The number that some digits make.
pub open spec fn number_in(text: Seq<char>) -> int
    decreases text.len(),
{
    if text.len() == 0 {
        0
    } else {
        10 * number_in(text.drop_last()) + (text.last() as int - '0' as int)
    }
}

/// A number is written in digits that make it up, without zeros before it.
pub proof fn law_decimal(n: nat)
    ensures
        all_digits(crate::text::decimal(n)),
        number_in(crate::text::decimal(n)) == n,
        crate::text::decimal(n).len() > 0,
        crate::text::decimal(n)[0] == '0' ==> n == 0 && crate::text::decimal(n).len() == 1,
    decreases n,
{
    let text: Seq<char> = crate::text::decimal(n);
    if n < 10 {
        assert(text.drop_last() =~= Seq::empty());
        reveal_with_fuel(number_in, 2);
        assert(text.last() == crate::text::digit(n));
    } else {
        law_decimal(n / 10);
        assert(text.drop_last() =~= crate::text::decimal(n / 10));
        assert(text.last() == crate::text::digit(n % 10));
    }
}

/// So many digits make up the rest of a number by that power of ten.
pub proof fn law_last_digits(n: nat, width: nat)
    ensures
        all_digits(crate::text::last_digits(n, width)),
        crate::text::last_digits(n, width).len() == width,
        number_in(crate::text::last_digits(n, width)) == n % crate::text::ten_to(width),
        crate::text::ten_to(width) > 0,
        crate::text::ten_to(width + 1) == 10 * crate::text::ten_to(width),
        crate::text::ten_to(0) == 1,
    decreases width,
{
    let text: Seq<char> = crate::text::last_digits(n, width);
    if width > 0 {
        let less: nat = (width - 1) as nat;
        law_last_digits(n / 10, less);
        assert(text.drop_last() =~= crate::text::last_digits(n / 10, less));
        assert(text.last() == crate::text::digit(n % 10));
        vstd::arithmetic::div_mod::lemma_breakdown(
            n as int,
            10,
            crate::text::ten_to(less) as int,
        );
    }
}

/// The number `n` is the whole number nearest to `size`, counted in units, times `factor`;
/// of two that are equally near, the even one.
pub open spec fn rounds_to(n: nat, size: nat, factor: nat) -> bool {
    let one: nat = vstd::arithmetic::power2::pow2(149);
    &&& 2 * crate::laws::numbers::apart((n * one) as int, (size * factor) as int) <= one
    &&& 2 * crate::laws::numbers::apart((n * one) as int, (size * factor) as int) == one ==> n % 2
        == 0
}

/// A number, rounded to decimals, is the nearest one with so many.
proof fn lemma_in_decimals(p: nat, digits: nat)
    ensures
        rounds_to(
            crate::text::in_decimals(p, digits),
            crate::single::magnitude(p),
            crate::text::ten_to(digits),
        ),
{
    let one: nat = vstd::arithmetic::power2::pow2(149);
    let num: nat = crate::single::magnitude(p) * crate::text::ten_to(digits);
    let below: nat = num / one;
    let rest: nat = num % one;
    vstd::arithmetic::power2::lemma_pow2_pos(149);
    assert(num == below * one + rest && rest < one) by (nonlinear_arith)
        requires
            one > 0,
            below == num / one,
            rest == num % one,
    ;
    assert((below + 1) * one == below * one + one) by (nonlinear_arith);
}

/// A finite number without decimals is written with a minus if its sign is set, and then in
/// the digits of the nearest whole number.
pub proof fn law_whole_number(x: Single)
    requires
        x.bits % 0x8000_0000 < 0x7F80_0000,
    ensures
        ({
            let text: Seq<char> = crate::text::whole_number(x);
            let digits: Seq<char> = if x.bits >= 0x8000_0000 {
                text.skip(1)
            } else {
                text
            };
            &&& x.bits >= 0x8000_0000 ==> text[0] == '-'
            &&& digits.len() > 0 && all_digits(digits)
            &&& digits[0] == '0' ==> digits.len() == 1
            &&& number_in(digits) >= 0
            &&& rounds_to(
                number_in(digits) as nat,
                crate::single::magnitude((x.bits % 0x8000_0000) as nat),
                1,
            )
        }),
{
    let n: nat = crate::text::in_decimals(x.pattern(), 0);
    reveal_strlit("-");
    law_decimal(n);
    lemma_in_decimals(x.pattern(), 0);
    if x.bits >= 0x8000_0000 {
        assert(crate::text::whole_number(x).skip(1) =~= crate::text::decimal(n));
    }
}

/// What is no finite number is written in words.
pub proof fn law_no_digits(x: Single, digits: nat)
    ensures
        x.bits % 0x8000_0000 > 0x7F80_0000 ==> crate::text::whole_number(x) == "NaN"@
            && crate::text::fixed_number(x, digits) == "NaN"@,
        x.bits == 0x7F80_0000 ==> crate::text::whole_number(x) == "inf"@
            && crate::text::fixed_number(x, digits) == "inf"@,
        x.bits == 0xFF80_0000 ==> crate::text::whole_number(x) == "-inf"@
            && crate::text::fixed_number(x, digits) == "-inf"@,
{
    reveal_strlit("-");
    reveal_strlit("inf");
    reveal_strlit("-inf");
    assert("-"@ + "inf"@ =~= "-inf"@);
}

/// A finite number with decimals is written with a minus if its sign is set, then in the
/// digits of a whole number, a point, and so many digits; together the digits make up the
/// nearest number with so many decimals.
pub proof fn law_fixed_number(x: Single, digits: nat)
    requires
        x.bits % 0x8000_0000 < 0x7F80_0000,
    ensures
        ({
            let text: Seq<char> = crate::text::fixed_number(x, digits);
            let size: Seq<char> = if x.bits >= 0x8000_0000 {
                text.skip(1)
            } else {
                text
            };
            let point: int = size.len() - digits - 1;
            let whole: Seq<char> = size.take(point);
            let rest: Seq<char> = size.skip(point + 1);
            let n: int = number_in(whole) * crate::text::ten_to(digits) + number_in(rest);
            &&& x.bits >= 0x8000_0000 ==> text[0] == '-'
            &&& point > 0 && size[point] == '.'
            &&& all_digits(whole) && all_digits(rest)
            &&& whole[0] == '0' ==> point == 1
            &&& n >= 0
            &&& rounds_to(
                n as nat,
                crate::single::magnitude((x.bits % 0x8000_0000) as nat),
                crate::text::ten_to(digits),
            )
        }),
{
    let n: nat = crate::text::in_decimals(x.pattern(), digits);
    let power: nat = crate::text::ten_to(digits);
    let text: Seq<char> = crate::text::fixed_number(x, digits);
    let size: Seq<char> = if x.bits >= 0x8000_0000 {
        text.skip(1)
    } else {
        text
    };
    let high: Seq<char> = crate::text::decimal(n / power);
    let low: Seq<char> = crate::text::last_digits(n, digits);
    reveal_strlit("-");
    reveal_strlit(".");
    law_last_digits(n, digits);
    law_decimal(n / power);
    lemma_in_decimals(x.pattern(), digits);
    assert(size =~= high + "."@ + low);
    assert(size.take(size.len() - digits - 1) =~= high);
    assert(size.skip(size.len() - digits) =~= low);
    assert(n == (n / power) * power + n % power) by (nonlinear_arith)
        requires
            power > 0,
    ;
}

/// A text that is aligned is as long as asked for unless it is longer itself; it ends in
/// the text, and before it are spaces only.
pub proof fn law_right_aligned(text: Seq<char>, width: nat)
    ensures
        ({
            let r: Seq<char> = crate::text::right_aligned(text, width);
            &&& text.len() <= width ==> r.len() == width
            &&& text.len() > width ==> r.len() == text.len()
            &&& r.skip(r.len() - text.len()) == text
            &&& forall|i: int| 0 <= i < r.len() - text.len() ==> #[trigger] r[i] == ' '
        }),
{
    let r: Seq<char> = crate::text::right_aligned(text, width);
    assert(r.skip(r.len() - text.len()) =~= text);
}

} // verus!
