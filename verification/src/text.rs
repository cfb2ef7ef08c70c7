//! Numbers as text.

use crate::arithmetic::parts;
use crate::arithmetic::power_of_two;
use crate::single::Single;
use crate::single::INFINITY;
use crate::single::SIGN;
use vstd::arithmetic::div_mod::*;
use vstd::arithmetic::power2::*;
use vstd::prelude::*;
use vstd::string::*;

verus! {

/// A digit.
pub open spec fn digit(d: nat) -> char {
    if d == 0 {
        '0'
    } else if d == 1 {
        '1'
    } else if d == 2 {
        '2'
    } else if d == 3 {
        '3'
    } else if d == 4 {
        '4'
    } else if d == 5 {
        '5'
    } else if d == 6 {
        '6'
    } else if d == 7 {
        '7'
    } else if d == 8 {
        '8'
    } else {
        '9'
    }
}

/// A number in decimal digits.
pub open spec fn decimal(n: nat) -> Seq<char>
    decreases n,
{
    if n < 10 {
        seq![digit(n)]
    } else {
        decimal(n / 10).push(digit(n % 10))
    }
}

/// Ten to the power `k`.
pub open spec fn ten_to(k: nat) -> nat
    decreases k,
{
    if k == 0 {
        1
    } else {
        10 * ten_to((k - 1) as nat)
    }
}

/// The last `width` decimal digits of a number.
pub open spec fn last_digits(n: nat, width: nat) -> Seq<char>
    decreases width,
{
    if width == 0 {
        Seq::empty()
    } else {
        last_digits(n / 10, (width - 1) as nat).push(digit(n % 10))
    }
}

/// A number without sign, rounded to `digits` decimals, in units of the last of them.
pub open spec fn in_decimals(p: nat, digits: nat) -> nat {
    crate::single::nearest_whole(crate::single::magnitude(p) * ten_to(digits), crate::single::units_in_one())
}

/// A number that is written as `size` but for its sign. The sign is kept even where
/// nothing else is left of the number.
pub open spec fn with_minus(x: Single, size: Seq<char>) -> Seq<char> {
    if x.nan() {
        "NaN"@
    } else {
        let unsigned: Seq<char> = if x.finite() {
            size
        } else {
            "inf"@
        };
        if x.negative() {
            "-"@ + unsigned
        } else {
            unsigned
        }
    }
}

/// A number without decimals.
pub open spec fn whole_number(x: Single) -> Seq<char> {
    with_minus(x, decimal(in_decimals(x.pattern(), 0)))
}

/// A number with so many decimals.
pub open spec fn fixed_number(x: Single, digits: nat) -> Seq<char> {
    let n: nat = in_decimals(x.pattern(), digits);
    with_minus(x, decimal(n / ten_to(digits)) + "."@ + last_digits(n, digits))
}

/// A text with spaces before it, up to a width.
pub open spec fn right_aligned(text: Seq<char>, width: nat) -> Seq<char> {
    if text.len() < width {
        Seq::new((width - text.len()) as nat, |i: int| ' ') + text
    } else {
        text
    }
}

/// A digit, as text.
fn digit_text(d: u8) -> (text: &'static str)
    requires
        d < 10,
    ensures
        text@ == seq![digit(d as nat)],
{
    proof {
        reveal_strlit("0");
        reveal_strlit("1");
        reveal_strlit("2");
        reveal_strlit("3");
        reveal_strlit("4");
        reveal_strlit("5");
        reveal_strlit("6");
        reveal_strlit("7");
        reveal_strlit("8");
        reveal_strlit("9");
    }
    let text: &'static str = match d {
        0 => "0",
        1 => "1",
        2 => "2",
        3 => "3",
        4 => "4",
        5 => "5",
        6 => "6",
        7 => "7",
        8 => "8",
        _ => "9",
    };
    assert(text@ =~= seq![digit(d as nat)]);
    text
}

/// A number in decimal digits.
pub fn decimal_text(n: u128) -> (text: String)
    ensures
        text@ == decimal(n as nat),
    decreases n,
{
    if n < 10 {
        digit_text(n as u8).to_owned()
    } else {
        let text: String = decimal_text(n / 10).concat(digit_text((n % 10) as u8));
        assert(text@ =~= decimal(n as nat));
        text
    }
}

/// Where numerator and denominator share a factor, so do quotient and rest.
proof fn lemma_shared_factor(t: nat, unit: nat, c: nat)
    requires
        unit > 0,
        c > 0,
    ensures
        crate::single::nearest_whole(t * c, unit * c) == crate::single::nearest_whole(t, unit),
{
    let below: nat = t / unit;
    let rest: nat = t % unit;
    assert(t == below * unit + rest) by (nonlinear_arith)
        requires
            unit > 0,
            below == t / unit,
            rest == t % unit,
    ;
    assert(t * c == below * (unit * c) + rest * c) by (nonlinear_arith)
        requires
            t == below * unit + rest,
    ;
    assert(0 <= rest * c < unit * c && unit * c > 0) by (nonlinear_arith)
        requires
            0 <= rest < unit,
            c > 0,
    ;
    lemma_fundamental_div_mod_converse(
        (t * c) as int,
        (unit * c) as int,
        below as int,
        (rest * c) as int,
    );
    crate::rounding::lemma_scale(2 * rest as int, unit as int, c as int);
    crate::rounding::lemma_scale(unit as int, 2 * rest as int, c as int);
    assert((2 * rest) * c == 2 * (rest * c)) by (nonlinear_arith);
}

/// What lies below a quarter of a unit rounds to nothing.
proof fn lemma_rounds_to_zero(num: nat, den: nat)
    requires
        4 * num < den,
    ensures
        crate::single::nearest_whole(num, den) == 0,
{
    lemma_fundamental_div_mod_converse(num as int, den as int, 0, num as int);
}

/// The whole number nearest to `factor` times the number that a finite pattern stands for,
/// divided by `factor`, with the rest.
fn split_at(p: u32, factor: u128) -> (r: (u128, u128))
    requires
        p < INFINITY,
        1 <= factor <= 1_000_000,
    ensures
        ({
            let n: nat = crate::single::nearest_whole(
                crate::single::magnitude(p as nat) * factor as nat,
                crate::single::units_in_one(),
            );
            r.0 == n / factor as nat && r.1 == n % factor as nat
        }),
{
    let (t, e): (u32, u32) = parts(p);
    let ghost one: nat = crate::single::units_in_one();
    let ghost m: nat = crate::single::magnitude(p as nat);
    let ghost c: nat = pow2(e as nat);
    proof {
        lemma_pow2_pos(149);
        lemma_pow2_pos(e as nat);
        assert(m * factor == (t * factor) * c) by (nonlinear_arith)
            requires
                m == t * c,
        ;
    }
    if e >= 149 {
        let unit: u128 = power_of_two(e - 149);
        proof {
            let whole: nat = (t * unit) as nat;
            lemma_pow2_adds((e - 149) as nat, 149);
            assert(m * factor == (whole * factor) * one) by (nonlinear_arith)
                requires
                    m == t * c,
                    c == unit * one,
                    whole == t * unit,
            ;
            lemma_fundamental_div_mod_converse(
                (m * factor) as int,
                one as int,
                (whole * factor) as int,
                0,
            );
            lemma_fundamental_div_mod_converse(
                (whole * factor) as int,
                factor as int,
                whole as int,
                0,
            );
            assert(t * unit <= 0xFF_FFFF * 0x100_0000_0000_0000_0000_0000_0000) by (nonlinear_arith)
                requires
                    t <= 0xFF_FFFF,
                    unit <= 0x100_0000_0000_0000_0000_0000_0000,
            ;
        }
        return (t as u128 * unit, 0);
    }
    proof {
        assert(t * factor <= 0x100_0000 * 1_000_000) by (nonlinear_arith)
            requires
                t < 0x100_0000,
                factor <= 1_000_000,
        ;
        lemma_pow2_adds((149 - e) as nat, e as nat);
    }
    let wide: u128 = t as u128 * factor;
    if 149 - e > 64 {
        proof {
            lemma2_to64();
            lemma2_to64_rest();
            lemma_pow2_strictly_increases(64, (149 - e) as nat);
            assert(4 * (wide * c) < one) by (nonlinear_arith)
                requires
                    wide <= 0x100_0000 * 1_000_000,
                    one == pow2((149 - e) as nat) * c,
                    pow2((149 - e) as nat) > 0x1_0000_0000_0000_0000,
                    c > 0,
            ;
            lemma_rounds_to_zero(wide as nat * c, one);
        }
        return (0, 0);
    }
    let unit: u128 = power_of_two(149 - e);
    proof {
        lemma_shared_factor(wide as nat, unit as nat, c);
    }
    let below: u128 = wide / unit;
    let rest: u128 = wide % unit;
    let n: u128 = if 2 * rest > unit || 2 * rest == unit && below % 2 == 1 {
        below + 1
    } else {
        below
    };
    (n / factor, n % factor)
}

/// The last decimal digits of a number.
fn digits_text(n: u128, width: u32) -> (text: String)
    ensures
        text@ == last_digits(n as nat, width as nat),
    decreases width,
{
    if width == 0 {
        String::new()
    } else {
        let text: String = digits_text(n / 10, width - 1).concat(digit_text((n % 10) as u8));
        assert(text@ =~= last_digits(n as nat, width as nat));
        text
    }
}

/// A number that is written as `size` but for its sign.
fn signed_text(x: Single, size: String) -> (text: String)
    ensures
        text@ == with_minus(x, size@),
{
    let p: u32 = x.bits % SIGN;
    if p > INFINITY {
        return "NaN".to_owned();
    }
    let unsigned: String = if p < INFINITY {
        size
    } else {
        "inf".to_owned()
    };
    if x.bits >= SIGN {
        "-".to_owned().concat(unsigned.as_str())
    } else {
        unsigned
    }
}

/// A number without decimals.
pub fn whole_text(x: Single) -> (text: String)
    ensures
        text@ == whole_number(x),
{
    let p: u32 = x.bits % SIGN;
    if p < INFINITY {
        signed_text(x, decimal_text(split_at(p, 1).0))
    } else {
        signed_text(x, String::new())
    }
}

/// The last digits of a number are those of its rest by the power of ten.
proof fn lemma_last_digits(n: nat, width: nat)
    ensures
        last_digits(n, width) == last_digits(n % ten_to(width), width),
        ten_to(width) > 0,
    decreases width,
{
    if width > 0 {
        let less: nat = (width - 1) as nat;
        let power: nat = ten_to(less);
        let rest: nat = n % ten_to(width);
        lemma_last_digits(n / 10, less);
        lemma_last_digits(rest / 10, less);
        assert(rest % 10 == n % 10) by {
            lemma_mod_mod(n as int, 10, power as int);
        }
        assert((rest / 10) % power == (n / 10) % power) by {
            lemma_breakdown(n as int, 10, power as int);
            let high: int = (n / 10) as int % power as int;
            assert(rest == 10 * high + n % 10);
            lemma_mod_bound((n / 10) as int, power as int);
            lemma_small_mod(high as nat, power);
        }
    }
}

/// Ten to the power `k`.
fn power_of_ten(k: u32) -> (r: u128)
    requires
        k <= 6,
    ensures
        r == ten_to(k as nat),
        1 <= r <= 1_000_000,
{
    proof {
        reveal_with_fuel(ten_to, 7);
    }
    match k {
        0 => 1,
        1 => 10,
        2 => 100,
        3 => 1_000,
        4 => 10_000,
        5 => 100_000,
        _ => 1_000_000,
    }
}

/// A number with so many decimals.
pub fn fixed_text(x: Single, digits: u32) -> (text: String)
    requires
        digits <= 6,
    ensures
        text@ == fixed_number(x, digits as nat),
{
    let p: u32 = x.bits % SIGN;
    if p < INFINITY {
        let (whole, rest): (u128, u128) = split_at(p, power_of_ten(digits));
        proof {
            lemma_last_digits(in_decimals(p as nat, digits as nat), digits as nat);
        }
        let size: String = decimal_text(whole).concat(".").concat(
            digits_text(rest, digits).as_str(),
        );
        signed_text(x, size)
    } else {
        signed_text(x, String::new())
    }
}

/// A text with spaces before it, up to a width.
pub fn align_right(text: String, width: usize) -> (r: String)
    ensures
        r@ == right_aligned(text@, width as nat),
{
    let mut r: String = text;
    let mut spaces: usize = 0;
    proof {
        reveal_strlit(" ");
    }
    assert(r@ =~= Seq::new(0, |i: int| ' ') + text@);
    while r.unicode_len() < width
        invariant
            r@ == Seq::new(spaces as nat, |i: int| ' ') + text@,
            spaces > 0 ==> r@.len() <= width,
            " "@.len() == 1 && " "@[0] == ' ',
        decreases width - r@.len(),
    {
        r = " ".to_owned().concat(r.as_str());
        spaces = spaces + 1;
        assert(r@ =~= Seq::new(spaces as nat, |i: int| ' ') + text@);
    }
    r
}

} // verus!
