use vstd::prelude::*;
use crate::text::{nat_digits, push_digits, string_of};

verus! {

/// A decimal quantity held as a whole number of millionths: the value `v`
/// stands for `v / 1_000_000`. Coordinates, sizes, weights and colour
/// channels of a design are carried in this form.
pub type Fixed = i64;

/// Millionths in one unit.
pub const UNITS: i64 = 1000000;

/// Nearest whole number to `v / 1_000_000`, halves rounded away from zero.
pub open spec fn round_units(v: int) -> int {
    if v >= 0 {
        (v + 500000) / 1000000
    } else {
        -((-v + 500000) / 1000000)
    }
}

/// `v / 1_000_000` with the fraction dropped (rounded toward zero).
pub open spec fn trunc_units(v: int) -> int {
    if v >= 0 {
        v / 1000000
    } else {
        -((-v) / 1000000)
    }
}

/// `v` limited to the range `lo..=hi`.
pub open spec fn clamp(v: int, lo: int, hi: int) -> int {
    if v < lo {
        lo
    } else if v > hi {
        hi
    } else {
        v
    }
}

/// `v` limited to the range of `i32`.
pub open spec fn clamp_i32(v: int) -> int {
    clamp(v, i32::MIN as int, i32::MAX as int)
}

/// `v` limited to the range of `i64`.
pub open spec fn clamp_i64(v: int) -> int {
    clamp(v, i64::MIN as int, i64::MAX as int)
}

/// The whole number nearest to a quantity of millionths, limited to `i32`
/// (what `f64::round` followed by a saturating `as i32` gives).
pub fn round_to_i32(v: i128) -> (r: i32)
    requires
        i128::MIN < v,
    ensures
        r == clamp_i32(round_units(v as int)),
{
    let rounded: i128 = if v >= 0 {
        let a: u128 = v as u128;
        ((a + 500000) / 1000000) as i128
    } else {
        let a: u128 = (0 - v) as u128;
        0 - (((a + 500000) / 1000000) as i128)
    };
    if rounded < -2147483648i128 {
        i32::MIN
    } else if rounded > 2147483647i128 {
        i32::MAX
    } else {
        rounded as i32
    }
}

/// A quantity of millionths with its fraction dropped, limited to `i32`
/// (what a saturating `as i32` does to a decimal value).
pub fn trunc_to_i32(v: Fixed) -> (r: i32)
    ensures
        r == clamp_i32(trunc_units(v as int)),
{
    let t: i64 = if v >= 0 {
        v / 1000000
    } else {
        0 - ((0 - (v as i128)) / 1000000) as i64
    };
    if t < -2147483648i64 {
        i32::MIN
    } else if t > 2147483647i64 {
        i32::MAX
    } else {
        t as i32
    }
}

/// A quantity of millionths with its fraction dropped, limited to `u32`
/// (what a saturating `as u32` does to a decimal value).
pub fn trunc_to_u32(v: Fixed) -> (r: u32)
    ensures
        r == clamp(trunc_units(v as int), 0, u32::MAX as int),
{
    if v < 0 {
        0
    } else {
        let t: i64 = v / 1000000;
        if t > 4294967295i64 {
            u32::MAX
        } else {
            t as u32
        }
    }
}

/// One colour channel in `0..=1` (as millionths) scaled to a byte: the
/// channel times 255, rounded, limited to `0..=255`.
pub open spec fn channel_byte_of(c: int) -> int {
    clamp(round_units(c * 255), 0, 255)
}

/// `(c * 255.0).round() as u8` for a channel held as millionths.
pub fn channel_byte(c: Fixed) -> (r: u8)
    ensures
        r == channel_byte_of(c as int),
{
    let scaled: i128 = (c as i128) * 255;
    let r = round_to_i32(scaled);
    if r < 0 {
        0
    } else if r > 255 {
        255
    } else {
        r as u8
    }
}

/// Sum of two quantities, limited to the range of `i64`.
pub fn add_sat(a: Fixed, b: Fixed) -> (r: Fixed)
    ensures
        r == clamp_i64(a + b),
{
    let s: i128 = a as i128 + b as i128;
    if s < -9223372036854775808i128 {
        i64::MIN
    } else if s > 9223372036854775807i128 {
        i64::MAX
    } else {
        s as i64
    }
}

/// The six decimal digits of a fraction `f` in `0..1_000_000` (millionths).
pub open spec fn six_digits(f: int) -> Seq<char> {
    seq![
        crate::text::digit_char((f / 100000) % 10),
        crate::text::digit_char((f / 10000) % 10),
        crate::text::digit_char((f / 1000) % 10),
        crate::text::digit_char((f / 100) % 10),
        crate::text::digit_char((f / 10) % 10),
        crate::text::digit_char(f % 10),
    ]
}

/// A digit sequence with its trailing `0`s removed.
pub open spec fn drop_trailing_zeros(s: Seq<char>) -> Seq<char>
    decreases s.len(),
{
    if s.len() > 0 && s.last() == '0' {
        drop_trailing_zeros(s.drop_last())
    } else {
        s
    }
}

/// Decimal text of a quantity: a `-` for negative values, the whole part,
/// then a `.` and the fraction without trailing zeros when the fraction is
/// not zero (`24`, `24.5`, `-0.25`), as `Display` writes a decimal number.
pub open spec fn fixed_text_of(v: int) -> Seq<char> {
    let a = if v < 0 { -v } else { v };
    let sign = if v < 0 { seq!['-'] } else { seq![] };
    let whole = nat_digits((a / 1000000) as nat);
    let frac = a % 1000000;
    if frac == 0 {
        sign + whole
    } else {
        sign + whole + seq!['.'] + drop_trailing_zeros(six_digits(frac))
    }
}

fn digit_of(d: u128) -> (c: char)
    requires
        d < 10,
    ensures
        c == crate::text::digit_char(d as int),
{
    let b: u8 = (48 + d) as u8;
    assert(b == 48 + d);
    b as char
}

/// The decimal text of a quantity of millionths (see `fixed_text_of`).
pub fn fixed_text(v: Fixed) -> (r: String)
    ensures
        r@ == fixed_text_of(v as int),
{
    let a: u128 = if v < 0 { (0 - (v as i128)) as u128 } else { v as u128 };
    let mut cs: Vec<char> = Vec::new();
    if v < 0 {
        cs.push('-');
    }
    let ghost sign = cs@;
    push_digits(&mut cs, a / 1000000);
    let frac: u128 = a % 1000000;
    if frac != 0 {
        cs.push('.');
        let mut digits: Vec<char> = Vec::new();
        digits.push(digit_of((frac / 100000) % 10));
        digits.push(digit_of((frac / 10000) % 10));
        digits.push(digit_of((frac / 1000) % 10));
        digits.push(digit_of((frac / 100) % 10));
        digits.push(digit_of((frac / 10) % 10));
        digits.push(digit_of(frac % 10));
        assert(digits@ =~= six_digits(frac as int));
        let mut n: usize = 6;
        assert(digits@.take(6) =~= digits@);
        while n > 0 && digits[n - 1] == '0'
            invariant
                0 <= n <= 6,
                digits@.len() == 6,
                digits@ == six_digits(frac as int),
                drop_trailing_zeros(digits@.take(n as int)) == drop_trailing_zeros(six_digits(frac as int)),
            decreases n,
        {
            proof {
                assert(digits@.take(n as int).drop_last() =~= digits@.take(n - 1));
            }
            n = n - 1;
        }
        proof {
            assert(drop_trailing_zeros(digits@.take(n as int)) == digits@.take(n as int));
        }
        let mut i: usize = 0;
        let ghost before = cs@;
        while i < n
            invariant
                0 <= i <= n <= 6,
                digits@.len() == 6,
                cs@ == before + digits@.take(i as int),
            decreases n - i,
        {
            cs.push(digits[i]);
            i = i + 1;
            proof {
                assert(digits@.take(i as int) =~= digits@.take(i - 1).push(digits@[i - 1]));
            }
        }
        proof {
            assert(cs@ =~= fixed_text_of(v as int));
        }
    } else {
        proof {
            assert(cs@ =~= fixed_text_of(v as int));
        }
    }
    string_of(&cs)
}

} // verus!
