//! Sizes as people write them: `human` shows a number of bytes, and
//! `parse_byte_size` reads one.
//!
//! Both go by way of binary numbers of 53 significant bits, as double-precision
//! arithmetic does; the numbers here are whole ones throughout.

use crate::text;
use vstd::prelude::*;

verus! {

// ---------------------------------------------------------------------------
// Rounding
// ---------------------------------------------------------------------------

/// A power of a base.
pub open spec fn power(base: nat, exponent: nat) -> nat
    decreases exponent,
{
    if exponent == 0 {
        1
    } else {
        base * power(base, (exponent - 1) as nat)
    }
}

/// The whole number next to `n / d`; of two that are equally near, the even one.
pub open spec fn half_even(n: nat, d: nat) -> nat {
    let q = n / d;
    let r = n % d;
    if 2 * r > d || (2 * r == d && q % 2 == 1) {
        q + 1
    } else {
        q
    }
}

/// Two to the power of 52 and of 53: numbers of 53 bits lie between them.
pub const BITS_52: u64 = 0x10_0000_0000_0000;

pub const BITS_53: u64 = 0x20_0000_0000_0000;

fn round_half_even(n: u128, d: u128) -> (r: u128)
    requires
        0 < d <= 0x1_0000_0000_0000_0000_0000,
        n <= 0x100_0000_0000_0000_0000_0000_0000_0000,
    ensures
        r == half_even(n as nat, d as nat),
        r <= n + 1,
        r <= n / d + 1,
{
    let q: u128 = n / d;
    let rest: u128 = n % d;
    assert(q <= n) by (nonlinear_arith)
        requires
            q == n / d,
            d >= 1,
    ;
    if 2 * rest > d || (2 * rest == d && q % 2 == 1) {
        q + 1
    } else {
        q
    }
}

/// The distance of neighbouring numbers of 53 bits at `n`.
pub open spec fn double_step(n: nat) -> nat
    decreases n,
{
    if n < BITS_53 {
        1
    } else {
        2 * double_step(n / 2)
    }
}

/// The number of 53 bits that is next to a whole number.
pub open spec fn as_double(n: nat) -> nat {
    half_even(n, double_step(n)) * double_step(n)
}

/// Up to 64 bits the distance is a power of two of at most 2048.
proof fn step_cases(n: nat)
    requires
        n <= 0xffff_ffff_ffff_ffff,
    ensures
        ({
            let s = double_step(n);
            s == 1 || s == 2 || s == 4 || s == 8 || s == 16 || s == 32 || s == 64 || s == 128 || s
                == 256 || s == 512 || s == 1024 || s == 2048
        }),
{
    reveal_with_fuel(double_step, 13);
}

fn step_of(n: u64) -> (r: u128)
    ensures
        r == double_step(n as nat),
        1 <= r <= 2048,
{
    let mut step: u128 = 1;
    let mut rest: u64 = n;
    proof {
        step_cases(n as nat);
    }
    assert(1 * double_step(n as nat) == double_step(n as nat));
    while rest >= BITS_53
        invariant
            double_step(n as nat) == step * double_step(rest as nat),
            double_step(n as nat) <= 2048,
            step >= 1,
        decreases rest,
    {
        let ghost less = double_step((rest / 2) as nat);
        assert(double_step(rest as nat) == 2 * less);
        assert(step * (2 * less) == (step * 2) * less) by (nonlinear_arith);
        proof {
            step_cases((rest / 2) as nat);
        }
        assert(step * 2 <= 2048) by (nonlinear_arith)
            requires
                (step * 2) * less <= 2048,
                less >= 1,
        ;
        step = step * 2;
        rest = rest / 2;
    }
    assert(step * 1 == step);
    step
}

fn to_double(n: u64) -> (r: u128)
    ensures
        r == as_double(n as nat),
        r <= 0x1_0000_0000_0000_0000_0000,
{
    let step: u128 = step_of(n);
    let q: u128 = round_half_even(n as u128, step);
    assert(q * step <= 0x1_0000_0000_0000_0000_0000) by (nonlinear_arith)
        requires
            q <= n + 1,
            step <= 2048,
            n <= 0xffff_ffff_ffff_ffff,
    ;
    q * step
}

// ---------------------------------------------------------------------------
// Showing
// ---------------------------------------------------------------------------

/// The name of a unit; each is 1024 times the one before.
pub open spec fn unit_name(unit: nat) -> Seq<char> {
    if unit == 0 {
        "B"@
    } else if unit == 1 {
        "KiB"@
    } else if unit == 2 {
        "MiB"@
    } else if unit == 3 {
        "GiB"@
    } else if unit == 4 {
        "TiB"@
    } else {
        "PiB"@
    }
}

/// The largest unit that a number of bytes reaches.
pub open spec fn unit_of(n: nat) -> nat {
    if n < 0x400 {
        0
    } else if n < 0x10_0000 {
        1
    } else if n < 0x4000_0000 {
        2
    } else if n < 0x100_0000_0000 {
        3
    } else if n < 0x4_0000_0000_0000 {
        4
    } else {
        5
    }
}

/// The bytes in a unit.
pub open spec fn unit_bytes(unit: nat) -> nat {
    if unit == 0 {
        1
    } else if unit == 1 {
        0x400
    } else if unit == 2 {
        0x10_0000
    } else if unit == 3 {
        0x4000_0000
    } else if unit == 4 {
        0x100_0000_0000
    } else {
        0x4_0000_0000_0000
    }
}

/// A number of tenths with its decimal point.
pub open spec fn tenths(t: nat) -> Seq<char> {
    text::decimal(t / 10) + "."@ + text::decimal(t % 10)
}

/// A number of bytes: below 1024 as it is; above in the largest unit that it
/// reaches, with one decimal where it is less than ten of them.
pub open spec fn human_text(bytes: nat) -> Seq<char> {
    let v = as_double(bytes);
    let unit = unit_of(v);
    let d = unit_bytes(unit);
    if unit == 0 {
        text::decimal(bytes) + " B"@
    } else if v >= 10 * d {
        text::decimal(half_even(v, d)) + " "@ + unit_name(unit)
    } else {
        tenths(half_even(10 * v, d)) + " "@ + unit_name(unit)
    }
}

fn find_unit(v: u128) -> (r: (u128, &'static str))
    ensures
        r.0 == unit_bytes(unit_of(v as nat)),
        r.1@ == unit_name(unit_of(v as nat)),
{
    if v < 0x400 {
        (1, "B")
    } else if v < 0x10_0000 {
        (0x400, "KiB")
    } else if v < 0x4000_0000 {
        (0x10_0000, "MiB")
    } else if v < 0x100_0000_0000 {
        (0x4000_0000, "GiB")
    } else if v < 0x4_0000_0000_0000 {
        (0x100_0000_0000, "TiB")
    } else {
        (0x4_0000_0000_0000, "PiB")
    }
}

/// A number of bytes as text.
pub fn human(bytes: u64) -> (r: String)
    ensures
        r@ == human_text(bytes as nat),
{
    let v: u128 = to_double(bytes);
    if v < 0x400 {
        let shown = text::decimal_text(bytes);
        return text::join2(shown.as_str(), " B");
    }
    let (d, name) = find_unit(v);
    proof {
        double_fits(bytes);
    }
    if v >= 10 * d {
        let q: u128 = round_half_even(v, d);
        assert(q <= 0xffff_ffff_ffff_ffff) by (nonlinear_arith)
            requires
                q == half_even(v as nat, d as nat),
                v <= 0x1_0000_0000_0000_0000,
                d >= 0x400,
        ;
        let shown = text::decimal_text(q as u64);
        text::join3(shown.as_str(), " ", name)
    } else {
        let t: u128 = round_half_even(10 * v, d);
        assert(t <= 100) by (nonlinear_arith)
            requires
                t == half_even((10 * v) as nat, d as nat),
                v < 10 * d,
                d >= 1,
        ;
        let whole = text::decimal_text((t / 10) as u64);
        let rest = text::decimal_text((t % 10) as u64);
        text::join5(whole.as_str(), ".", rest.as_str(), " ", name)
    }
}

/// A number below a multiple of the distance is not rounded beyond it.
proof fn rounding_stays_below(n: nat, step: nat, count: nat)
    requires
        step > 0,
        n < count * step,
    ensures
        half_even(n, step) * step <= count * step,
{
    let q = n / step;
    assert(q < count) by (nonlinear_arith)
        requires
            q == n / step,
            n < count * step,
            step > 0,
    ;
    let r = half_even(n, step);
    assert(r <= q + 1);
    assert(r * step <= count * step) by (nonlinear_arith)
        requires
            r <= count,
    ;
}

/// A number of 64 bits stays one, up to the next power of two.
proof fn double_fits(n: u64)
    ensures
        as_double(n as nat) <= 0x1_0000_0000_0000_0000,
{
    step_cases(n as nat);
    let s = double_step(n as nat);
    let count: nat = if s == 1 {
        0x1_0000_0000_0000_0000
    } else if s == 2 {
        0x8000_0000_0000_0000
    } else if s == 4 {
        0x4000_0000_0000_0000
    } else if s == 8 {
        0x2000_0000_0000_0000
    } else if s == 16 {
        0x1000_0000_0000_0000
    } else if s == 32 {
        0x800_0000_0000_0000
    } else if s == 64 {
        0x400_0000_0000_0000
    } else if s == 128 {
        0x200_0000_0000_0000
    } else if s == 256 {
        0x100_0000_0000_0000
    } else if s == 512 {
        0x80_0000_0000_0000
    } else if s == 1024 {
        0x40_0000_0000_0000
    } else {
        0x20_0000_0000_0000
    };
    assert(count * s == 0x1_0000_0000_0000_0000);
    rounding_stays_below(n as nat, s, count);
}

// ---------------------------------------------------------------------------
// Shares
// ---------------------------------------------------------------------------

/// How often `n` is doubled until `n / d` has 53 bits before the point.
pub open spec fn doublings(n: nat, d: nat) -> nat
    decreases 2 * (BITS_52 * d) - n,
{
    if n == 0 || n >= BITS_52 * d {
        0
    } else {
        1 + doublings(2 * n, d)
    }
}

/// What part of a whole is, in percent: the quotient of two numbers of 53 bits
/// is rounded to such a number, so is a hundred times it, and the rest behind
/// the point is dropped.
pub open spec fn percent_of(part: nat, whole: nat) -> nat {
    if part == 0 || whole == 0 {
        0
    } else {
        let a = as_double(part);
        let b = as_double(whole);
        let shift = power(2, doublings(a, b));
        let quotient = half_even(a * shift, b);
        let step: nat = if quotient * 100 < 0x800_0000_0000_0000 {
            64
        } else {
            128
        };
        half_even(quotient * 100, step) * step / shift
    }
}

proof fn double_of_some(n: u64)
    requires
        n > 0,
    ensures
        as_double(n as nat) > 0,
{
    step_cases(n as nat);
    let s = double_step(n as nat);
    let q = half_even(n as nat, s);
    assert(s == 1 ==> q == n);
    assert(n >= BITS_53 ==> n as nat / s >= 1) by (nonlinear_arith)
        requires
            1 <= s <= 2048,
    ;
    assert(q >= 1);
    assert(q * s >= 1) by (nonlinear_arith)
        requires
            q >= 1,
            s >= 1,
    ;
}

/// What part of a whole is, in whole percent.
pub fn share_percent(part: u64, whole: u64) -> (r: u16)
    requires
        part <= whole,
    ensures
        r == if percent_of(part as nat, whole as nat) <= u16::MAX {
            percent_of(part as nat, whole as nat) as int
        } else {
            u16::MAX as int
        },
{
    if part == 0 || whole == 0 {
        return 0;
    }
    let a: u128 = to_double(part);
    let b: u128 = to_double(whole);
    proof {
        double_of_some(part);
        double_of_some(whole);
        double_fits(part);
        double_fits(whole);
    }
    let mut n: u128 = a;
    let mut shift: u128 = 1;
    let limit: u128 = 0x10_0000_0000_0000 * b;
    let ghost mut steps: nat = 0;
    assert(power(2, 0) == 1);
    assert(a * 1 == a);
    while n < limit
        invariant
            0 < n,
            0 < a <= 0x1_0000_0000_0000_0000,
            0 < b <= 0x1_0000_0000_0000_0000,
            limit == 0x10_0000_0000_0000 * b,
            n < 2 * limit || n == a,
            n == a * shift,
            shift == power(2, steps),
            1 <= shift <= n,
            doublings(a as nat, b as nat) == steps + doublings(n as nat, b as nat),
        decreases 2 * limit - n,
    {
        assert(a * (shift * 2) == (a * shift) * 2) by (nonlinear_arith);
        assert(power(2, steps + 1) == 2 * power(2, steps));
        n = n * 2;
        shift = shift * 2;
        proof {
            steps = steps + 1;
        }
    }
    assert(doublings(n as nat, b as nat) == 0);
    assert(steps == doublings(a as nat, b as nat));
    let quotient: u128 = round_half_even(n, b);
    assert(n / b <= 0x1_0000_0000_0000_0000) by (nonlinear_arith)
        requires
            n < 2 * (0x10_0000_0000_0000 * b) || n <= 0x1_0000_0000_0000_0000,
            b > 0,
    ;
    let step: u128 = if quotient * 100 < 0x800_0000_0000_0000 {
        64
    } else {
        128
    };
    let rounded: u128 = round_half_even(quotient * 100, step);
    let r: u128 = rounded * step / shift;
    if r <= 0xffff {
        r as u16
    } else {
        0xffff
    }
}

// ---------------------------------------------------------------------------
// Laws
// ---------------------------------------------------------------------------

/// A number of bytes below 53 bits is shown in the largest of the six units that
/// it reaches, each of them 1024 times the one before: bytes as they are, ten of
/// a larger unit and more to the nearest whole number, less to the nearest tenth.
pub proof fn sizes_are_shown_to_the_nearest(bytes: nat) -> (r: (nat, nat))
    requires
        bytes < 0x20_0000_0000_0000,
    ensures
        ({
            let (unit, shown) = r;
            let names = seq!["B"@, "KiB"@, "MiB"@, "GiB"@, "TiB"@, "PiB"@];
            let size = power(1024, unit);
            &&& unit <= 5
            &&& unit > 0 ==> size <= bytes
            &&& unit < 5 ==> bytes < 1024 * size
            &&& if unit == 0 {
                shown == bytes && human_text(bytes) == text::decimal(shown) + " B"@
            } else if bytes >= 10 * size {
                &&& human_text(bytes) == text::decimal(shown) + " "@ + names[unit as int]
                &&& 2 * bytes - size <= 2 * (shown * size) <= 2 * bytes + size
            } else {
                &&& human_text(bytes) == text::decimal(shown / 10) + "."@ + text::decimal(
                    shown % 10,
                ) + " "@ + names[unit as int]
                &&& 20 * bytes - size <= 2 * (shown * size) <= 20 * bytes + size
            }
        }),
{
    reveal_with_fuel(power, 6);
    assert(double_step(bytes) == 1);
    assert(as_double(bytes) == bytes);
    let unit = unit_of(bytes);
    let d = unit_bytes(unit);
    assert(power(1024, unit) == d) by {
        assert(1024 * 1024 == 0x10_0000 && 1024 * 0x10_0000 == 0x4000_0000 && 1024 * 0x4000_0000
            == 0x100_0000_0000 && 1024 * 0x100_0000_0000 == 0x4_0000_0000_0000);
    }
    if unit == 0 {
        (unit, bytes)
    } else if bytes >= 10 * d {
        rounding_is_near(bytes, d);
        (unit, half_even(bytes, d))
    } else {
        rounding_is_near(10 * bytes, d);
        (unit, half_even(10 * bytes, d))
    }
}

proof fn rounding_is_near(n: nat, d: nat)
    requires
        d > 0,
    ensures
        2 * n - d <= 2 * (half_even(n, d) * d) <= 2 * n + d,
{
    let (q, r) = (n / d, n % d);
    assert(n == q * d + r && r < d) by (nonlinear_arith)
        requires
            d > 0,
            q == n / d,
            r == n % d,
    ;
    assert((q + 1) * d == q * d + d) by (nonlinear_arith);
}

} // verus!
