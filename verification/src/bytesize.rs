//! Reading a size such as `1.5 GiB`.
//!
//! The number goes through a binary number of 53 significant bits, as double
//! precision has it, before it is rounded to whole bytes. Here that is done on
//! whole numbers: the part in front of the decimal point as a machine number,
//! the part behind it as decimal digits that are doubled as often as needed.

use crate::sizes;
use crate::text;
use vstd::prelude::*;

verus! {

// ---------------------------------------------------------------------------
// The nearest double
// ---------------------------------------------------------------------------

/// How often `n / d` is halved before it is left with 53 bits.
pub open spec fn halvings(n: nat, d: nat) -> nat
    decreases
            if d == 0 || n < sizes::BITS_53 * d {
                0
            } else {
                1 + n - sizes::BITS_53 * d
            },
{
    if d == 0 || n < sizes::BITS_53 * d {
        0
    } else {
        1 + halvings(n, 2 * d)
    }
}

/// The whole number next to the double that is nearest to `n / d`; of two that
/// are equally near to the double, the greater one.
pub open spec fn whole_double(n: nat, d: nat) -> nat {
    if n >= sizes::BITS_53 * d {
        let scale = sizes::power(2, halvings(n, d));
        sizes::half_even(n, scale * d) * scale
    } else {
        let scale = sizes::power(2, sizes::doublings(n, d));
        (2 * sizes::half_even(scale * n, d) + scale) / (2 * scale)
    }
}

/// As a double, `n / d` is more than zero: zero is nearest up to this bound.
pub open spec fn is_above_zero(n: nat, d: nat) -> bool {
    n * sizes::power(2, 1075) > d
}

/// From here on a whole number is too large for a double.
pub open spec fn double_limit() -> nat {
    sizes::power(2, 970) * 0x3f_ffff_ffff_ffff
}

proof fn power_sum(base: nat, a: nat, b: nat)
    ensures
        sizes::power(base, a + b) == sizes::power(base, a) * sizes::power(base, b),
    decreases a,
{
    if a == 0 {
        assert(1 * sizes::power(base, b) == sizes::power(base, b));
    } else {
        power_sum(base, (a - 1) as nat, b);
        assert(base * (sizes::power(base, (a - 1) as nat) * sizes::power(base, b)) == (base
            * sizes::power(base, (a - 1) as nat)) * sizes::power(base, b)) by (nonlinear_arith);
    }
}

proof fn power_grows(base: nat, a: nat, b: nat)
    requires
        base >= 1,
        a <= b,
    ensures
        1 <= sizes::power(base, a) <= sizes::power(base, b),
    decreases b,
{
    if b == 0 {
    } else if a == b {
        power_grows(base, (a - 1) as nat, (a - 1) as nat);
        assert(base * sizes::power(base, (a - 1) as nat) >= 1) by (nonlinear_arith)
            requires
                base >= 1,
                sizes::power(base, (a - 1) as nat) >= 1,
        ;
    } else {
        power_grows(base, a, (b - 1) as nat);
        assert(base * sizes::power(base, (b - 1) as nat) >= sizes::power(base, (b - 1) as nat))
            by (nonlinear_arith)
            requires
                base >= 1,
        ;
    }
}

// ---------------------------------------------------------------------------
// Decimal digits
// ---------------------------------------------------------------------------

/// The number that digits denote.
spec fn value(s: Seq<u8>) -> nat
    decreases s.len(),
{
    if s.len() == 0 {
        0
    } else {
        10 * value(s.drop_last()) + s.last() as nat
    }
}

spec fn is_digits(s: Seq<u8>) -> bool {
    forall|i: int| 0 <= i < s.len() ==> (#[trigger] s[i]) < 10
}

proof fn value_bound(s: Seq<u8>)
    requires
        is_digits(s),
    ensures
        value(s) < sizes::power(10, s.len()),
    decreases s.len(),
{
    if s.len() > 0 {
        assert forall|i: int| 0 <= i < s.drop_last().len() implies (#[trigger] s.drop_last()[i])
            < 10 by {
            assert(s.drop_last()[i] == s[i]);
        }
        value_bound(s.drop_last());
        assert(s[s.len() - 1] < 10);
    }
}

fn digits_of(chars: &Vec<char>, from: usize, to: usize) -> (r: Vec<u8>)
    requires
        from <= to <= chars@.len(),
        text::all_digits(chars@.subrange(from as int, to as int)),
    ensures
        r@.len() == to - from,
        is_digits(r@),
        value(r@) == text::digits_value(chars@.subrange(from as int, to as int)),
{
    let ghost all = chars@.subrange(from as int, to as int);
    let mut r: Vec<u8> = Vec::new();
    let mut i: usize = from;
    assert(all.take(0) =~= Seq::<char>::empty());
    while i < to
        invariant
            from <= i <= to <= chars@.len(),
            all == chars@.subrange(from as int, to as int),
            text::all_digits(all),
            r@.len() == i - from,
            is_digits(r@),
            value(r@) == text::digits_value(all.take(i - from)),
        decreases to - i,
    {
        let c: char = chars[i];
        assert(all[i - from] == c);
        assert(all.take(i - from + 1).drop_last() =~= all.take(i - from));
        let d: u8 = (c as u32 - 48) as u8;
        let ghost before = r@;
        r.push(d);
        assert(r@.drop_last() =~= before);
        i += 1;
    }
    assert(all.take(all.len() as int) =~= all);
    r
}

/// Doubles a fraction in place; the result is what goes over the point.
fn double_fraction(f: &mut Vec<u8>) -> (carry: bool)
    requires
        is_digits(old(f)@),
    ensures
        final(f)@.len() == old(f)@.len(),
        is_digits(final(f)@),
        2 * value(old(f)@) == value(final(f)@) + if carry {
            sizes::power(10, old(f)@.len())
        } else {
            0
        },
{
    let n: usize = f.len();
    let ghost start = f@;
    let carry = n > 0 && f[0] >= 5;
    let ghost over: nat = if carry {
        1
    } else {
        0
    };
    let mut i: usize = 0;
    assert(start.take(0) =~= Seq::<u8>::empty());
    assert(f@.take(0) =~= Seq::<u8>::empty());
    assert(over * 1 == over);
    while i < n
        invariant
            i <= n,
            n == f@.len(),
            n == start.len(),
            is_digits(start),
            is_digits(f@),
            forall|k: int| i <= k < n ==> #[trigger] f@[k] == start[k],
            2 * value(start.take(i as int)) + carry_at(start, i as int) == value(f@.take(i as int))
                + over * sizes::power(10, i as nat),
        decreases n - i,
    {
        let d: u8 = f[i];
        let ghost before = f@;
        let below: u8 = if i + 1 < n && f[i + 1] >= 5 {
            1
        } else {
            0
        };
        assert(d == start[i as int] && d < 10);
        let doubled: u8 = 2 * d + below;
        let digit: u8 = if doubled >= 10 {
            doubled - 10
        } else {
            doubled
        };
        f.set(i, digit);
        proof {
            assert(start.take(i + 1).drop_last() =~= start.take(i as int));
            assert(f@.take(i + 1).drop_last() =~= before.take(i as int));
            assert(f@.take(i + 1).last() == digit);
            assert(over * (10 * sizes::power(10, i as nat)) == 10 * (over * sizes::power(
                10,
                i as nat,
            ))) by (nonlinear_arith);
            assert(sizes::power(10, (i + 1) as nat) == 10 * sizes::power(10, i as nat));
            assert(below == carry_at(start, i + 1));
        }
        i += 1;
    }
    proof {
        assert(start.take(n as int) =~= start);
        assert(f@.take(n as int) =~= f@);
        assert(over * sizes::power(10, n as nat) == if carry {
            sizes::power(10, n as nat)
        } else {
            0
        }) by (nonlinear_arith)
            requires
                over == if carry {
                    1nat
                } else {
                    0
                },
        ;
    }
    carry
}

/// What the digit here carries when it is doubled.
spec fn carry_at(s: Seq<u8>, i: int) -> nat {
    if 0 <= i < s.len() && s[i] >= 5 {
        1
    } else {
        0
    }
}

/// Halves a whole number in place, dropping the half that is left over.
fn halve_whole(w: &mut Vec<u8>)
    requires
        is_digits(old(w)@),
    ensures
        final(w)@.len() == old(w)@.len(),
        is_digits(final(w)@),
        value(final(w)@) == value(old(w)@) / 2,
{
    let n: usize = w.len();
    let ghost start = w@;
    let mut rest: u8 = 0;
    let mut i: usize = 0;
    assert(start.take(0) =~= Seq::<u8>::empty());
    assert(w@.take(0) =~= Seq::<u8>::empty());
    while i < n
        invariant
            i <= n,
            n == w@.len(),
            n == start.len(),
            rest < 2,
            is_digits(start),
            is_digits(w@),
            forall|k: int| i <= k < n ==> #[trigger] w@[k] == start[k],
            value(start.take(i as int)) == 2 * value(w@.take(i as int)) + rest,
        decreases n - i,
    {
        let ghost before = w@;
        assert(w@[i as int] == start[i as int] && start[i as int] < 10);
        let d: u8 = 10 * rest + w[i];
        w.set(i, d / 2);
        rest = d % 2;
        proof {
            assert(start.take(i + 1).drop_last() =~= start.take(i as int));
            assert(w@.take(i + 1).drop_last() =~= before.take(i as int));
            assert(w@.take(i + 1).last() == d / 2);
        }
        i += 1;
    }
    assert(start.take(n as int) =~= start);
    assert(w@.take(n as int) =~= w@);
}

fn is_zero(f: &Vec<u8>) -> (r: bool)
    ensures
        r == (value(f@) == 0),
{
    let mut zero = true;
    let mut i: usize = 0;
    assert(f@.take(0) =~= Seq::<u8>::empty());
    while i < f.len()
        invariant
            i <= f@.len(),
            zero == (value(f@.take(i as int)) == 0),
        decreases f@.len() - i,
    {
        assert(f@.take(i + 1).drop_last() =~= f@.take(i as int));
        if f[i] != 0 {
            zero = false;
        }
        i += 1;
    }
    assert(f@.take(f@.len() as int) =~= f@);
    zero
}

/// Whole numbers are followed up to here, two to the power of 66.
const CAP: u128 = 0x4_0000_0000_0000_0000;

/// The number that digits denote, or none where it is beyond the cap.
fn small_value(w: &Vec<u8>) -> (r: Option<u128>)
    requires
        is_digits(w@),
    ensures
        match r {
            Some(v) => v == value(w@) && v < CAP,
            None => value(w@) >= CAP,
        },
{
    let mut v: u128 = 0;
    let mut i: usize = 0;
    let mut big = false;
    assert(w@.take(0) =~= Seq::<u8>::empty());
    while i < w.len()
        invariant
            i <= w@.len(),
            is_digits(w@),
            v < CAP,
            big ==> value(w@.take(i as int)) >= CAP,
            !big ==> v == value(w@.take(i as int)),
        decreases w@.len() - i,
    {
        assert(w@.take(i + 1).drop_last() =~= w@.take(i as int));
        assert(w@[i as int] < 10);
        if !big {
            let next: u128 = 10 * v + w[i] as u128;
            if next < CAP {
                v = next;
            } else {
                big = true;
            }
        }
        i += 1;
    }
    assert(w@.take(w@.len() as int) =~= w@);
    if big {
        None
    } else {
        Some(v)
    }
}

// ---------------------------------------------------------------------------
// Limits of doubles
// ---------------------------------------------------------------------------

proof fn div_by_power(n: nat, k: nat)
    ensures
        n / sizes::power(2, k) / 2 == n / sizes::power(2, k + 1),
{
    power_grows(2, k, k);
    vstd::arithmetic::div_mod::lemma_div_denominator(n as int, sizes::power(2, k) as int, 2);
    assert(sizes::power(2, k + 1) == 2 * sizes::power(2, k));
}

/// Whether a whole number is too large for a double.
fn is_beyond_doubles(w: &Vec<u8>) -> (r: bool)
    requires
        is_digits(w@),
    ensures
        r == (value(w@) >= double_limit()),
{
    let ghost start = value(w@);
    let mut rest: Vec<u8> = w.clone();
    assert(rest@ =~= w@);
    let mut i: u32 = 0;
    assert(start / 1 == start);
    while i < 970
        invariant
            i <= 970,
            is_digits(rest@),
            value(rest@) == start / sizes::power(2, i as nat),
        decreases 970 - i,
    {
        proof {
            div_by_power(start, i as nat);
        }
        halve_whole(&mut rest);
        i += 1;
    }
    let ghost p = sizes::power(2, 970);
    proof {
        power_grows(2, 970, 970);
        limit_by_division(start, p, 0x3f_ffff_ffff_ffff);
    }
    match small_value(&rest) {
        Some(v) => v >= 0x3f_ffff_ffff_ffff,
        None => true,
    }
}

proof fn limit_by_division(n: nat, p: nat, limit: nat)
    requires
        p >= 1,
    ensures
        n / p >= limit <==> n >= p * limit,
{
    assert(n / p >= limit <==> n >= p * limit) by (nonlinear_arith)
        requires
            p >= 1,
    ;
}

/// A fraction below one is more than zero as a double.
fn fraction_above_zero(f: &Vec<u8>) -> (r: bool)
    requires
        is_digits(f@),
    ensures
        r == is_above_zero(value(f@), sizes::power(10, f@.len())),
{
    let ghost start = value(f@);
    let ghost d = sizes::power(10, f@.len());
    let mut rest: Vec<u8> = f.clone();
    assert(rest@ =~= f@);
    let mut i: u32 = 0;
    assert(start * 1 == start);
    while i < 1075
        invariant
            i <= 1075,
            start == value(f@),
            d == sizes::power(10, f@.len()),
            rest@.len() == f@.len(),
            is_digits(rest@),
            value(rest@) == start * sizes::power(2, i as nat),
        decreases 1075 - i,
    {
        let ghost p = sizes::power(2, i as nat);
        assert(sizes::power(2, (i + 1) as nat) == 2 * p);
        assert(start * (2 * p) == 2 * (start * p)) by (nonlinear_arith);
        let carry = double_fraction(&mut rest);
        if carry {
            let ghost now = start * sizes::power(2, (i + 1) as nat);
            assert(now == d + value(rest@));
            if i + 1 == 1075 {
                return !is_zero(&rest);
            }
            proof {
                let more = (1075 - i - 1) as nat;
                power_sum(2, (i + 1) as nat, more);
                power_grows(2, 1, more);
                power_grows(10, f@.len(), f@.len());
                assert(sizes::power(2, 1) == 2 * sizes::power(2, 0));
                assert(start * (sizes::power(2, (i + 1) as nat) * sizes::power(2, more)) == now
                    * sizes::power(2, more)) by (nonlinear_arith)
                    requires
                        now == start * sizes::power(2, (i + 1) as nat),
                ;
                assert(now * sizes::power(2, more) > d) by (nonlinear_arith)
                    requires
                        now >= d,
                        d >= 1,
                        sizes::power(2, more) >= 2,
                ;
            }
            return true;
        }
        i += 1;
    }
    proof {
        value_bound(rest@);
    }
    false
}

/// The number is a double above zero: not zero, not too small and not too large.
pub open spec fn is_positive(whole: nat, n: nat, d: nat) -> bool {
    is_above_zero(n, d) && whole < double_limit()
}

proof fn limit_is_beyond_cap()
    ensures
        double_limit() >= CAP,
{
    power_grows(2, 12, 970);
    reveal_with_fuel(sizes::power, 13);
    assert(sizes::power(2, 12) == 4096);
    assert(sizes::power(2, 970) * 0x3f_ffff_ffff_ffff >= 4096 * 0x3f_ffff_ffff_ffff)
        by (nonlinear_arith)
        requires
            sizes::power(2, 970) >= 4096,
    ;
}

fn check_positive(w: &Vec<u8>, f: &Vec<u8>) -> (r: bool)
    requires
        is_digits(w@),
        is_digits(f@),
    ensures
        r == is_positive(
            value(w@),
            value(w@) * sizes::power(10, f@.len()) + value(f@),
            sizes::power(10, f@.len()),
        ),
{
    let ghost d = sizes::power(10, f@.len());
    let ghost n = value(w@) * d + value(f@);
    proof {
        power_grows(10, f@.len(), f@.len());
        limit_is_beyond_cap();
        if value(w@) >= 1 {
            power_grows(2, 1, 1075);
            assert(sizes::power(2, 1) == 2 * sizes::power(2, 0));
            assert(n * sizes::power(2, 1075) > d) by (nonlinear_arith)
                requires
                    n >= value(w@) * d,
                    value(w@) >= 1,
                    d >= 1,
                    sizes::power(2, 1075) >= 2,
            ;
        }
    }
    match small_value(w) {
        Some(v) => if v >= 1 {
            true
        } else {
            assert(n == value(f@)) by (nonlinear_arith)
                requires
                    n == value(w@) * d + value(f@),
                    value(w@) == 0,
            ;
            fraction_above_zero(f)
        },
        None => !is_beyond_doubles(w),
    }
}

// ---------------------------------------------------------------------------
// Rounding to whole bytes
// ---------------------------------------------------------------------------

/// The number is `i` and a fraction of `d`.
spec fn is_split(n: nat, i: nat, f: nat, d: nat) -> bool {
    n == i * d + f && f < d
}

proof fn split_compares(n: nat, i: nat, f: nat, d: nat, bound: nat)
    requires
        is_split(n, i, f, d),
    ensures
        n >= bound * d <==> i >= bound,
{
    assert(n >= bound * d <==> i >= bound) by (nonlinear_arith)
        requires
            n == i * d + f,
            f < d,
    ;
}

proof fn halvings_step(n: nat, d: nat, s: nat)
    requires
        d >= 1,
        s <= halvings(n, d),
    ensures
        halvings(n, d) == s + halvings(n, sizes::power(2, s) * d),
    decreases s,
{
    if s == 0 {
        assert(1 * d == d);
    } else {
        halvings_step(n, d, (s - 1) as nat);
        let e = sizes::power(2, (s - 1) as nat) * d;
        assert(2 * e == sizes::power(2, s) * d) by (nonlinear_arith)
            requires
                e == sizes::power(2, (s - 1) as nat) * d,
                sizes::power(2, s) == 2 * sizes::power(2, (s - 1) as nat),
        ;
        assert(halvings(n, e) >= 1);
    }
}

/// Before each halving the number was still too large.
proof fn halvings_lower(n: nat, d: nat)
    requires
        d >= 1,
        n >= sizes::BITS_53 * d,
    ensures
        halvings(n, d) >= 1,
        n >= sizes::BITS_52 * (sizes::power(2, halvings(n, d)) * d),
        n < sizes::BITS_53 * (sizes::power(2, halvings(n, d)) * d),
    decreases n - sizes::BITS_53 * d,
{
    let s = halvings(n, d);
    let rest = halvings(n, 2 * d);
    assert(s == 1 + rest);
    assert(sizes::power(2, s) == 2 * sizes::power(2, rest));
    if n >= sizes::BITS_53 * (2 * d) {
        halvings_lower(n, 2 * d);
        assert(sizes::power(2, rest) * (2 * d) == sizes::power(2, s) * d) by (nonlinear_arith)
            requires
                sizes::power(2, s) == 2 * sizes::power(2, rest),
        ;
    } else {
        assert(rest == 0);
        assert(sizes::power(2, 0) == 1);
        assert(sizes::power(2, s) == 2);
    }
}

/// A number beyond the cap stays too large for 64 bits.
proof fn big_stays_big(n: nat, d: nat)
    requires
        d >= 1,
        n >= CAP * d,
    ensures
        whole_double(n, d) > 0x1_0000_0000_0000_0000,
{
    assert(n >= sizes::BITS_53 * d) by (nonlinear_arith)
        requires
            n >= 0x4_0000_0000_0000_0000 * d,
            d >= 1,
    ;
    halvings_lower(n, d);
    let s = halvings(n, d);
    let scale = sizes::power(2, s);
    let e = scale * d;
    power_grows(2, s, s);
    assert(e >= 1) by (nonlinear_arith)
        requires
            e == scale * d,
            scale >= 1,
            d >= 1,
    ;
    // At least 53 bits are left, so the scale makes up for the rest.
    assert(scale >= 8192) by (nonlinear_arith)
        requires
            n >= 0x4_0000_0000_0000_0000 * d,
            n < 0x20_0000_0000_0000 * (scale * d),
            d >= 1,
    ;
    assert(n / e >= 0x10_0000_0000_0000) by (nonlinear_arith)
        requires
            n >= 0x10_0000_0000_0000 * e,
            e >= 1,
    ;
    let q = sizes::half_even(n, e);
    assert(q >= n / e);
    assert(q * scale >= 0x10_0000_0000_0000 * 8192) by (nonlinear_arith)
        requires
            q >= 0x10_0000_0000_0000,
            scale >= 8192,
    ;
}

/// Divides `i + f / d` by a power of two and rounds it.
proof fn scaled_half_even(n: nat, i: nat, f: nat, d: nat, t: nat)
    requires
        is_split(n, i, f, d),
        t >= 2,
        t % 2 == 0,
    ensures
        sizes::half_even(n, t * d) == {
            let q = i / t;
            let r = i % t;
            if r > t / 2 || (r == t / 2 && (f > 0 || q % 2 == 1)) {
                q + 1
            } else {
                q
            }
        },
{
    let q = i / t;
    let r = i % t;
    let rest = r * d + f;
    let half = t / 2;
    assert(i == q * t + r) by (nonlinear_arith)
        requires
            q == i / t,
            r == i % t,
            t >= 1,
    ;
    assert(n == q * (t * d) + rest) by (nonlinear_arith)
        requires
            n == i * d + f,
            i == q * t + r,
            rest == r * d + f,
    ;
    assert(rest < t * d) by (nonlinear_arith)
        requires
            rest == r * d + f,
            r < t,
            f < d,
    ;
    vstd::arithmetic::div_mod::lemma_fundamental_div_mod_converse(
        n as int,
        (t * d) as int,
        q as int,
        rest as int,
    );
    assert(t == 2 * half);
    if r > half {
        assert(2 * rest > t * d) by (nonlinear_arith)
            requires
                rest == r * d + f,
                r >= half + 1,
                t == 2 * half,
                f < d,
                f >= 0,
        ;
    } else if r == half {
        assert(2 * rest == t * d + 2 * f) by (nonlinear_arith)
            requires
                rest == r * d + f,
                r == half,
                t == 2 * half,
        ;
    } else {
        assert(2 * rest < t * d) by (nonlinear_arith)
            requires
                rest == r * d + f,
                r <= half - 1,
                t == 2 * half,
                f < d,
        ;
    }
}

/// Rounds a number of more than 53 bits.
fn round_large(i: u128, f: &Vec<u8>, n: Ghost<nat>) -> (r: u128)
    requires
        sizes::BITS_53 <= i < CAP,
        is_digits(f@),
        is_split(n@, i as nat, value(f@), sizes::power(10, f@.len())),
    ensures
        r == whole_double(n@, sizes::power(10, f@.len())),
{
    let ghost d = sizes::power(10, f@.len());
    let mut t: u128 = 1;
    let ghost mut s: nat = 0;
    proof {
        power_grows(10, f@.len(), f@.len());
        split_compares(n@, i as nat, value(f@), d, sizes::BITS_53 as nat);
        halvings_lower(n@, d);
        assert(1 * d == d);
    }
    while i >= 0x20_0000_0000_0000 * t
        invariant
            i < CAP,
            1 <= t <= 16384,
            d >= 1,
            t == sizes::power(2, s),
            s <= halvings(n@, d),
            is_split(n@, i as nat, value(f@), d),
            t >= 2 ==> t % 2 == 0,
            t == 1 || 2 * i >= 0x20_0000_0000_0000 * t,
        decreases 32768 - t,
    {
        proof {
            halvings_step(n@, d, s);
            split_compares(n@, i as nat, value(f@), d, (0x20_0000_0000_0000 * t) as nat);
            assert((0x20_0000_0000_0000 * t) * d == 0x20_0000_0000_0000 * (t * d)) by (nonlinear_arith);
            assert(t * d >= 1) by (nonlinear_arith)
                requires
                    t >= 1,
                    d >= 1,
            ;
            assert(halvings(n@, (t * d) as nat) >= 1);
        }
        t = t * 2;
        proof {
            s = s + 1;
        }
    }
    proof {
        halvings_step(n@, d, s);
        split_compares(n@, i as nat, value(f@), d, (0x20_0000_0000_0000 * t) as nat);
        assert((0x20_0000_0000_0000 * t) * d == 0x20_0000_0000_0000 * (t * d)) by (nonlinear_arith);
        assert(halvings(n@, (t * d) as nat) == 0);
        assert(s == halvings(n@, d));
        assert(t >= 2);
        scaled_half_even(n@, i as nat, value(f@), d, t as nat);
    }
    let q: u128 = i / t;
    let rest: u128 = i % t;
    let half: u128 = t / 2;
    let up = rest > half || (rest == half && (q % 2 == 1 || !is_zero(f)));
    assert(q <= i) by (nonlinear_arith)
        requires
            q == i / t,
            t >= 1,
    ;
    let rounded: u128 = if up {
        q + 1
    } else {
        q
    };
    assert(rounded * t <= 0x1_0000_0000_0000_0000_0000_0000) by (nonlinear_arith)
        requires
            rounded <= 0x4_0000_0000_0000_0001,
            t <= 16384,
    ;
    rounded * t
}

proof fn doublings_step(n: nat, d: nat, j: nat)
    requires
        j <= sizes::doublings(n, d),
    ensures
        sizes::doublings(n, d) == j + sizes::doublings(sizes::power(2, j) * n, d),
    decreases j,
{
    if j == 0 {
        assert(1 * n == n);
    } else {
        doublings_step(n, d, (j - 1) as nat);
        let m = sizes::power(2, (j - 1) as nat) * n;
        assert(2 * m == sizes::power(2, j) * n) by (nonlinear_arith)
            requires
                m == sizes::power(2, (j - 1) as nat) * n,
                sizes::power(2, j) == 2 * sizes::power(2, (j - 1) as nat),
        ;
        assert(sizes::doublings(m, d) >= 1);
    }
}

/// After its doublings a number has at most 53 bits.
proof fn doublings_upper(n: nat, d: nat)
    requires
        n < sizes::BITS_53 * d,
    ensures
        sizes::power(2, sizes::doublings(n, d)) * n < sizes::BITS_53 * d,
    decreases sizes::doublings(n, d),
{
    let j = sizes::doublings(n, d);
    if j == 0 {
        assert(1 * n == n);
    } else {
        doublings_upper(2 * n, d);
        assert(sizes::power(2, (j - 1) as nat) * (2 * n) == sizes::power(2, j) * n)
            by (nonlinear_arith)
            requires
                sizes::power(2, j) == 2 * sizes::power(2, (j - 1) as nat),
        ;
    }
}

/// A number that needs that many doublings is nearer to zero than to one.
proof fn tiny_is_zero(n: nat, d: nat)
    requires
        d >= 1,
        n < sizes::BITS_53 * d,
        sizes::doublings(n, d) > 55,
    ensures
        whole_double(n, d) == 0,
{
    let j = sizes::doublings(n, d);
    let scale = sizes::power(2, j);
    doublings_upper(n, d);
    power_grows(2, 56, j);
    let m = scale * n;
    let q = sizes::half_even(m, d);
    assert(m / d < 0x20_0000_0000_0000) by (nonlinear_arith)
        requires
            m < 0x20_0000_0000_0000 * d,
            d >= 1,
    ;
    assert(q <= 0x20_0000_0000_0000);
    assert(sizes::power(2, 56) == 0x100_0000_0000_0000) by {
        reveal_with_fuel(sizes::power, 57);
    }
    assert((2 * q + scale) / (2 * scale) == 0) by (nonlinear_arith)
        requires
            2 * q < scale,
            scale >= 1,
    ;
}

/// Rounds a number of at most 53 bits.
#[verifier::spinoff_prover]
#[verifier::rlimit(60)]
fn round_small(whole: u128, fraction: &Vec<u8>, n: Ghost<nat>) -> (r: u128)
    requires
        whole < sizes::BITS_53,
        is_digits(fraction@),
        n@ > 0,
        is_split(n@, whole as nat, value(fraction@), sizes::power(10, fraction@.len())),
    ensures
        r == whole_double(n@, sizes::power(10, fraction@.len())),
{
    let ghost d = sizes::power(10, fraction@.len());
    let mut f: Vec<u8> = fraction.clone();
    assert(f@ =~= fraction@);
    let mut i: u128 = whole;
    let mut scale: u128 = 1;
    let mut j: u32 = 0;
    proof {
        power_grows(10, fraction@.len(), fraction@.len());
        split_compares(n@, whole as nat, value(f@), d, sizes::BITS_53 as nat);
        assert(1 * n@ == n@);
        assert(sizes::power(2, 56) == 0x100_0000_0000_0000) by {
            reveal_with_fuel(sizes::power, 57);
        }
        power_grows(2, 0, 56);
    }
    while i < sizes::BITS_52 as u128 && j < 56
        invariant
            j <= 56,
            i < sizes::BITS_53,
            d >= 1,
            f@.len() == fraction@.len(),
            d == sizes::power(10, fraction@.len()),
            is_digits(f@),
            n@ > 0,
            scale == sizes::power(2, j as nat),
            1 <= scale,
            scale <= sizes::power(2, 56),
            sizes::power(2, 56) == 0x100_0000_0000_0000,
            j <= sizes::doublings(n@, d),
            is_split((scale * n@) as nat, i as nat, value(f@), d),
        decreases 56 - j,
    {
        let ghost m = (scale * n@) as nat;
        proof {
            doublings_step(n@, d, j as nat);
            split_compares(m, i as nat, value(f@), d, sizes::BITS_52 as nat);
            assert(m > 0) by (nonlinear_arith)
                requires
                    m == scale * n@,
                    scale >= 1,
                    n@ > 0,
            ;
            assert(sizes::doublings(m, d) >= 1);
            power_grows(2, (j + 1) as nat, 56);
            assert(sizes::power(2, (j + 1) as nat) == 2 * sizes::power(2, j as nat));
        }
        let ghost f0 = value(f@);
        let ghost i0 = i;
        let carry = double_fraction(&mut f);
        i = 2 * i + if carry {
            1
        } else {
            0
        };
        scale = 2 * scale;
        j += 1;
        proof {
            value_bound(f@);
            assert(scale * n@ == 2 * m) by (nonlinear_arith)
                requires
                    m == (scale / 2) * n@,
                    scale == 2 * (scale / 2),
            ;
            assert(2 * m == i * d + value(f@)) by (nonlinear_arith)
                requires
                    m == i0 * d + f0,
                    2 * f0 == value(f@) + if carry {
                        d
                    } else {
                        0
                    },
                    i == 2 * i0 + if carry {
                        1int
                    } else {
                        0
                    },
            ;
        }
    }
    if i < sizes::BITS_52 as u128 {
        proof {
            tiny_is_zero(n@, d);
        }
        return 0;
    }
    let ghost m = (scale * n@) as nat;
    proof {
        doublings_step(n@, d, j as nat);
        split_compares(m, i as nat, value(f@), d, sizes::BITS_52 as nat);
        assert(j == sizes::doublings(n@, d));
    }
    let ghost f0 = value(f@);
    let carry = double_fraction(&mut f);
    let over = carry && (i % 2 == 1 || !is_zero(&f));
    let q: u128 = if over {
        i + 1
    } else {
        i
    };
    proof {
        vstd::arithmetic::div_mod::lemma_fundamental_div_mod_converse(
            m as int,
            d as int,
            i as int,
            f0 as int,
        );
        value_bound(f@);
        assert(q == sizes::half_even(m, d));
    }
    assert(2 * scale >= 1);
    (2 * q + scale) / (2 * scale)
}

// ---------------------------------------------------------------------------
// Reading
// ---------------------------------------------------------------------------

/// Why a text is no size.
#[derive(Debug)]
pub enum SizeError {
    Empty,
    Invalid(String),
    NotPositive,
    UnknownUnit(String),
    TooLarge,
}

pub enum SizeErrorModel {
    Empty,
    Invalid(Seq<char>),
    NotPositive,
    UnknownUnit(Seq<char>),
    TooLarge,
}

impl View for SizeError {
    type V = SizeErrorModel;

    open spec fn view(&self) -> SizeErrorModel {
        match self {
            SizeError::Empty => SizeErrorModel::Empty,
            SizeError::Invalid(t) => SizeErrorModel::Invalid(t@),
            SizeError::NotPositive => SizeErrorModel::NotPositive,
            SizeError::UnknownUnit(t) => SizeErrorModel::UnknownUnit(t@),
            SizeError::TooLarge => SizeErrorModel::TooLarge,
        }
    }
}

impl SizeErrorModel {
    pub open spec fn text(self) -> Seq<char> {
        match self {
            SizeErrorModel::Empty => "size cannot be empty"@,
            SizeErrorModel::Invalid(t) => "invalid size: "@ + t,
            SizeErrorModel::NotPositive => "size must be greater than zero"@,
            SizeErrorModel::UnknownUnit(t) => "unknown size unit: "@ + t,
            SizeErrorModel::TooLarge => "size is too large"@,
        }
    }
}

impl SizeError {
    /// The error as a message.
    pub fn message(&self) -> (r: String)
        ensures
            r@ == self@.text(),
    {
        match self {
            SizeError::Empty => "size cannot be empty".to_owned(),
            SizeError::Invalid(t) => text::join2("invalid size: ", t.as_str()),
            SizeError::NotPositive => "size must be greater than zero".to_owned(),
            SizeError::UnknownUnit(t) => text::join2("unknown size unit: ", t.as_str()),
            SizeError::TooLarge => "size is too large".to_owned(),
        }
    }
}

/// How many characters in front are digits or decimal points.
pub open spec fn number_len(s: Seq<char>) -> nat
    decreases s.len(),
{
    if s.len() > 0 && (text::is_digit(s[0]) || s[0] == '.') {
        1 + number_len(s.subrange(1, s.len() as int))
    } else {
        0
    }
}

/// The digits before the decimal point, and those behind it.
pub open spec fn point_split(number: Seq<char>) -> (Seq<char>, Seq<char>) {
    let at = text::first_place(number, '.');
    if at < number.len() {
        (number.subrange(0, at as int), number.subrange(at as int + 1, number.len() as int))
    } else {
        (number, Seq::empty())
    }
}

/// A number has a digit and at most one decimal point.
pub open spec fn is_number(number: Seq<char>) -> bool {
    let (whole, fraction) = point_split(number);
    whole.len() + fraction.len() > 0 && !fraction.contains('.')
}

/// A text in lower case, as far as it is ASCII.
pub open spec fn ascii_lowered(s: Seq<char>) -> Seq<char> {
    s.map_values(|c: char| text::ascii_lower(c))
}

/// The power of two that a unit stands for.
pub open spec fn unit_exponent(unit: Seq<char>) -> Option<nat> {
    let u = ascii_lowered(text::trimmed(unit));
    if u == ""@ || u == "b"@ {
        Some(0)
    } else if u == "k"@ || u == "kb"@ || u == "kib"@ {
        Some(10)
    } else if u == "m"@ || u == "mb"@ || u == "mib"@ {
        Some(20)
    } else if u == "g"@ || u == "gb"@ || u == "gib"@ {
        Some(30)
    } else if u == "t"@ || u == "tb"@ || u == "tib"@ {
        Some(40)
    } else if u == "p"@ || u == "pb"@ || u == "pib"@ {
        Some(50)
    } else {
        None
    }
}

/// The bytes that a number and a power of two make, where there are that many.
pub open spec fn bytes_of(n: nat, d: nat, exponent: nat) -> Result<u64, SizeErrorModel> {
    let bytes = whole_double(n * sizes::power(2, exponent), d);
    if bytes > 0x1_0000_0000_0000_0000 {
        Err(SizeErrorModel::TooLarge)
    } else if bytes > u64::MAX {
        Ok(u64::MAX)
    } else {
        Ok(bytes as u64)
    }
}

/// The size that a text denotes: a number above zero and a unit, with blanks
/// around both.
pub open spec fn size_of_text(input: Seq<char>) -> Result<u64, SizeErrorModel> {
    let s = text::trimmed(input);
    let len = number_len(s) as int;
    let number = s.subrange(0, len);
    let unit = s.subrange(len, s.len() as int);
    let (whole, fraction) = point_split(number);
    let d = sizes::power(10, fraction.len());
    let n = text::digits_value(whole) * d + text::digits_value(fraction);
    if s.len() == 0 {
        Err(SizeErrorModel::Empty)
    } else if !is_number(number) {
        Err(SizeErrorModel::Invalid(s))
    } else if !is_positive(text::digits_value(whole), n, d) {
        Err(SizeErrorModel::NotPositive)
    } else {
        match unit_exponent(unit) {
            Some(exponent) => bytes_of(n, d, exponent),
            None => Err(SizeErrorModel::UnknownUnit(unit)),
        }
    }
}

fn lower_ascii(t: &str) -> (r: String)
    ensures
        r@ == ascii_lowered(t@),
{
    let chars = text::chars_of(t);
    let mut r = String::new();
    let mut i: usize = 0;
    while i < chars.len()
        invariant
            i <= chars@.len(),
            r@ == ascii_lowered(chars@).take(i as int),
        decreases chars@.len() - i,
    {
        let ghost all = ascii_lowered(chars@);
        let c: char = text::ascii_lower_char(chars[i]);
        assert(all.take(i + 1) =~= all.take(i as int).push(all[i as int]));
        r.push(c);
        i += 1;
    }
    assert(ascii_lowered(chars@).take(chars@.len() as int) =~= ascii_lowered(chars@));
    r
}

fn find_exponent(unit: &str) -> (r: Option<u32>)
    ensures
        match r {
            Some(e) => unit_exponent(unit@) == Some(e as nat) && e <= 50,
            None => unit_exponent(unit@) is None,
        },
{
    let shown = text::trim_text(unit);
    let lowered = lower_ascii(shown.as_str());
    let u = lowered.as_str();
    if text::same_text(u, "") || text::same_text(u, "b") {
        Some(0)
    } else if text::same_text(u, "k") || text::same_text(u, "kb") || text::same_text(u, "kib") {
        Some(10)
    } else if text::same_text(u, "m") || text::same_text(u, "mb") || text::same_text(u, "mib") {
        Some(20)
    } else if text::same_text(u, "g") || text::same_text(u, "gb") || text::same_text(u, "gib") {
        Some(30)
    } else if text::same_text(u, "t") || text::same_text(u, "tb") || text::same_text(u, "tib") {
        Some(40)
    } else if text::same_text(u, "p") || text::same_text(u, "pb") || text::same_text(u, "pib") {
        Some(50)
    } else {
        None
    }
}

/// Multiplies a number by a power of two and rounds it to bytes.
fn count_bytes(w: &Vec<u8>, fraction: &Vec<u8>, exponent: u32) -> (r: Result<u64, SizeError>)
    requires
        is_digits(w@),
        is_digits(fraction@),
        exponent <= 50,
        value(w@) * sizes::power(10, fraction@.len()) + value(fraction@) > 0,
    ensures
        match r {
            Ok(bytes) => bytes_of(
                value(w@) * sizes::power(10, fraction@.len()) + value(fraction@),
                sizes::power(10, fraction@.len()),
                exponent as nat,
            ) == Ok::<u64, SizeErrorModel>(bytes),
            Err(e) => bytes_of(
                value(w@) * sizes::power(10, fraction@.len()) + value(fraction@),
                sizes::power(10, fraction@.len()),
                exponent as nat,
            ) == Err::<u64, SizeErrorModel>(e@),
        },
{
    let ghost d = sizes::power(10, fraction@.len());
    let ghost n = value(w@) * d + value(fraction@);
    let mut f: Vec<u8> = fraction.clone();
    assert(f@ =~= fraction@);
    let mut big = false;
    let mut i: u128 = 0;
    match small_value(w) {
        Some(v) => {
            i = v;
        },
        None => {
            big = true;
            assert(n >= CAP * d) by (nonlinear_arith)
                requires
                    n >= value(w@) * d,
                    value(w@) >= 0x4_0000_0000_0000_0000,
            ;
        },
    }
    proof {
        power_grows(10, fraction@.len(), fraction@.len());
        value_bound(fraction@);
        assert(n * 1 == n);
    }
    let mut j: u32 = 0;
    while j < exponent
        invariant
            j <= exponent,
            i < CAP,
            d >= 1,
            d == sizes::power(10, fraction@.len()),
            f@.len() == fraction@.len(),
            is_digits(f@),
            big ==> n * sizes::power(2, j as nat) >= CAP * d,
            !big ==> is_split(n * sizes::power(2, j as nat), i as nat, value(f@), d),
        decreases exponent - j,
    {
        let ghost p = sizes::power(2, j as nat);
        let ghost m = n * p;
        let ghost f0 = value(f@);
        let ghost i0 = i;
        proof {
            assert(sizes::power(2, (j + 1) as nat) == 2 * p);
            assert(n * (2 * p) == 2 * m) by (nonlinear_arith)
                requires
                    m == n * p,
            ;
            assert(CAP * d >= 0) by (nonlinear_arith)
                requires
                    d >= 1,
            ;
        }
        let carry = double_fraction(&mut f);
        let next: u128 = 2 * i + if carry {
            1
        } else {
            0
        };
        proof {
            value_bound(f@);
            if !big {
                assert(2 * m == next * d + value(f@)) by (nonlinear_arith)
                    requires
                        m == i0 * d + f0,
                        2 * f0 == value(f@) + if carry {
                            d
                        } else {
                            0
                        },
                        next == 2 * i0 + if carry {
                            1int
                        } else {
                            0
                        },
                ;
                if next >= CAP {
                    assert(2 * m >= CAP * d) by (nonlinear_arith)
                        requires
                            2 * m >= next * d,
                            next >= 0x4_0000_0000_0000_0000,
                    ;
                }
            }
        }
        if next < CAP {
            i = next;
        } else {
            big = true;
        }
        j += 1;
    }
    let ghost m = n * sizes::power(2, exponent as nat);
    if big {
        proof {
            big_stays_big(m, d);
        }
        return Err(SizeError::TooLarge);
    }
    proof {
        power_grows(2, exponent as nat, exponent as nat);
        assert(m > 0) by (nonlinear_arith)
            requires
                m == n * sizes::power(2, exponent as nat),
                n > 0,
                sizes::power(2, exponent as nat) >= 1,
        ;
    }
    let bytes: u128 = if i >= sizes::BITS_53 as u128 {
        round_large(i, &f, Ghost(m))
    } else {
        round_small(i, &f, Ghost(m))
    };
    if bytes > 0x1_0000_0000_0000_0000 {
        Err(SizeError::TooLarge)
    } else if bytes > u64::MAX as u128 {
        Ok(u64::MAX)
    } else {
        Ok(bytes as u64)
    }
}

fn find_number_end(chars: &Vec<char>) -> (r: usize)
    ensures
        r <= chars@.len(),
        r == number_len(chars@),
        forall|k: int|
            0 <= k < r ==> text::is_digit(#[trigger] chars@[k]) || chars@[k] == '.',
{
    let n: usize = chars.len();
    let mut i: usize = 0;
    assert(chars@.subrange(0, n as int) =~= chars@);
    while i < n && (text::is_ascii_digit(chars[i]) || chars[i] == '.')
        invariant
            i <= n,
            n == chars@.len(),
            number_len(chars@) == i + number_len(chars@.subrange(i as int, n as int)),
            forall|k: int|
                0 <= k < i ==> text::is_digit(#[trigger] chars@[k]) || chars@[k] == '.',
        decreases n - i,
    {
        let ghost here = chars@.subrange(i as int, n as int);
        assert(here[0] == chars@[i as int]);
        assert(here.subrange(1, here.len() as int) =~= chars@.subrange(i + 1, n as int));
        i += 1;
    }
    i
}

proof fn positive_is_not_zero(n: nat, d: nat)
    requires
        is_above_zero(n, d),
        d >= 1,
    ensures
        n > 0,
{
    if n == 0 {
        assert(0 * sizes::power(2, 1075) == 0) by (nonlinear_arith);
    }
}

/// The first place holds the character, and no place before it does.
proof fn first_place_facts(s: Seq<char>, c: char)
    ensures
        text::first_place(s, c) <= s.len(),
        forall|k: int| 0 <= k < text::first_place(s, c) ==> #[trigger] s[k] != c,
    decreases s.len(),
{
    if s.len() > 0 && s[0] != c {
        let rest = s.subrange(1, s.len() as int);
        first_place_facts(rest, c);
        assert forall|k: int| 0 <= k < text::first_place(s, c) implies #[trigger] s[k] != c by {
            if k > 0 {
                assert(rest[k - 1] == s[k]);
            }
        }
    }
}

/// Reads a size.
pub fn parse_byte_size(input: &str) -> (r: Result<u64, SizeError>)
    ensures
        match r {
            Ok(bytes) => size_of_text(input@) == Ok::<u64, SizeErrorModel>(bytes),
            Err(e) => size_of_text(input@) == Err::<u64, SizeErrorModel>(e@),
        },
{
    let shown = text::trim_text(input);
    if shown.as_str().is_empty() {
        return Err(SizeError::Empty);
    }
    let chars = text::chars_of(shown.as_str());
    let len: usize = find_number_end(&chars);
    let number = text::chars_of(text::text_of_range(&chars, 0, len).as_str());
    let unit = text::text_of_range(&chars, len, chars.len());
    let at: usize = text::find_char(&number, '.');
    let from: usize = if at < number.len() {
        at + 1
    } else {
        number.len()
    };
    let ghost (whole, fraction) = point_split(number@);
    assert(whole =~= number@.subrange(0, at as int));
    assert(fraction =~= number@.subrange(from as int, number@.len() as int));
    let tail = text::text_of_range(&number, from, number.len());
    if (at == 0 && from == number.len()) || text::contains_char(tail.as_str(), '.') {
        return Err(SizeError::Invalid(shown));
    }
    proof {
        first_place_facts(number@, '.');
        assert forall|k: int| 0 <= k < whole.len() implies text::is_digit(#[trigger] whole[k]) by {
            assert(whole[k] == number@[k]);
            assert(number@[k] == chars@[k]);
        }
        assert forall|k: int| 0 <= k < fraction.len() implies text::is_digit(
            #[trigger] fraction[k],
        ) by {
            assert(fraction[k] == number@[from + k]);
            assert(number@[from + k] == chars@[from + k]);
            assert(fraction[k] != '.');
        }
    }
    let w = digits_of(&number, 0, at);
    let f = digits_of(&number, from, number.len());
    if !check_positive(&w, &f) {
        return Err(SizeError::NotPositive);
    }
    proof {
        power_grows(10, f@.len(), f@.len());
        positive_is_not_zero(
            value(w@) * sizes::power(10, f@.len()) + value(f@),
            sizes::power(10, f@.len()),
        );
    }
    match find_exponent(unit.as_str()) {
        Some(exponent) => count_bytes(&w, &f, exponent),
        None => Err(SizeError::UnknownUnit(unit)),
    }
}

// ---------------------------------------------------------------------------
// Laws
// ---------------------------------------------------------------------------

/// A whole number of bytes below 53 bits is read as it stands.
pub proof fn small_counts_are_exact(n: nat)
    requires
        n < sizes::BITS_53,
    ensures
        whole_double(n, 1) == n,
{
    let j = sizes::doublings(n, 1);
    let scale = sizes::power(2, j);
    power_grows(2, j, j);
    let m = scale * n;
    assert(m / 1 == m && m % 1 == 0);
    assert(sizes::half_even(m, 1) == m);
    assert((2 * (scale * n) + scale) / (2 * scale) == n) by (nonlinear_arith)
        requires
            scale >= 1,
    ;
}

/// A number with a unit is as many bytes as the number of them comes to, where
/// that is a whole number below 53 bits.
pub proof fn whole_counts_are_exact(n: nat, d: nat, exponent: nat, count: nat)
    requires
        d > 0,
        n * sizes::power(2, exponent) == count * d,
        count < 0x20_0000_0000_0000,
    ensures
        bytes_of(n, d, exponent) == Ok::<u64, SizeErrorModel>(count as u64),
{
    let m = count * d;
    assert(m < sizes::BITS_53 * d) by (nonlinear_arith)
        requires
            m == count * d,
            count < 0x20_0000_0000_0000,
            d > 0,
            sizes::BITS_53 == 0x20_0000_0000_0000,
    ;
    let j = sizes::doublings(m, d);
    let scale = sizes::power(2, j);
    power_grows(2, j, j);
    let q = scale * count;
    assert(scale * m == q * d) by (nonlinear_arith)
        requires
            m == count * d,
            q == scale * count,
    ;
    assert((q * d) / d == q && (q * d) % d == 0) by (nonlinear_arith)
        requires
            d > 0,
    ;
    assert(sizes::half_even(scale * m, d) == q);
    assert((2 * q + scale) / (2 * scale) == count) by (nonlinear_arith)
        requires
            scale >= 1,
            q == scale * count,
    ;
    assert(whole_double(m, d) == count);
}

/// A whole number and a unit are that number times what the unit stands for.
pub proof fn numbers_are_multiplied_by_their_unit(n: nat, unit: Seq<char>, exponent: nat)
    requires
        0 < n,
        unit_exponent(unit) == Some(exponent),
        unit.len() > 0 ==> !text::is_space(unit.last()) && !text::is_digit(unit[0]) && unit[0]
            != '.',
        n * sizes::power(2, exponent) < 0x20_0000_0000_0000,
    ensures
        size_of_text(text::decimal(n) + unit) == Ok::<u64, SizeErrorModel>(
            (n * sizes::power(2, exponent)) as u64,
        ),
{
    let digits = text::decimal(n);
    let s = digits + unit;
    text::decimal_is_digits(n);
    text::decimal_round_trip(n);
    assert(digits.len() > 0);
    assert(text::is_digit(digits[0]) && text::is_digit(digits[digits.len() - 1]));
    assert(s[0] == digits[0]);
    assert(s.last() == if unit.len() > 0 {
        unit.last()
    } else {
        digits[digits.len() - 1]
    });
    assert(text::trimmed(s) == s);
    number_ends_at_unit(digits, unit);
    assert(s.subrange(0, digits.len() as int) =~= digits);
    assert(s.subrange(digits.len() as int, s.len() as int) =~= unit);
    text::the_first_place_is_first(digits, '.');
    let none = Seq::<char>::empty();
    assert(text::first_place(digits, '.') == digits.len()) by {
        let at = text::first_place(digits, '.') as int;
        if at < digits.len() {
            assert(text::is_digit(digits[at]));
        }
    }
    assert(!none.contains('.'));
    assert(point_split(digits) == (digits, none));
    assert(sizes::power(10, 0) == 1);
    assert(text::digits_value(none) == 0);
    power_grows(2, 0, exponent);
    power_grows(2, 0, 1075);
    let count = n * sizes::power(2, exponent);
    assert(n <= count) by (nonlinear_arith)
        requires
            count == n * sizes::power(2, exponent),
            sizes::power(2, exponent) >= 1,
    ;
    assert(n * sizes::power(2, 1075) > 1) by {
        power_grows(2, 1, 1075);
        assert(sizes::power(2, 1) == 2) by {
            reveal_with_fuel(sizes::power, 2);
        }
        assert(n * sizes::power(2, 1075) >= 2) by (nonlinear_arith)
            requires
                n >= 1,
                sizes::power(2, 1075) >= 2,
        ;
    }
    limit_is_large();
    whole_counts_are_exact(n, 1, exponent, count);
}

proof fn limit_is_large()
    ensures
        double_limit() > 0x20_0000_0000_0000,
{
    power_grows(2, 0, 970);
    power_grows(2, 1, 970);
    assert(sizes::power(2, 1) == 2) by {
        reveal_with_fuel(sizes::power, 2);
    }
    let p = sizes::power(2, 970);
    assert(p * 0x3f_ffff_ffff_ffff > 0x20_0000_0000_0000) by (nonlinear_arith)
        requires
            p >= 2,
    ;
}

proof fn number_ends_at_unit(digits: Seq<char>, unit: Seq<char>)
    requires
        text::all_digits(digits),
        unit.len() > 0 ==> !text::is_digit(unit[0]) && unit[0] != '.',
    ensures
        number_len(digits + unit) == digits.len(),
    decreases digits.len(),
{
    let s = digits + unit;
    if digits.len() > 0 {
        let tail = digits.subrange(1, digits.len() as int);
        assert(text::all_digits(tail));
        number_ends_at_unit(tail, unit);
        assert(s[0] == digits[0] && text::is_digit(digits[0]));
        assert(s.subrange(1, s.len() as int) =~= tail + unit);
    } else {
        assert(s =~= unit);
    }
}

} // verus!
