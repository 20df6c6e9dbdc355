//! Byte counts written by people: reading them and writing them. The number is
//! taken the way a double-precision number takes it, so that a text with more
//! digits than 53 bits hold is rounded the same way everywhere.

use crate::text;
use vstd::arithmetic::power2::{
    lemma2_to64, lemma2_to64_rest, lemma_pow2_adds, lemma_pow2_pos, lemma_pow2_unfold, pow2,
};
use vstd::prelude::*;

verus! {

// ---- sums ----

/// `a + b`, or the largest number where that does not fit.
pub open spec fn capped_sum(a: u64, b: u64) -> u64 {
    if a + b > u64::MAX {
        u64::MAX
    } else {
        (a + b) as u64
    }
}

/// `a + b`, or the largest number where that does not fit.
pub fn plus(a: u64, b: u64) -> (r: u64)
    ensures
        r == capped_sum(a, b),
{
    if a > u64::MAX - b {
        u64::MAX
    } else {
        a + b
    }
}

// ---- the double nearest to a fraction ----

/// `n / d` rounded to the nearest integer, halves to the even one.
pub open spec fn half_even(n: nat, d: nat) -> nat {
    let q = n / d;
    let r = n % d;
    if 2 * r > d || (2 * r == d && q % 2 == 1) {
        q + 1
    } else {
        q
    }
}

/// The exponent of the highest binary digit of `w`.
pub open spec fn magnitude(w: nat) -> nat
    decreases w,
{
    if w < 2 {
        0
    } else {
        1 + magnitude(w / 2)
    }
}

/// The integer part of the double-precision number nearest to `n / d`: 53
/// binary digits are kept, halves go to the even neighbour.
pub open spec fn double_floor(n: nat, d: nat) -> nat {
    let w = n / d;
    if w == 0 {
        if n * pow2(54) >= d * (pow2(54) - 1) {
            1
        } else {
            0
        }
    } else {
        let j = magnitude(w);
        if j <= 52 {
            half_even(n * pow2((52 - j) as nat), d) / pow2((52 - j) as nat)
        } else {
            half_even(n, d * pow2((j - 52) as nat)) * pow2((j - 52) as nat)
        }
    }
}

/// That integer part in 64 bits; larger numbers become the largest one.
pub open spec fn double_u64(n: nat, d: nat) -> u64 {
    if n / d > u64::MAX || double_floor(n, d) > u64::MAX {
        u64::MAX
    } else {
        double_floor(n, d) as u64
    }
}

/// Ten to the power of `k`.
pub open spec fn pow10(k: nat) -> nat
    decreases k,
{
    if k == 0 {
        1
    } else {
        10 * pow10((k - 1) as nat)
    }
}

/// The number that a sequence of decimal digits writes.
pub open spec fn digit_value(s: Seq<u8>) -> nat
    decreases s.len(),
{
    if s.len() == 0 {
        0
    } else {
        digit_value(s.drop_last()) * 10 + s.last() as nat
    }
}

pub open spec fn decimal_digits(s: Seq<u8>) -> bool {
    forall|i: int| 0 <= i < s.len() ==> (#[trigger] s[i]) < 10
}

proof fn lemma_pow10_pos(k: nat)
    ensures
        pow10(k) > 0,
    decreases k,
{
    if k > 0 {
        lemma_pow10_pos((k - 1) as nat);
    }
}

proof fn lemma_value_bound(s: Seq<u8>)
    requires
        decimal_digits(s),
    ensures
        digit_value(s) < pow10(s.len()),
    decreases s.len(),
{
    if s.len() > 0 {
        assert(decimal_digits(s.drop_last())) by {
            assert forall|i: int| 0 <= i < s.drop_last().len() implies (
            #[trigger] s.drop_last()[i]) < 10 by {
                assert(s.drop_last()[i] == s[i]);
            }
        }
        lemma_value_bound(s.drop_last());
        assert(s[s.len() - 1] < 10);
    }
}

proof fn lemma_value_split(s: Seq<u8>, i: int)
    requires
        0 <= i <= s.len(),
    ensures
        digit_value(s) == digit_value(s.take(i)) * pow10((s.len() - i) as nat) + digit_value(
            s.skip(i),
        ),
    decreases s.len(),
{
    if i == s.len() {
        assert(s.take(i) =~= s);
        assert(s.skip(i) =~= Seq::<u8>::empty());
        assert(digit_value(s) * 1 == digit_value(s)) by (nonlinear_arith);
    } else {
        let t = s.drop_last();
        lemma_value_split(t, i);
        assert(t.take(i) =~= s.take(i));
        assert(s.skip(i).drop_last() =~= t.skip(i));
        let a = digit_value(s.take(i));
        let p = pow10((t.len() - i) as nat);
        let b = digit_value(t.skip(i));
        let l = s.last() as nat;
        assert((a * p + b) * 10 + l == a * (10 * p) + (b * 10 + l)) by (nonlinear_arith);
        assert(pow10((s.len() - i) as nat) == 10 * p);
    }
}

proof fn lemma_value_zero(s: Seq<u8>)
    ensures
        digit_value(s) == 0 <==> (forall|i: int| 0 <= i < s.len() ==> s[i] == 0),
    decreases s.len(),
{
    if s.len() > 0 {
        lemma_value_zero(s.drop_last());
        if digit_value(s) == 0 {
            assert forall|i: int| 0 <= i < s.len() implies s[i] == 0 by {
                if i < s.len() - 1 {
                    assert(s[i] == s.drop_last()[i]);
                }
            }
        } else {
            if forall|i: int| 0 <= i < s.len() ==> s[i] == 0 {
                assert forall|i: int| 0 <= i < s.drop_last().len() implies s.drop_last()[i] == 0 by {
                    assert(s.drop_last()[i] == s[i]);
                }
                assert(s[s.len() - 1] == 0);
            }
        }
    }
}

/// Doubles a fraction given by its decimal digits; returns what spills over.
fn double_fraction(f: &mut Vec<u8>) -> (carry: u8)
    requires
        decimal_digits(old(f)@),
    ensures
        decimal_digits(final(f)@),
        final(f)@.len() == old(f)@.len(),
        carry <= 1,
        2 * digit_value(old(f)@) == carry * pow10(old(f)@.len()) + digit_value(final(f)@),
{
    let ghost before = f@;
    let n: usize = f.len();
    let mut i: usize = n;
    let mut c: u8 = 0;
    assert(before.take(n as int) =~= before);
    assert(f@.skip(n as int) =~= Seq::<u8>::empty());
    assert((2 * digit_value(before) + 0) * 1 == 2 * digit_value(before)) by (nonlinear_arith);
    while i > 0
        invariant
            i <= n,
            n == before.len(),
            f@.len() == n,
            decimal_digits(before),
            decimal_digits(f@),
            f@.take(i as int) == before.take(i as int),
            c <= 1,
            2 * digit_value(before) == (2 * digit_value(before.take(i as int)) + c) * pow10(
                (n - i) as nat,
            ) + digit_value(f@.skip(i as int)),
        decreases i,
    {
        let ghost now = f@;
        assert(f@[i - 1] == f@.take(i as int)[i - 1]);
        assert(before[i - 1] == before.take(i as int)[i - 1]);
        let x: u8 = f[i - 1];
        let d: u8 = 2 * x + c;
        let low: u8 = d % 10;
        f[i - 1] = low;
        proof {
            let v = digit_value(before.take(i - 1));
            let p = pow10((n - i) as nat);
            let r = digit_value(now.skip(i as int));
            assert(before.take(i as int).drop_last() =~= before.take(i - 1));
            let tail = f@.skip(i - 1);
            lemma_value_split(tail, 1);
            assert(tail.skip(1) =~= now.skip(i as int));
            assert(tail.take(1) =~= seq![low]);
            assert(seq![low].drop_last() =~= Seq::<u8>::empty());
            assert(digit_value(seq![low]) == low) by {
                reveal_with_fuel(digit_value, 2);
            }
            assert(f@.take(i - 1) =~= before.take(i - 1)) by {
                assert forall|k: int| 0 <= k < i - 1 implies f@[k] == before[k] by {
                    assert(now.take(i as int)[k] == before.take(i as int)[k]);
                }
            }
            let hi = (d / 10) as nat;
            assert(2 * x + c == 10 * hi + low);
            assert((2 * (v * 10 + x) + c) * p + r == (2 * v + hi) * (10 * p) + (low * p + r))
                by (nonlinear_arith)
                requires
                    2 * x + c == 10 * hi + low,
            ;
            assert(pow10((n - (i - 1)) as nat) == 10 * p);
        }
        c = d / 10;
        i -= 1;
    }
    assert(before.take(0) =~= Seq::<u8>::empty());
    assert(f@.skip(0) =~= f@);
    c
}

fn is_zero(f: &Vec<u8>) -> (r: bool)
    ensures
        r == (digit_value(f@) == 0),
{
    let mut i: usize = 0;
    while i < f.len()
        invariant
            i <= f@.len(),
            forall|j: int| 0 <= j < i ==> f@[j] == 0,
        decreases f@.len() - i,
    {
        if f[i] != 0 {
            proof {
                lemma_value_zero(f@);
            }
            return false;
        }
        i += 1;
    }
    proof {
        lemma_value_zero(f@);
    }
    true
}

/// What a mixed number of whole part `m` and fraction digits `f` is worth, in
/// units of the last digit.
pub open spec fn mixed(m: nat, f: Seq<u8>) -> nat {
    m * pow10(f.len()) + digit_value(f)
}

/// Doubles a mixed number `times` times.
fn double_mixed(m: u128, f: &mut Vec<u8>, times: u32) -> (r: u128)
    requires
        decimal_digits(old(f)@),
        m < pow2(65),
        times <= 54,
    ensures
        decimal_digits(final(f)@),
        final(f)@.len() == old(f)@.len(),
        mixed(r as nat, final(f)@) == mixed(m as nat, old(f)@) * pow2(times as nat),
        r < pow2((65 + times) as nat),
{
    let ghost start = mixed(m as nat, f@);
    let ghost k = f@.len();
    let mut r: u128 = m;
    let mut i: u32 = 0;
    proof {
        lemma2_to64();
        assert(start * 1 == start) by (nonlinear_arith);
    }
    while i < times
        invariant
            i <= times <= 54,
            f@.len() == k,
            decimal_digits(f@),
            r < pow2((65 + i) as nat),
            mixed(r as nat, f@) == start * pow2(i as nat),
        decreases times - i,
    {
        proof {
            lemma_bound_119((65 + i) as nat);
            lemma_pow2_unfold((65 + i + 1) as nat);
            lemma_pow2_unfold((i + 1) as nat);
        }
        let ghost f0 = f@;
        let ghost r0 = r as nat;
        let c = double_fraction(f);
        r = 2 * r + c as u128;
        proof {
            let p = pow10(k);
            assert((2 * r0 + c) * p == 2 * (r0 * p) + c * p) by (nonlinear_arith);
            assert(start * pow2((i + 1) as nat) == 2 * (start * pow2(i as nat))) by (nonlinear_arith)
                requires
                    pow2((i + 1) as nat) == 2 * pow2(i as nat),
            ;
        }
        i += 1;
    }
    r
}

proof fn lemma_pow2_monotonic(a: nat, b: nat)
    requires
        a <= b,
    ensures
        pow2(a) <= pow2(b),
    decreases b - a,
{
    if a < b {
        lemma_pow2_unfold(b);
        lemma_pow2_monotonic(a, (b - 1) as nat);
        lemma_pow2_pos((b - 1) as nat);
    }
}

proof fn lemma_bound_119(e: nat)
    requires
        e <= 119,
    ensures
        2 * pow2(e) + 1 <= u128::MAX,
{
    lemma_pow2_monotonic(e, 119);
    lemma2_to64();
    lemma2_to64_rest();
    vstd::arithmetic::power2::lemma_pow2_adds(64, 55);
    assert(pow2(64) * pow2(55) == 0x1_0000_0000_0000_0000 * 0x80_0000_0000_0000) by {
    }
}

/// The whole part and the fraction of a mixed number determine it.
proof fn lemma_mixed_parts(m: nat, f: Seq<u8>, n: nat)
    requires
        decimal_digits(f),
        mixed(m, f) == n,
    ensures
        m == n / pow10(f.len()),
        digit_value(f) == n % pow10(f.len()),
        pow10(f.len()) > 0,
{
    lemma_value_bound(f);
    lemma_pow10_pos(f.len());
    let d = pow10(f.len());
    vstd::arithmetic::div_mod::lemma_fundamental_div_mod_converse(
        n as int,
        d as int,
        m as int,
        digit_value(f) as int,
    );
}

proof fn lemma_magnitude(w: nat)
    requires
        w >= 1,
    ensures
        pow2(magnitude(w)) <= w < pow2(magnitude(w) + 1),
    decreases w,
{
    lemma2_to64();
    if w >= 2 {
        lemma_magnitude(w / 2);
        lemma_pow2_unfold(magnitude(w));
        lemma_pow2_unfold(magnitude(w) + 1);
    }
}

/// The exponent of the highest binary digit.
fn highest_bit(w: u128) -> (j: u32)
    requires
        1 <= w <= u64::MAX,
    ensures
        j == magnitude(w as nat),
        j <= 63,
    decreases w,
{
    proof {
        lemma_magnitude(w as nat);
        lemma2_to64();
        if magnitude(w as nat) >= 64 {
            lemma_pow2_monotonic(64, magnitude(w as nat));
        }
    }
    if w < 2 {
        0
    } else {
        let j = highest_bit(w / 2);
        j + 1
    }
}

/// Two to a power that fits.
fn power(e: u32) -> (r: u128)
    requires
        e <= 54,
    ensures
        r == pow2(e as nat),
        r > 0,
    decreases e,
{
    proof {
        lemma2_to64();
        lemma_pow2_pos(e as nat);
        lemma_bound_119(e as nat);
    }
    if e == 0 {
        1
    } else {
        proof {
            lemma_pow2_unfold(e as nat);
        }
        2 * power(e - 1)
    }
}

/// The 64-bit integer part of the double nearest to a mixed number times a
/// power of two.
fn round_mixed(m0: u64, fraction: Vec<u8>, shift: u32) -> (r: u64)
    requires
        decimal_digits(fraction@),
        shift <= 40,
    ensures
        r == double_u64(
            mixed(m0 as nat, fraction@) * pow2(shift as nat),
            pow10(fraction@.len()),
        ),
{
    let mut f = fraction;
    let ghost d = pow10(f@.len());
    proof {
        lemma2_to64();
        lemma_pow2_monotonic(64, 65);
    }
    let ghost n = mixed(m0 as nat, f@) * pow2(shift as nat);
    let m = double_mixed(m0 as u128, &mut f, shift);
    proof {
        lemma_mixed_parts(m as nat, f@, n);
    }
    if m > u64::MAX as u128 {
        return u64::MAX;
    }
    proof {
        lemma2_to64_rest();
        lemma_pow2_monotonic(64, 65);
    }
    if m == 0 {
        let t = double_mixed(m, &mut f, 54);
        proof {
            lemma_mixed_parts(t as nat, f@, n * pow2(54));
            lemma_near_one(n, d, t as nat, digit_value(f@));
        }
        if t >= 0x3f_ffff_ffff_ffff {
            return 1;
        }
        return 0;
    }
    let j = highest_bit(m);
    proof {
        lemma_magnitude(m as nat);
    }
    if j <= 52 {
        let e: u32 = 52 - j;
        let q = double_mixed(m, &mut f, e);
        proof {
            lemma_mixed_parts(q as nat, f@, n * pow2(e as nat));
        }
        let ghost rest = digit_value(f@);
        let c = double_fraction(&mut f);
        let zero = is_zero(&f);
        let scale = power(e);
        proof {
            lemma_value_bound(f@);
            assert(c == 0 ==> c * d == 0) by (nonlinear_arith);
            assert(c == 1 ==> c * d == d) by (nonlinear_arith);
            assert(q < pow2(119)) by {
                lemma_pow2_monotonic((65 + e) as nat, 119);
            }
            lemma_bound_119(119);
        }
        let up = c == 1 && (!zero || q % 2 == 1);
        let rounded: u128 = if up {
            q + 1
        } else {
            q
        };
        assert(rounded == half_even(n * pow2(e as nat), d));
        let whole: u128 = rounded / scale;
        assert(whole == double_floor(n, d));
        if whole > u64::MAX as u128 {
            u64::MAX
        } else {
            whole as u64
        }
    } else {
        let e: u32 = j - 52;
        let unit = power(e);
        let q = m / unit;
        let a = m % unit;
        let zero = is_zero(&f);
        proof {
            lemma_pow2_unfold(e as nat);
            lemma_coarse(n, d, m as nat, digit_value(f@), unit as nat, q as nat, a as nat);
            lemma_pow2_monotonic(e as nat, 11);
        }
        let half = unit / 2;
        let up = a > half || (a == half && (!zero || q % 2 == 1));
        let rounded: u128 = if up {
            q + 1
        } else {
            q
        };
        assert(rounded == half_even(n, d * pow2(e as nat)));
        assert(rounded * unit <= 0x1_0000_0000_0000_0000 * 0x1000) by (nonlinear_arith)
            requires
                rounded <= 0x1_0000_0000_0000_0000,
                unit <= 0x800,
        ;
        let whole: u128 = rounded * unit;
        if whole > u64::MAX as u128 {
            u64::MAX
        } else {
            whole as u64
        }
    }
}

proof fn lemma_near_one(n: nat, d: nat, t: nat, rest: nat)
    requires
        d > 0,
        t == (n * pow2(54)) / d,
        rest == (n * pow2(54)) % d,
    ensures
        t >= 0x3f_ffff_ffff_ffff <==> n * pow2(54) >= d * (pow2(54) - 1),
{
    lemma2_to64_rest();
    let x = n * pow2(54);
    vstd::arithmetic::div_mod::lemma_fundamental_div_mod(x as int, d as int);
    let k = 0x3f_ffff_ffff_ffffint;
    assert(pow2(54) - 1 == k);
    assert(rest < d);
    if t >= k {
        assert(d * t >= d * k) by (nonlinear_arith)
            requires
                t >= k,
                d > 0,
        ;
    } else {
        assert(d * t + d <= d * k) by (nonlinear_arith)
            requires
                t + 1 <= k,
                d > 0,
        ;
    }
}

proof fn lemma_coarse(n: nat, d: nat, m: nat, rest: nat, unit: nat, q: nat, a: nat)
    requires
        d > 0,
        unit >= 2,
        unit % 2 == 0,
        m == n / d,
        rest == n % d,
        q == m / unit,
        a == m % unit,
    ensures
        d * unit > 0,
        q == n / (d * unit),
        ({
            let r = n % (d * unit);
            &&& a > unit / 2 ==> 2 * r > d * unit
            &&& a < unit / 2 ==> 2 * r < d * unit
            &&& a == unit / 2 && rest > 0 ==> 2 * r > d * unit
            &&& a == unit / 2 && rest == 0 ==> 2 * r == d * unit
        }),
{
    vstd::arithmetic::div_mod::lemma_fundamental_div_mod(n as int, d as int);
    vstd::arithmetic::div_mod::lemma_fundamental_div_mod(m as int, unit as int);
    let du = d * unit;
    assert(du > 0) by (nonlinear_arith)
        requires
            d > 0,
            unit >= 2,
            du == d * unit,
    ;
    let r = a * d + rest;
    assert(n == q * du + r) by (nonlinear_arith)
        requires
            n == d * m + rest,
            m == unit * q + a,
            du == d * unit,
            r == a * d + rest,
    ;
    assert(r < du) by (nonlinear_arith)
        requires
            rest < d,
            a + 1 <= unit,
            du == d * unit,
            r == a * d + rest,
    ;
    vstd::arithmetic::div_mod::lemma_fundamental_div_mod_converse(
        n as int,
        du as int,
        q as int,
        r as int,
    );
    let h = unit / 2;
    assert(unit == 2 * h);
    assert(du == 2 * (h * d)) by (nonlinear_arith)
        requires
            unit == 2 * h,
            du == d * unit,
    ;
    if a > h {
        assert(a * d >= h * d + d) by (nonlinear_arith)
            requires
                a >= h + 1,
                d > 0,
        ;
    } else if a < h {
        assert(a * d + d <= h * d) by (nonlinear_arith)
            requires
                a + 1 <= h,
                d > 0,
        ;
    } else {
        assert(a * d == h * d);
    }
}


// ---- reading ----

/// The length of the longest start of `s` made of digits and points.
pub open spec fn numeric_prefix(s: Seq<char>) -> int
    decreases s.len(),
{
    if s.len() > 0 && (text::is_digit(s[0]) || s[0] == '.') {
        1 + numeric_prefix(s.skip(1))
    } else {
        0
    }
}

/// A decimal number: digits, with at most one point among them, and at least
/// one digit. Its value is the number that the digits write, divided by ten
/// for each digit behind the point.
pub open spec fn decimal_parts(s: Seq<char>) -> Option<(Seq<char>, Seq<char>)> {
    let i = text::index_of_char(s, '.');
    let whole = s.take(i);
    let fraction = if i < s.len() {
        s.skip(i + 1)
    } else {
        Seq::empty()
    };
    if text::all_digits(whole) && text::all_digits(fraction) && whole.len() + fraction.len() > 0 {
        Some((whole, fraction))
    } else {
        None
    }
}

/// The bytes that a decimal number of units of `2^shift` bytes stands for.
pub open spec fn scaled(s: Seq<char>, shift: nat) -> Option<u64> {
    match decimal_parts(s) {
        Some((whole, fraction)) => Some(
            double_u64(text::number(whole + fraction) * pow2(shift), pow10(fraction.len())),
        ),
        None => None,
    }
}

proof fn lemma_digits_as_number(s: Seq<char>, b: Seq<u8>)
    requires
        s.len() == b.len(),
        forall|i: int| 0 <= i < s.len() ==> b[i] == (#[trigger] s[i]) as int - 48,
        text::all_digits(s),
    ensures
        decimal_digits(b),
        digit_value(b) == text::number(s),
    decreases s.len(),
{
    assert forall|i: int| 0 <= i < b.len() implies (#[trigger] b[i]) < 10 by {
        assert(text::is_digit(s[i]));
    }
    if s.len() > 0 {
        assert forall|i: int| 0 <= i < s.drop_last().len() implies b.drop_last()[i] == (
        #[trigger] s.drop_last()[i]) as int - 48 by {
            assert(s.drop_last()[i] == s[i]);
        }
        assert(text::all_digits(s.drop_last())) by {
            assert forall|i: int| 0 <= i < s.drop_last().len() implies text::is_digit(
                #[trigger] s.drop_last()[i],
            ) by {
                assert(s.drop_last()[i] == s[i]);
            }
        }
        lemma_digits_as_number(s.drop_last(), b.drop_last());
        assert(b.last() == s[s.len() - 1] as int - 48);
        assert(text::is_digit(s[s.len() - 1]));
    }
}

/// The digits of `v` between two positions; nothing where something else
/// stands there.
fn digits_between(v: &Vec<char>, from: usize, to: usize) -> (r: Option<Vec<u8>>)
    requires
        from <= to <= v@.len(),
    ensures
        match r {
            Some(b) => {
                let s = v@.subrange(from as int, to as int);
                &&& text::all_digits(s)
                &&& decimal_digits(b@)
                &&& b@.len() == s.len()
                &&& digit_value(b@) == text::number(s)
            },
            None => !text::all_digits(v@.subrange(from as int, to as int)),
        },
{
    let ghost s = v@.subrange(from as int, to as int);
    let mut b: Vec<u8> = Vec::new();
    let mut i: usize = from;
    while i < to
        invariant
            from <= i <= to <= v@.len(),
            s == v@.subrange(from as int, to as int),
            b@.len() == i - from,
            forall|j: int|
                0 <= j < i - from ==> text::is_digit(#[trigger] s[j]) && b@[j] == s[j] as int - 48,
        decreases to - i,
    {
        let c = v[i];
        assert(s[i - from] == c);
        if c < '0' || c > '9' {
            assert(!text::is_digit(s[i - from]));
            return None;
        }
        b.push(c as u8 - 48);
        i += 1;
    }
    proof {
        lemma_digits_as_number(s, b@);
    }
    Some(b)
}

/// The number that some digits write, where it fits in 64 bits.
fn small_value(b: &Vec<u8>) -> (r: Option<u64>)
    requires
        decimal_digits(b@),
    ensures
        match r {
            Some(n) => n == digit_value(b@),
            None => digit_value(b@) > u64::MAX,
        },
{
    let mut n: u64 = 0;
    let mut i: usize = 0;
    assert(b@.take(0) =~= Seq::<u8>::empty());
    while i < b.len()
        invariant
            i <= b@.len(),
            decimal_digits(b@),
            n == digit_value(b@.take(i as int)),
        decreases b@.len() - i,
    {
        let d: u64 = b[i] as u64;
        assert(b@.take(i + 1).drop_last() =~= b@.take(i as int));
        assert(digit_value(b@.take(i + 1)) == n * 10 + d);
        if n > u64::MAX / 10 || (n == u64::MAX / 10 && d > u64::MAX % 10) {
            proof {
                lemma_value_split(b@, i + 1);
                let p = pow10((b@.len() - (i + 1)) as nat);
                lemma_pow10_pos((b@.len() - (i + 1)) as nat);
                let a = digit_value(b@.take(i + 1));
                assert(a * p >= a) by (nonlinear_arith)
                    requires
                        p >= 1,
                        a >= 0,
                ;
            }
            return None;
        }
        n = n * 10 + d;
        i += 1;
    }
    assert(b@.take(b@.len() as int) =~= b@);
    Some(n)
}

/// The bytes that a decimal number of units of `2^shift` bytes stands for.
pub fn scaled_bytes(s: &str, shift: u32) -> (r: Option<u64>)
    requires
        shift <= 40,
    ensures
        r == scaled(s@, shift as nat),
{
    let v = text::chars_of(s);
    let n: usize = v.len();
    let mut i: usize = 0;
    while i < n && v[i] != '.'
        invariant
            n == v@.len(),
            i <= v@.len(),
            v@ == s@,
            forall|j: int| 0 <= j < i ==> v@[j] != '.',
        decreases v@.len() - i,
    {
        i += 1;
    }
    proof {
        text::lemma_index_of_char(s@, '.', i as int);
        assert(v@.subrange(0, i as int) =~= s@.take(i as int));
    }
    let behind: usize = if i < n {
        i + 1
    } else {
        n
    };
    let ghost whole_text = s@.take(i as int);
    let ghost fraction_text = if i < s@.len() {
        s@.skip(i + 1)
    } else {
        Seq::empty()
    };
    assert(v@.subrange(behind as int, n as int) =~= fraction_text);
    let whole = match digits_between(&v, 0, i) {
        Some(b) => b,
        None => {
            return None;
        },
    };
    let fraction = match digits_between(&v, behind, n) {
        Some(b) => b,
        None => {
            return None;
        },
    };
    if whole.len() == 0 && fraction.len() == 0 {
        return None;
    }
    let ghost k = fraction@.len();
    let ghost total = text::number(whole_text + fraction_text);
    proof {
        lemma_number_concat(whole_text, fraction_text);
        lemma_pow10_pos(k);
        lemma_pow2_pos(shift as nat);
    }
    match small_value(&whole) {
        Some(m) => {
            assert(mixed(m as nat, fraction@) == total);
            Some(round_mixed(m, fraction, shift))
        },
        None => {
            proof {
                lemma_too_big(
                    digit_value(whole@),
                    digit_value(fraction@),
                    pow10(k),
                    pow2(shift as nat),
                );
            }
            Some(u64::MAX)
        },
    }
}

proof fn lemma_too_big(w: nat, f: nat, d: nat, p: nat)
    requires
        w > u64::MAX,
        d > 0,
        p > 0,
    ensures
        ((w * d + f) * p) / d > u64::MAX,
{
    let n = (w * d + f) * p;
    assert(n >= w * d) by (nonlinear_arith)
        requires
            n == (w * d + f) * p,
            p >= 1,
            f >= 0,
            w >= 0,
            d >= 0,
    ;
    assert((w * d) / d == w) by (nonlinear_arith)
        requires
            d > 0,
    ;
    vstd::arithmetic::div_mod::lemma_div_is_ordered((w * d) as int, n as int, d as int);
}

proof fn lemma_number_concat(a: Seq<char>, b: Seq<char>)
    ensures
        text::number(a + b) == text::number(a) * pow10(b.len()) + text::number(b),
    decreases b.len(),
{
    if b.len() == 0 {
        assert(a + b =~= a);
        assert(text::number(a) * 1 == text::number(a)) by (nonlinear_arith);
    } else {
        assert((a + b).drop_last() =~= a + b.drop_last());
        lemma_number_concat(a, b.drop_last());
        let x = text::number(a);
        let p = pow10((b.len() - 1) as nat);
        let y = text::number(b.drop_last());
        let l = (b.last() as int - 48) as nat;
        assert((x * p + y) * 10 + l == x * (10 * p) + (y * 10 + l)) by (nonlinear_arith);
    }
}

/// A text cut behind the number that leads it.
pub open spec fn number_and_unit(s: Seq<char>) -> (Seq<char>, Seq<char>) {
    let k = numeric_prefix(s);
    (s.take(k), s.skip(k))
}

pub proof fn lemma_numeric_prefix(s: Seq<char>, i: int)
    requires
        0 <= i <= s.len(),
        forall|j: int| 0 <= j < i ==> text::is_digit(#[trigger] s[j]) || s[j] == '.',
        i < s.len() ==> !text::is_digit(s[i]) && s[i] != '.',
    ensures
        numeric_prefix(s) == i,
    decreases s.len(),
{
    if i > 0 {
        assert(text::is_digit(s[0]) || s[0] == '.');
        assert forall|j: int| 0 <= j < i - 1 implies text::is_digit(#[trigger] s.skip(1)[j])
            || s.skip(1)[j] == '.' by {
            assert(s.skip(1)[j] == s[j + 1]);
        }
        lemma_numeric_prefix(s.skip(1), i - 1);
    }
}

/// Cuts a text behind the number that leads it.
pub fn split_number(s: &str) -> (r: (String, String))
    ensures
        (r.0@, r.1@) == number_and_unit(s@),
{
    let v = text::chars_of(s);
    let n: usize = v.len();
    let mut i: usize = 0;
    while i < n && (('0' <= v[i] && v[i] <= '9') || v[i] == '.')
        invariant
            n == v@.len(),
            i <= n,
            forall|j: int| 0 <= j < i ==> text::is_digit(#[trigger] v@[j]) || v@[j] == '.',
        decreases n - i,
    {
        i += 1;
    }
    proof {
        lemma_numeric_prefix(v@, i as int);
        assert(v@.subrange(0, i as int) =~= v@.take(i as int));
        assert(v@.subrange(i as int, n as int) =~= v@.skip(i as int));
    }
    (text::text_of(&v, 0, i), text::text_of(&v, i, n))
}

// ---- writing ----

/// The units of `1024^u` bytes.
pub open spec fn unit_name(u: nat) -> Seq<char> {
    if u == 0 {
        "B"@
    } else if u == 1 {
        "KB"@
    } else if u == 2 {
        "MB"@
    } else if u == 3 {
        "GB"@
    } else {
        "TB"@
    }
}

/// The unit in which a byte count is written: the largest one of which there
/// is at least one, terabytes at most.
pub open spec fn unit_of(bytes: nat) -> nat {
    if bytes < 0x400 {
        0
    } else if bytes < 0x10_0000 {
        1
    } else if bytes < 0x4000_0000 {
        2
    } else if bytes < 0x100_0000_0000 {
        3
    } else {
        4
    }
}

/// A byte count to 53 binary digits.
pub open spec fn double_of(bytes: nat) -> nat {
    if bytes == 0 {
        0
    } else {
        double_floor(bytes, 1)
    }
}

/// A byte count as people read it: whole bytes, or tenths of the unit.
pub open spec fn human(bytes: nat) -> Seq<char> {
    let u = unit_of(bytes);
    if u == 0 {
        text::digits(bytes) + " "@ + unit_name(0)
    } else {
        let tenths = half_even(10 * double_of(bytes), pow2(10 * u));
        text::digits(tenths / 10) + "."@ + text::digits(tenths % 10) + " "@ + unit_name(u)
    }
}

/// A byte count to 53 binary digits.
fn nearest_double(bytes: u64) -> (r: u128)
    requires
        bytes > 0,
    ensures
        r == double_of(bytes as nat),
        r <= 0x1_0000_0000_0000_0000,
{
    let w: u128 = bytes as u128;
    let j = highest_bit(w);
    let ghost n = bytes as nat;
    proof {
        lemma_magnitude(n);
        assert(n / 1 == n);
    }
    if j <= 52 {
        proof {
            let p = pow2((52 - j) as nat);
            lemma_pow2_pos((52 - j) as nat);
            let x = n * p;
            assert(x / 1 == x && x % 1 == 0);
            assert(x / p == n) by (nonlinear_arith)
                requires
                    x == n * p,
                    p > 0,
            ;
        }
        w
    } else {
        let unit = power(j - 52);
        proof {
            lemma_pow2_monotonic((j - 52) as nat, 11);
            lemma_pow2_monotonic(1, (j - 52) as nat);
            lemma2_to64();
            lemma_pow2_unfold((j - 52) as nat);
            assert(1 * unit == unit) by (nonlinear_arith);
        }
        let q = w / unit;
        let a = w % unit;
        let up = 2 * a > unit || (2 * a == unit && q % 2 == 1);
        let rounded: u128 = if up {
            q + 1
        } else {
            q
        };
        proof {
            assert(rounded == half_even(n, 1 * pow2((j - 52) as nat)));
            lemma_round_top(w as nat, unit as nat, (j - 52) as nat);
        }
        rounded * unit
    }
}

/// Rounding to multiples of a power of two does not leave the 64-bit range by
/// more than one step.
proof fn lemma_round_top(w: nat, unit: nat, e: nat)
    requires
        w <= u64::MAX,
        unit == pow2(e),
        e <= 11,
    ensures
        (w / unit + 1) * unit <= 0x1_0000_0000_0000_0000,
        (w / unit) * unit <= w,
{
    lemma_pow2_pos(e);
    vstd::arithmetic::power2::lemma_pow2_adds(e, (64 - e) as nat);
    lemma2_to64();
    let t = pow2((64 - e) as nat);
    assert(w / unit < t) by (nonlinear_arith)
        requires
            w < unit * t,
            unit > 0,
    ;
    assert((w / unit + 1) * unit <= t * unit) by (nonlinear_arith)
        requires
            w / unit + 1 <= t,
            unit > 0,
    ;
    assert(t * unit == unit * t) by (nonlinear_arith);
    assert((w / unit) * unit <= w) by (nonlinear_arith)
        requires
            unit > 0,
    ;
}

/// A byte count as people read it, such as `1.5 GB`.
pub fn human_bytes(bytes: u64) -> (r: String)
    ensures
        r@ == human(bytes as nat),
{
    if bytes < 0x400 {
        return text::decimal(bytes).concat(" ").concat("B");
    }
    let (u, name, divisor): (u32, &str, u128) = if bytes < 0x10_0000 {
        (1, "KB", 0x400)
    } else if bytes < 0x4000_0000 {
        (2, "MB", 0x10_0000)
    } else if bytes < 0x100_0000_0000 {
        (3, "GB", 0x4000_0000)
    } else {
        (4, "TB", 0x100_0000_0000)
    };
    proof {
        lemma2_to64();
        lemma2_to64_rest();
    }
    let exact: u128 = nearest_double(bytes);
    let q: u128 = (10 * exact) / divisor;
    let rest: u128 = (10 * exact) % divisor;
    let tenths: u128 = if 2 * rest > divisor || (2 * rest == divisor && q % 2 == 1) {
        q + 1
    } else {
        q
    };
    assert(tenths == half_even(10 * double_of(bytes as nat), divisor as nat));
    proof {
        assert(divisor == pow2(10 * unit_of(bytes as nat)));
        assert(q <= 0x280_0000_0000_0000int) by (nonlinear_arith)
            requires
                q == (10 * exact) / (divisor as int),
                exact <= 0x1_0000_0000_0000_0000,
                divisor >= 0x400,
        ;
    }
    let t: u64 = tenths as u64;
    text::decimal(t / 10).concat(".").concat(text::decimal(t % 10).as_str()).concat(" ").concat(name)
}

// ---- a share of a count ----

/// By which power of two a percentage has 53 binary digits.
pub open spec fn percent_scale(percent: nat) -> nat {
    if percent >= 50 {
        53
    } else if percent >= 25 {
        54
    } else if percent >= 13 {
        55
    } else if percent >= 7 {
        56
    } else if percent >= 4 {
        57
    } else if percent >= 2 {
        58
    } else {
        59
    }
}

/// The double-precision number nearest to a percentage, times that power.
pub open spec fn percent_digits(percent: nat) -> nat {
    half_even(percent * pow2(percent_scale(percent)), 100)
}

/// The integer part of a percentage of a count, taken the way double-precision
/// numbers take it.
pub open spec fn percent_of(count: nat, percent: nat) -> nat {
    double_floor(
        double_of(count) * percent_digits(percent),
        pow2(percent_scale(percent)),
    )
}

fn round_half_even(n: u128, d: u128) -> (r: u128)
    requires
        0 < d < 0x1000_0000_0000_0000_0000_0000_0000_0000,
        n < u128::MAX,
    ensures
        r == half_even(n as nat, d as nat),
{
    let q = n / d;
    let a = n % d;
    if 2 * a > d || (2 * a == d && q % 2 == 1) {
        proof {
            assert(q <= n) by (nonlinear_arith)
                requires
                    q == n / d,
                    d > 0,
            ;
        }
        q + 1
    } else {
        q
    }
}

/// A percentage of a count, down to a whole number.
pub fn percent_floor(count: u64, percent: u8) -> (r: u128)
    requires
        1 <= percent <= 99,
    ensures
        r == percent_of(count as nat, percent as nat),
{
    let scale: u32 = if percent >= 50 {
        53
    } else if percent >= 25 {
        54
    } else if percent >= 13 {
        55
    } else if percent >= 7 {
        56
    } else if percent >= 4 {
        57
    } else if percent >= 2 {
        58
    } else {
        59
    };
    let d: u128 = 0x800_0000_0000_0000 / power(59 - scale);
    proof {
        lemma2_to64();
        lemma2_to64_rest();
        lemma_pow2_pos((59 - scale) as nat);
        vstd::arithmetic::power2::lemma_pow2_adds(scale as nat, (59 - scale) as nat);
        let a = pow2(scale as nat);
        let b = pow2((59 - scale) as nat);
        assert((a * b) / b == a) by (nonlinear_arith)
            requires
                b > 0,
        ;
        assert(pow2(59) == 0x800_0000_0000_0000);
        assert(d == a);
        lemma_pow2_monotonic(53, scale as nat);
        lemma_pow2_monotonic(scale as nat, 59);
    }
    proof {
        assert(percent * d <= 99 * 0x800_0000_0000_0000) by (nonlinear_arith)
            requires
                percent <= 99,
                d <= 0x800_0000_0000_0000,
        ;
    }
    let m = round_half_even((percent as u128) * d, 100);
    if count == 0 {
        proof {
            let z = double_of(0) * percent_digits(percent as nat);
            assert(z == 0) by (nonlinear_arith)
                requires
                    z == 0 * percent_digits(percent as nat),
            ;
            assert(0nat / (d as nat) == 0) by (nonlinear_arith)
                requires
                    d > 0,
            ;
            assert(0 * pow2(54) == 0) by (nonlinear_arith);
            assert((d as nat) * (pow2(54) - 1) > 0) by (nonlinear_arith)
                requires
                    d > 0,
                    pow2(54) > 1,
            ;
        }
        return 0;
    }
    let c = nearest_double(count);
    proof {
        lemma_percent_digits(percent as nat);
    }
    floor_of_product(c, m, d)
}

/// Fewer digits than the power has.
proof fn lemma_percent_digits(percent: nat)
    requires
        1 <= percent <= 99,
    ensures
        percent_digits(percent) < pow2(percent_scale(percent)),
        percent_digits(percent) <= 0x20_0000_0000_0000,
{
    let k = percent_scale(percent);
    lemma2_to64();
    lemma2_to64_rest();
    let d = pow2(k);
    let n = percent * d;
    assert(n / 100 <= (99 * d) / 100) by (nonlinear_arith)
        requires
            n == percent * d,
            percent <= 99,
    ;
}

/// The integer part of the double nearest to `c * m / d`.
fn floor_of_product(c: u128, m: u128, d: u128) -> (r: u128)
    requires
        c <= 0x1_0000_0000_0000_0000,
        m < d,
        m <= 0x20_0000_0000_0000,
        0x20_0000_0000_0000 <= d <= 0x800_0000_0000_0000,
    ensures
        r == double_floor((c * m) as nat, d as nat),
{
    proof {
        assert(c * m <= 0x1_0000_0000_0000_0000 * 0x20_0000_0000_0000) by (nonlinear_arith)
            requires
                c <= 0x1_0000_0000_0000_0000,
                m <= 0x20_0000_0000_0000,
        ;
    }
    let n = c * m;
    let w = n / d;
    proof {
        lemma2_to64();
        lemma2_to64_rest();
        assert(w < c || w == 0) by (nonlinear_arith)
            requires
                w == (c * m) / (d as int),
                m < d,
                0 <= c,
                d > 0,
        ;
    }
    if w == 0 {
        proof {
            assert(n < d) by (nonlinear_arith)
                requires
                    n / d == 0,
                    d > 0,
            ;
        }
        if n * 0x40_0000_0000_0000 >= d * 0x3F_FFFF_FFFF_FFFF {
            return 1;
        }
        return 0;
    }
    let j = highest_bit(w);
    proof {
        lemma_magnitude(w as nat);
        lemma_pow2_pos(j as nat);
    }
    if j <= 52 {
        let unit = power(52 - j);
        proof {
            lemma_pow2_unfold((j + 1) as nat);
            vstd::arithmetic::power2::lemma_pow2_adds((j + 1) as nat, (52 - j) as nat);
            let a = pow2((j + 1) as nat);
            let b = pow2((52 - j) as nat);
            assert(n < a * d) by (nonlinear_arith)
                requires
                    n / d < a,
                    d > 0,
            ;
            assert(n * b <= (a * b) * d) by (nonlinear_arith)
                requires
                    n < a * d,
            ;
            assert((a * b) * d <= 0x20_0000_0000_0000 * 0x800_0000_0000_0000) by (nonlinear_arith)
                requires
                    a * b == 0x20_0000_0000_0000,
                    d <= 0x800_0000_0000_0000,
            ;
        }
        let x = n * unit;
        round_half_even(x, d) / unit
    } else {
        let unit = power(j - 52);
        proof {
            lemma_pow2_monotonic((j - 52) as nat, 11);
            assert(d * unit <= 0x800_0000_0000_0000 * 0x800) by (nonlinear_arith)
                requires
                    d <= 0x800_0000_0000_0000,
                    unit <= 0x800,
            ;
            assert(d * unit > 0) by (nonlinear_arith)
                requires
                    d > 0,
                    unit > 0,
            ;
        }
        let big = d * unit;
        let q = round_half_even(n, big);
        proof {
            assert(n / big <= n) by (nonlinear_arith)
                requires
                    big > 0,
            ;
            assert(n / big <= w) by (nonlinear_arith)
                requires
                    w == n / d,
                    big == d * unit,
                    unit >= 1,
                    d > 0,
            ;
            assert(q * unit <= 0x1_0000_0000_0000_0001 * 0x800) by (nonlinear_arith)
                requires
                    q <= 0x1_0000_0000_0000_0001,
                    unit <= 0x800,
            ;
        }
        q * unit
    }
}

// ---- whole numbers of units ----

proof fn lemma_half_even_exact(x: nat, d: nat)
    requires
        d > 0,
    ensures
        half_even(x * d, d) == x,
{
    assert((x * d) / d == x) by (nonlinear_arith)
        requires
            d > 0,
    ;
    assert((x * d) % d == 0) by (nonlinear_arith)
        requires
            d > 0,
    ;
}

/// A number that 53 binary digits hold, perhaps with zeros behind them, is kept as
/// it is.
pub proof fn lemma_double_exact(n: nat, s: nat, d: nat)
    requires
        d > 0,
        n * pow2(s) <= u64::MAX,
        s >= 11 || n * pow2(s) < 0x20_0000_0000_0000,
    ensures
        double_floor(n * pow2(s) * d, d) == n * pow2(s),
{
    let v = n * pow2(s);
    let x = v * d;
    assert(x / d == v) by (nonlinear_arith)
        requires
            x == v * d,
            d > 0,
    ;
    lemma2_to64();
    lemma2_to64_rest();
    lemma_pow2_pos(54);
    if v == 0 {
        assert(x == 0) by (nonlinear_arith)
            requires
                x == v * d,
                v == 0,
        ;
        assert(0 * pow2(54) == 0);
        assert(d * (pow2(54) - 1) > 0) by (nonlinear_arith)
            requires
                d > 0,
                pow2(54) > 1,
        ;
    } else {
        let j = magnitude(v);
        lemma_magnitude(v);
        if j > 63 {
            lemma_pow2_monotonic(64, j);
        }
        if j <= 52 {
            let p = pow2((52 - j) as nat);
            lemma_pow2_pos((52 - j) as nat);
            assert(x * p == (v * p) * d) by (nonlinear_arith)
                requires
                    x == v * d,
            ;
            lemma_half_even_exact(v * p, d);
            assert((v * p) / p == v) by (nonlinear_arith)
                requires
                    p > 0,
            ;
        } else {
            if s < 11 {
                lemma_pow2_monotonic(53, j);
            }
            let q = pow2((j - 52) as nat);
            let rest = (s - (j - 52)) as nat;
            lemma_pow2_pos((j - 52) as nat);
            lemma_pow2_adds(rest, (j - 52) as nat);
            let m = n * pow2(rest);
            assert(v == m * q) by (nonlinear_arith)
                requires
                    v == n * pow2(s),
                    m == n * pow2(rest),
                    pow2(s) == pow2(rest) * q,
            ;
            assert(x == m * (d * q)) by (nonlinear_arith)
                requires
                    x == v * d,
                    v == m * q,
            ;
            assert(d * q > 0) by (nonlinear_arith)
                requires
                    d > 0,
                    q > 0,
            ;
            lemma_half_even_exact(m, d * q);
        }
    }
}

/// A whole number of units is written with that number.
pub proof fn lemma_whole_units(n: nat, u: nat)
    requires
        1 <= u <= 4,
        n * pow2(10 * u) <= u64::MAX,
        unit_of(n * pow2(10 * u)) == u,
    ensures
        human(n * pow2(10 * u)) == text::digits(n) + "."@ + text::digits(0) + " "@ + unit_name(u),
{
    let v = n * pow2(10 * u);
    lemma2_to64();
    lemma2_to64_rest();
    lemma_double_exact(n, 10 * u, 1);
    assert(v * 1 == v);
    lemma_pow2_pos(10 * u);
    assert(10 * v == (10 * n) * pow2(10 * u)) by (nonlinear_arith)
        requires
            v == n * pow2(10 * u),
    ;
    lemma_half_even_exact(10 * n, pow2(10 * u));
}

/// The number in front of a whole number of units is read as that many units.
pub proof fn lemma_whole_scaled(n: nat, u: nat)
    requires
        u <= 4,
        n * pow2(10 * u) <= u64::MAX,
        unit_of(n * pow2(10 * u)) == u,
    ensures
        u == 0 ==> scaled(text::digits(n), 0) == Some(n as u64),
        u > 0 ==> scaled(text::digits(n) + "."@ + text::digits(0), 10 * u) == Some(
            (n * pow2(10 * u)) as u64,
        ),
{
    let v = n * pow2(10 * u);
    let d = text::digits(n);
    lemma2_to64();
    lemma2_to64_rest();
    text::lemma_digits_number(n);
    text::lemma_digits_number(0);
    reveal_strlit(".");
    reveal_with_fuel(pow10, 2);
    if u == 0 {
        assert forall|j: int| 0 <= j < d.len() implies d[j] != '.' by {
            assert(text::is_digit(d[j]));
        }
        text::lemma_index_of_char(d, '.', d.len() as int);
        assert(d.take(d.len() as int) =~= d);
        assert(d + Seq::<char>::empty() =~= d);
        lemma_double_exact(n, 0, 1);
        assert(n * pow2(0) * 1 == n);
        assert(n / 1 == n);
    } else {
        let z = text::digits(0);
        let t = d + "."@ + z;
        assert(z.len() == 1);
        assert forall|j: int| 0 <= j < d.len() implies t[j] != '.' by {
            assert(text::is_digit(d[j]));
        }
        text::lemma_index_of_char(t, '.', d.len() as int);
        assert(t.take(d.len() as int) =~= d);
        assert(t.skip(d.len() as int + 1) =~= z);
        assert((d + z).drop_last() =~= d);
        assert(text::number(d + z) == 10 * n);
        lemma_double_exact(n, 10 * u, 10);
        assert(10 * n * pow2(10 * u) == v * 10) by (nonlinear_arith)
            requires
                v == n * pow2(10 * u),
        ;
        assert((v * 10) / 10 == v);
    }
}

/// A sum is the sum wherever it fits, and never less than either part.
pub proof fn law_sums_are_sums(a: u64, b: u64)
    ensures
        a + b <= u64::MAX ==> capped_sum(a, b) == a + b,
        capped_sum(a, b) >= a,
        capped_sum(a, b) >= b,
        capped_sum(a, b) == capped_sum(b, a),
        a + b > u64::MAX ==> capped_sum(a, b) == 0xffff_ffff_ffff_ffff,
{
}

/// A quotient is rounded to the nearest whole number: it is off by no more than half
/// the divisor.
pub proof fn law_rounding_is_to_the_nearest(n: nat, d: nat)
    requires
        d > 0,
    ensures
        2 * (half_even(n, d) * d) <= 2 * n + d,
        2 * n <= 2 * (half_even(n, d) * d) + d,
        n % d == 0 ==> half_even(n, d) * d == n,
{
    let q = n / d;
    let r = n % d;
    assert(n == q * d + r && r < d) by (nonlinear_arith)
        requires
            d > 0,
            q == n / d,
            r == n % d,
    ;
    assert((q + 1) * d == q * d + d) by (nonlinear_arith);
}

/// A count below a kibibyte is written in bytes, one below a mebibyte in kibibytes,
/// and so on up to tebibytes.
pub proof fn law_units_follow_the_size(bytes: nat)
    ensures
        unit_of(bytes) == 0 <==> bytes < 1024,
        unit_of(bytes) == 1 <==> 1024 <= bytes < 1024 * 1024,
        unit_of(bytes) == 2 <==> 1024 * 1024 <= bytes < 1024 * 1024 * 1024,
        unit_of(bytes) == 3 <==> 1024 * 1024 * 1024 <= bytes < 1024 * 1024 * 1024 * 1024,
        unit_of(bytes) == 4 <==> bytes >= 1024 * 1024 * 1024 * 1024,
        bytes < 1024 ==> human(bytes) == text::digits(bytes) + " "@ + "B"@,
{
}

} // verus!
