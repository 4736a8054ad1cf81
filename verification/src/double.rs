//! Numbers of double precision: 53 significant bits, rounded to the nearest, on a tie to the
//! even one. They are held as integers, so what is computed with them can be stated and proved.

use vstd::arithmetic::div_mod;
use vstd::arithmetic::power2;
use vstd::prelude::*;

verus! {

/// The first number that needs more than 53 bits.
pub const WHOLE: u128 = 0x20_0000_0000_0000;

/// The first number of 53 bits.
const HALF: u128 = 0x10_0000_0000_0000;

// ---------------------------------------------------------------- rounding

/// The whole number nearest to `n / d`, on a tie the even one.
pub open spec fn even_round(n: nat, d: nat) -> nat {
    let q = n / d;
    let r = n % d;
    if 2 * r < d || (2 * r == d && q % 2 == 0) {
        q
    } else {
        q + 1
    }
}

/// How many bits a number has more than 53.
pub open spec fn spare(q: nat) -> nat
    decreases q,
{
    if q < WHOLE {
        0
    } else {
        1 + spare(q / 2)
    }
}

/// The number of 53 significant bits nearest to `n / d`, on a tie the even one. It is meant for
/// whole numbers and for fractions that are not below the first number of 53 bits: numbers with
/// bits behind the point are counted in units that are small enough.
pub open spec fn rounded(n: nat, d: nat) -> nat {
    let unit = power2::pow2(spare(n / d));
    even_round(n, d * unit) * unit
}

/// What a number is counted in here: 1 stands for this many units.
pub open spec fn one() -> nat {
    power2::pow2(120)
}

// ---------------------------------------------------------------- laws of rounding

proof fn lemma_no_shift(n: nat)
    ensures
        n * power2::pow2(0) == n,
{
    power2::lemma2_to64();
    let p = power2::pow2(0);
    assert(n * p == n) by (nonlinear_arith)
        requires
            p == 1,
    ;
}

proof fn lemma_scaled(n: nat, d: nat, c: nat)
    requires
        d > 0,
        c > 0,
    ensures
        d * c > 0,
        (n * c) / (d * c) == n / d,
        (n * c) % (d * c) == (n % d) * c,
{
    let q = n / d;
    let r = n % d;
    div_mod::lemma_fundamental_div_mod(n as int, d as int);
    assert(n == q * d + r) by (nonlinear_arith)
        requires
            n == d * q + r,
    ;
    assert(n * c == q * (d * c) + r * c) by (nonlinear_arith)
        requires
            n == q * d + r,
    ;
    assert(0 <= r * c < d * c) by (nonlinear_arith)
        requires
            0 <= r < d,
            c > 0,
    ;
    div_mod::lemma_fundamental_div_mod_converse(
        (n * c) as int,
        (d * c) as int,
        q as int,
        (r * c) as int,
    );
}

proof fn lemma_even_scaled(n: nat, d: nat, c: nat)
    requires
        d > 0,
        c > 0,
    ensures
        even_round(n * c, d * c) == even_round(n, d),
{
    lemma_scaled(n, d, c);
    let r = n % d;
    assert(2 * (r * c) < d * c <==> 2 * r < d) by (nonlinear_arith)
        requires
            c > 0,
    ;
    assert(2 * (r * c) == d * c <==> 2 * r == d) by (nonlinear_arith)
        requires
            c > 0,
    ;
}

proof fn lemma_even_grows(n: nat, m: nat, d: nat)
    requires
        d > 0,
        n <= m,
    ensures
        even_round(n, d) <= even_round(m, d),
{
    div_mod::lemma_div_is_ordered(n as int, m as int, d as int);
    if n / d == m / d {
        div_mod::lemma_fundamental_div_mod(n as int, d as int);
        div_mod::lemma_fundamental_div_mod(m as int, d as int);
        assert(n % d <= m % d);
    }
}

proof fn lemma_spare(q: nat)
    ensures
        power2::pow2(spare(q)) > 0,
        q / power2::pow2(spare(q)) < WHOLE,
        spare(q) > 0 ==> q / power2::pow2(spare(q)) >= HALF,
    decreases q,
{
    power2::lemma_pow2_pos(spare(q));
    if q < WHOLE {
        power2::lemma2_to64();
    } else {
        let e = spare(q / 2);
        lemma_spare(q / 2);
        power2::lemma_pow2_unfold(e + 1);
        div_mod::lemma_div_denominator(q as int, 2, power2::pow2(e) as int);
        if e == 0 {
            power2::lemma2_to64();
        }
    }
}

proof fn lemma_spare_grows(q: nat, p: nat)
    requires
        q <= p,
    ensures
        spare(q) <= spare(p),
    decreases p,
{
    if q >= WHOLE {
        lemma_spare_grows(q / 2, p / 2);
    }
}

/// Rounding keeps the order.
pub proof fn law_rounding_keeps_order(n: nat, m: nat, d: nat)
    requires
        d > 0,
        n <= m,
    ensures
        rounded(n, d) <= rounded(m, d),
{
    let (e, f) = (spare(n / d), spare(m / d));
    let (u, v) = (power2::pow2(e), power2::pow2(f));
    div_mod::lemma_div_is_ordered(n as int, m as int, d as int);
    lemma_spare_grows(n / d, m / d);
    lemma_spare(n / d);
    lemma_spare(m / d);
    assert(d * u > 0 && d * v > 0) by (nonlinear_arith)
        requires
            d > 0,
            u > 0,
            v > 0,
    ;
    div_mod::lemma_div_denominator(n as int, d as int, u as int);
    div_mod::lemma_div_denominator(m as int, d as int, v as int);
    let (a, b) = (even_round(n, d * u), even_round(m, d * v));
    if e == f {
        lemma_even_grows(n, m, d * u);
        assert(a * u <= b * u) by (nonlinear_arith)
            requires
                a <= b,
        ;
    } else {
        power2::lemma_pow2_adds(e, (f - e) as nat);
        power2::lemma_pow2_unfold((f - e) as nat);
        power2::lemma_pow2_pos((f - e - 1) as nat);
        let w = power2::pow2((f - e) as nat);
        assert(a * u <= WHOLE * u) by (nonlinear_arith)
            requires
                a <= WHOLE,
        ;
        assert(WHOLE * u <= HALF * (u * w)) by (nonlinear_arith)
            requires
                w >= 2,
                WHOLE == 2 * HALF,
        ;
        assert(HALF * v <= b * v) by (nonlinear_arith)
            requires
                HALF <= b,
        ;
    }
}

proof fn lemma_rounded_twice(n: nat, d: nat)
    requires
        d > 0,
        n / d >= HALF,
    ensures
        (2 * n) / d >= WHOLE,
        rounded(2 * n, d) == 2 * rounded(n, d),
{
    let e = spare(n / d);
    let u = power2::pow2(e);
    lemma_spare(n / d);
    div_mod::lemma_fundamental_div_mod(n as int, d as int);
    lemma_scaled(n, d, 2);
    div_mod::lemma_div_denominator((2 * n) as int, d as int, 2);
    assert((2 * n) / d / 2 == n / d);
    power2::lemma_pow2_unfold(e + 1);
    assert(d * u > 0) by (nonlinear_arith)
        requires
            d > 0,
            u > 0,
    ;
    assert(d * (2 * u) == (d * u) * 2) by (nonlinear_arith);
    lemma_even_scaled(n, d * u, 2);
    let a = even_round(n, d * u);
    assert(a * (2 * u) == 2 * (a * u)) by (nonlinear_arith);
}

/// Doubling a number any number of times commutes with rounding it.
proof fn lemma_rounded_shifted(n: nat, d: nat, j: nat)
    requires
        d > 0,
        n / d >= HALF,
    ensures
        rounded(n * power2::pow2(j), d) == rounded(n, d) * power2::pow2(j),
    decreases j,
{
    power2::lemma2_to64();
    if j > 0 {
        let p = power2::pow2((j - 1) as nat);
        power2::lemma_pow2_unfold(j);
        power2::lemma_pow2_pos((j - 1) as nat);
        lemma_rounded_shifted(n, d, (j - 1) as nat);
        assert(n * p >= n) by (nonlinear_arith)
            requires
                p >= 1,
        ;
        div_mod::lemma_div_is_ordered(n as int, (n * p) as int, d as int);
        lemma_rounded_twice(n * p, d);
        assert(n * (2 * p) == 2 * (n * p)) by (nonlinear_arith);
        let r = rounded(n, d);
        assert(r * (2 * p) == 2 * (r * p)) by (nonlinear_arith);
    } else {
        lemma_no_shift(n);
        lemma_no_shift(rounded(n, d));
    }
}

proof fn lemma_rounded_scaled(n: nat, d: nat, c: nat)
    requires
        d > 0,
        c > 0,
    ensures
        rounded(n * c, d * c) == rounded(n, d),
{
    lemma_scaled(n, d, c);
    lemma_spare(n / d);
    let u = power2::pow2(spare(n / d));
    assert(d * u > 0) by (nonlinear_arith)
        requires
            d > 0,
            u > 0,
    ;
    lemma_even_scaled(n, d * u, c);
    assert((d * u) * c == (d * c) * u) by (nonlinear_arith);
}

proof fn lemma_spare_at_most(a: nat, j: nat)
    requires
        a < WHOLE,
    ensures
        spare(a * power2::pow2(j)) <= j,
    decreases j,
{
    power2::lemma2_to64();
    if j > 0 {
        let p = power2::pow2((j - 1) as nat);
        power2::lemma_pow2_unfold(j);
        assert(a * (2 * p) == 2 * (a * p)) by (nonlinear_arith);
        lemma_spare_at_most(a, (j - 1) as nat);
    } else {
        lemma_no_shift(a);
    }
}

/// A number that needs no more than 53 bits is not changed.
pub proof fn law_rounding_keeps_short_numbers(a: nat, j: nat)
    requires
        a <= WHOLE,
    ensures
        rounded(a * power2::pow2(j), 1) == a * power2::pow2(j),
    decreases a,
{
    if a == WHOLE {
        power2::lemma_pow2_unfold(j + 1);
        let p = power2::pow2(j);
        assert(a * p == (HALF as nat) * (2 * p)) by (nonlinear_arith)
            requires
                a == 2 * HALF,
        ;
        law_rounding_keeps_short_numbers(HALF as nat, j + 1);
    } else {
        let n = a * power2::pow2(j);
        let e = spare(n);
        lemma_spare_at_most(a, j);
        lemma_spare(n);
        let u = power2::pow2(e);
        let w = power2::pow2((j - e) as nat);
        power2::lemma_pow2_adds(e, (j - e) as nat);
        let x = a * w;
        assert(n == x * u) by (nonlinear_arith)
            requires
                n == a * (u * w),
                x == a * w,
        ;
        div_mod::lemma_fundamental_div_mod_converse(n as int, u as int, x as int, 0);
    }
}

// ---------------------------------------------------------------- numbers

/// A number above zero: `m` times a power of two, counted in units.
#[derive(Clone, Copy)]
struct Double {
    m: u128,
    j: u32,
}

impl Double {
    /// The first of the 53 bits is set.
    spec fn wf(self) -> bool {
        HALF <= self.m < WHOLE
    }

    /// The number in units.
    spec fn units(self) -> nat {
        self.m as nat * power2::pow2(self.j as nat)
    }
}

proof fn lemma_powers()
    ensures
        power2::pow2(0) == 1,
        power2::pow2(1) == 2,
        power2::pow2(52) == HALF,
        power2::pow2(53) == WHOLE,
        power2::pow2(64) == 0x1_0000_0000_0000_0000,
        power2::pow2(66) == 0x4_0000_0000_0000_0000,
        power2::pow2(67) == 0x8_0000_0000_0000_0000,
        power2::pow2(120) == 0x100_0000_0000_0000_0000_0000_0000_0000,
{
    power2::lemma2_to64();
    power2::lemma2_to64_rest();
    power2::lemma_pow2_adds(64, 2);
    power2::lemma_pow2_adds(64, 3);
    power2::lemma_pow2_adds(64, 56);
}

proof fn lemma_smaller_power(e: nat, f: nat)
    requires
        power2::pow2(e) < power2::pow2(f),
    ensures
        e < f,
{
    if e > f {
        power2::lemma_pow2_strictly_increases(f, e);
    }
}

fn power(k: u32) -> (r: u128)
    requires
        k <= 120,
    ensures
        r == power2::pow2(k as nat),
{
    let mut r: u128 = 1;
    let mut i: u32 = 0;
    proof {
        lemma_powers();
    }
    while i < k
        invariant
            i <= k <= 120,
            r == power2::pow2(i as nat),
        decreases k - i,
    {
        proof {
            lemma_powers();
            power2::lemma_pow2_unfold((i + 1) as nat);
            power2::lemma_pow2_strictly_increases(i as nat, 120);
        }
        r = r * 2;
        i += 1;
    }
    r
}

fn even_quotient(n: u128, d: u128) -> (r: u128)
    requires
        d > 0,
        n < u128::MAX,
    ensures
        r == even_round(n as nat, d as nat),
{
    let q: u128 = n / d;
    let rest: u128 = n % d;
    assert(q <= n) by (nonlinear_arith)
        requires
            q == n / d,
            d > 0,
    ;
    if rest < d - rest || (rest == d - rest && q % 2 == 0) {
        q
    } else {
        q + 1
    }
}

/// Rounds a whole number: 53 bits, and the power of two that they are to be multiplied by.
fn round_parts(n: u128) -> (r: (u128, u32))
    requires
        HALF <= n < 0x100_0000_0000_0000_0000_0000_0000_0000,
    ensures
        HALF <= r.0 < WHOLE,
        r.0 as nat * power2::pow2(r.1 as nat) == rounded(n as nat, 1),
        r.1 <= 68,
{
    let mut rest: u128 = n;
    let mut p: u128 = 1;
    let mut e: u32 = 0;
    proof {
        lemma_powers();
    }
    while rest >= WHOLE
        invariant
            n < 0x100_0000_0000_0000_0000_0000_0000_0000,
            p == power2::pow2(e as nat),
            p * rest <= n,
            e + spare(rest as nat) == spare(n as nat),
            e <= 67,
        decreases rest,
    {
        proof {
            lemma_powers();
            assert(p < 0x8_0000_0000_0000_0000) by (nonlinear_arith)
                requires
                    p * rest <= n,
                    rest >= 0x20_0000_0000_0000,
                    n < 0x100_0000_0000_0000_0000_0000_0000_0000,
            ;
            lemma_smaller_power(e as nat, 67);
            power2::lemma_pow2_unfold((e + 1) as nat);
            let half = rest / 2;
            assert((p * 2) * half <= n) by (nonlinear_arith)
                requires
                    p * rest <= n,
                    2 * half <= rest,
            ;
        }
        rest = rest / 2;
        p = p * 2;
        e += 1;
    }
    proof {
        lemma_spare(n as nat);
    }
    let a: u128 = even_quotient(n, p);
    proof {
        if e == 0 {
            assert(n as nat / p as nat == n);
        }
    }
    if a == WHOLE {
        proof {
            power2::lemma_pow2_unfold((e + 1) as nat);
            let u = power2::pow2(e as nat);
            assert((HALF as nat) * (2 * u) == (WHOLE as nat) * u) by (nonlinear_arith)
                requires
                    WHOLE == 2 * HALF,
            ;
        }
        (HALF, e + 1)
    } else {
        (a, e)
    }
}

/// A whole number that was rounded, in units.
pub open spec fn number(n: nat) -> nat {
    rounded(n, 1) * one()
}

proof fn lemma_number_bound(n: nat)
    requires
        n <= u64::MAX,
    ensures
        rounded(n, 1) <= 0x1_0000_0000_0000_0000,
        n < WHOLE ==> rounded(n, 1) == n,
        n > 0 ==> rounded(n, 1) > 0,
{
    lemma_powers();
    law_rounding_keeps_order(n, power2::pow2(64), 1);
    law_rounding_keeps_short_numbers(1, 64);
    assert(1 * power2::pow2(64) == power2::pow2(64));
    law_rounding_keeps_short_numbers(1, 0);
    assert(1 * power2::pow2(0) == 1);
    if n > 0 {
        law_rounding_keeps_order(1, n, 1);
    }
    if n < WHOLE {
        law_rounding_keeps_short_numbers(n, 0);
        lemma_no_shift(n);
    }
}

/// Where the bits of a number stand that lies between two powers of two.
proof fn lemma_place(d: Double, n: nat, low: nat, high: nat)
    requires
        d.wf(),
        d.units() == n * one(),
        power2::pow2(low) <= n < power2::pow2(high),
    ensures
        low + 68 <= d.j < high + 68,
{
    lemma_powers();
    let u = power2::pow2(d.j as nat);
    power2::lemma_pow2_pos(d.j as nat);
    power2::lemma_pow2_adds(52, d.j as nat);
    power2::lemma_pow2_adds(53, d.j as nat);
    power2::lemma_pow2_adds(low, 120);
    power2::lemma_pow2_adds(high, 120);
    assert(HALF * u <= d.m * u < WHOLE * u) by (nonlinear_arith)
        requires
            HALF <= d.m < WHOLE,
            u > 0,
    ;
    let (a, b) = (power2::pow2(low), power2::pow2(high));
    let c = one();
    assert(a * c <= n * c < b * c) by (nonlinear_arith)
        requires
            a <= n < b,
            c > 0,
    ;
    lemma_smaller_power((52 + d.j) as nat, high + 120);
    lemma_smaller_power(low + 120, (53 + d.j) as nat);
}

/// A whole number.
fn from_number(n: u64) -> (r: Double)
    requires
        n > 0,
    ensures
        r.wf(),
        r.units() == number(n as nat),
        68 <= r.j <= 132,
{
    proof {
        lemma_powers();
        lemma_number_bound(n as nat);
    }
    let whole: u128 = n as u128;
    if whole >= HALF {
        let (m, e) = round_parts(whole);
        proof {
            let u = power2::pow2(e as nat);
            assert(u < 0x2000) by (nonlinear_arith)
                requires
                    m * u <= 0x1_0000_0000_0000_0000,
                    m >= 0x10_0000_0000_0000,
            ;
            power2::lemma2_to64();
            lemma_smaller_power(e as nat, 13);
            power2::lemma_pow2_adds(e as nat, 120);
            let c = one();
            assert(m * (u * c) == (m * u) * c) by (nonlinear_arith);
        }
        return Double { m, j: 120 + e };
    }
    let mut m: u128 = whole;
    let mut a: u32 = 0;
    proof {
        lemma_no_shift(n as nat);
    }
    while m < HALF
        invariant
            0 < n,
            m == n * power2::pow2(a as nat),
            m < WHOLE,
            a <= 52,
        decreases WHOLE - m,
    {
        proof {
            lemma_powers();
            power2::lemma_pow2_pos(a as nat);
            let p = power2::pow2(a as nat);
            assert(p < 0x10_0000_0000_0000) by (nonlinear_arith)
                requires
                    n * p < 0x10_0000_0000_0000,
                    n > 0,
            ;
            lemma_smaller_power(a as nat, 52);
            power2::lemma_pow2_unfold((a + 1) as nat);
            assert(n * (2 * p) == 2 * (n * p)) by (nonlinear_arith);
            assert(m > 0) by (nonlinear_arith)
                requires
                    m == n * p,
                    n > 0,
                    p > 0,
            ;
        }
        m = m * 2;
        a += 1;
    }
    proof {
        power2::lemma_pow2_adds(a as nat, (120 - a) as nat);
        let (p, q) = (power2::pow2(a as nat), power2::pow2((120 - a) as nat));
        assert((n * p) * q == n * (p * q)) by (nonlinear_arith);
    }
    Double { m, j: 120 - a }
}

/// Divides one number by another.
fn quotient(a: Double, b: Double) -> (r: Double)
    requires
        a.wf(),
        b.wf(),
        a.j <= 200,
        b.j <= a.j + 67,
    ensures
        r.wf(),
        r.units() == rounded(a.units() * one(), b.units()),
        a.j + 67 <= r.j + b.j <= a.j + 69,
{
    let t: u32 = if a.m >= b.m {
        52
    } else {
        53
    };
    let p: u128 = if a.m >= b.m {
        HALF
    } else {
        WHOLE
    };
    proof {
        lemma_powers();
        assert(p == power2::pow2(t as nat));
        assert(a.m * p < 0x400_0000_0000_0000_0000_0000_0000) by (nonlinear_arith)
            requires
                a.m < 0x20_0000_0000_0000,
                p <= 0x20_0000_0000_0000,
        ;
    }
    let n: u128 = a.m * p;
    let m: u128 = even_quotient(n, b.m);
    let j: u32 = a.j + 120 - t - b.j;
    proof {
        lemma_quotient(a, b, n as nat, t as nat, j as nat);
    }
    if m == WHOLE {
        proof {
            let u = power2::pow2(j as nat);
            power2::lemma_pow2_unfold((j + 1) as nat);
            assert((HALF as nat) * (2 * u) == (WHOLE as nat) * u) by (nonlinear_arith)
                requires
                    WHOLE == 2 * HALF,
            ;
        }
        Double { m: HALF, j: j + 1 }
    } else {
        Double { m, j }
    }
}

proof fn lemma_quotient(a: Double, b: Double, n: nat, t: nat, j: nat)
    requires
        a.wf(),
        b.wf(),
        t == (if a.m >= b.m {
            52nat
        } else {
            53nat
        }),
        n == a.m * power2::pow2(t),
        j + t + b.j == a.j + 120,
    ensures
        HALF <= even_round(n, b.m as nat) <= WHOLE,
        rounded(a.units() * one(), b.units()) == even_round(n, b.m as nat) * power2::pow2(j),
{
    lemma_powers();
    let d = b.m as nat;
    let q = n / d;
    let p = power2::pow2(t);
    assert(HALF <= q < WHOLE) by {
        assert(HALF * d <= n < WHOLE * d) by (nonlinear_arith)
            requires
                n == a.m * p,
                d == b.m,
                HALF <= a.m < WHOLE,
                HALF <= d < WHOLE,
                WHOLE == 2 * HALF,
                (p == HALF && a.m >= d) || (p == WHOLE && a.m < d),
        ;
        div_mod::lemma_fundamental_div_mod(n as int, d as int);
        assert(q >= HALF) by (nonlinear_arith)
            requires
                HALF * d <= n,
                n == d * q + n % d,
                n % d < d,
                d > 0,
        ;
        assert(q < WHOLE) by (nonlinear_arith)
            requires
                n < WHOLE * d,
                n == d * q + n % d,
                0 <= n % d,
                d > 0,
        ;
    }
    assert(rounded(n, d) == even_round(n, d)) by {
        assert(spare(q) == 0);
        lemma_no_shift(d);
        lemma_no_shift(even_round(n, d));
    }
    let (u, v, w) = (power2::pow2(a.j as nat), power2::pow2(b.j as nat), power2::pow2(j));
    power2::lemma_pow2_pos(b.j as nat);
    power2::lemma_pow2_adds(a.j as nat, 120);
    power2::lemma_pow2_adds(j, t);
    power2::lemma_pow2_adds(j + t, b.j as nat);
    let c = one();
    assert((a.m * u) * c == ((a.m * p) * w) * v) by (nonlinear_arith)
        requires
            u * c == (w * p) * v,
    ;
    lemma_rounded_shifted(n, d, j);
    lemma_rounded_scaled(n * w, d, v);
}

/// A number a whole number of times.
fn times(a: Double, w: u128) -> (r: Double)
    requires
        a.wf(),
        a.j <= 200,
        0 < w <= 0x1_0000_0000_0000_0000,
    ensures
        r.wf(),
        r.units() == rounded(a.units() * w as nat, 1),
        a.j <= r.j <= a.j + 68,
{
    let m = a.m;
    assert(HALF <= m * w <= 0x20_0000_0000_0000_0000_0000_0000_0000) by (nonlinear_arith)
        requires
            HALF <= m < 0x20_0000_0000_0000,
            0 < w <= 0x1_0000_0000_0000_0000,
    ;
    let n: u128 = m * w;
    let (top, e) = round_parts(n);
    proof {
        let u = power2::pow2(a.j as nat);
        let v = power2::pow2(e as nat);
        lemma_rounded_shifted(n as nat, 1, a.j as nat);
        assert((m * u) * w == (m * w) * u) by (nonlinear_arith);
        power2::lemma_pow2_adds(e as nat, a.j as nat);
        assert((top * v) * u == top * (v * u)) by (nonlinear_arith);
    }
    Double { m: top, j: a.j + e }
}

/// Whether a number is at least another.
fn at_least(a: Double, b: Double) -> (r: bool)
    requires
        a.wf(),
        b.wf(),
    ensures
        r == (a.units() >= b.units()),
{
    proof {
        lemma_order(a, b);
        lemma_order(b, a);
    }
    a.j > b.j || (a.j == b.j && a.m >= b.m)
}

proof fn lemma_order(a: Double, b: Double)
    requires
        a.wf(),
        b.wf(),
    ensures
        a.j > b.j ==> a.units() > b.units(),
        a.j == b.j ==> (a.units() >= b.units() <==> a.m >= b.m),
{
    let (u, v) = (power2::pow2(a.j as nat), power2::pow2(b.j as nat));
    power2::lemma_pow2_pos(b.j as nat);
    if a.j > b.j {
        let w = power2::pow2((a.j - b.j) as nat);
        power2::lemma_pow2_adds((a.j - b.j) as nat, b.j as nat);
        power2::lemma_pow2_unfold((a.j - b.j) as nat);
        power2::lemma_pow2_pos((a.j - b.j - 1) as nat);
        assert(a.m * (w * v) > b.m * v) by (nonlinear_arith)
            requires
                a.m >= HALF,
                b.m < WHOLE,
                WHOLE == 2 * HALF,
                w >= 2,
                v > 0,
        ;
    } else if a.j == b.j {
        assert(a.m * v >= b.m * v <==> a.m >= b.m) by (nonlinear_arith)
            requires
                v > 0,
        ;
    }
}

/// The sum of two numbers; the second is not counted in larger units.
fn sum(a: Double, b: Double) -> (r: Double)
    requires
        a.wf(),
        b.wf(),
        b.j <= a.j <= b.j + 66,
        a.j <= 200,
    ensures
        r.wf(),
        r.units() == rounded(a.units() + b.units(), 1),
        b.j <= r.j <= b.j + 68,
{
    let shift: u32 = a.j - b.j;
    let p: u128 = power(shift);
    proof {
        lemma_powers();
        if shift < 66 {
            power2::lemma_pow2_strictly_increases(shift as nat, 66);
        }
        power2::lemma_pow2_pos(shift as nat);
        let (x, y) = (a.m as int, p as int);
        assert(HALF <= x * y <= 0xff_ffff_ffff_ffff_ffff_ffff_ffff_ffff - 0x20_0000_0000_0000)
            by (nonlinear_arith)
            requires
                HALF <= x < 0x20_0000_0000_0000,
                1 <= y <= 0x4_0000_0000_0000_0000,
        ;
    }
    let n: u128 = a.m * p + b.m;
    let (m, e) = round_parts(n);
    proof {
        let (u, v, w) = (power2::pow2(a.j as nat), power2::pow2(b.j as nat), power2::pow2(e as nat));
        power2::lemma_pow2_adds(shift as nat, b.j as nat);
        assert(a.m * (p * v) + b.m * v == n * v) by (nonlinear_arith)
            requires
                n == a.m * p + b.m,
        ;
        lemma_rounded_shifted(n as nat, 1, b.j as nat);
        power2::lemma_pow2_adds(e as nat, b.j as nat);
        assert((m * w) * v == m * (w * v)) by (nonlinear_arith);
    }
    Double { m, j: b.j + e }
}

/// The whole number nearest to one in units, on a tie the greater one.
pub open spec fn nearest(units: nat) -> nat {
    (units + power2::pow2(119)) / one()
}

/// The tenths nearest to a number in units, on a tie the even one.
pub open spec fn nearest_tenths(units: nat) -> nat {
    even_round(units * 10, one())
}

/// The whole number nearest to a number.
fn nearest_whole(d: Double) -> (r: u128)
    requires
        d.wf(),
        d.j <= 140,
    ensures
        r == nearest(d.units()),
{
    proof {
        lemma_powers();
        power2::lemma_pow2_unfold(120);
    }
    let m = d.m;
    if d.j >= 120 {
        let p: u128 = power(d.j - 120);
        proof {
            power2::lemma2_to64();
            if d.j < 140 {
                power2::lemma_pow2_strictly_increases((d.j - 120) as nat, 20);
            }
            power2::lemma_pow2_adds((d.j - 120) as nat, 120);
            let c = one();
            let half = power2::pow2(119);
            assert(m * (p * c) == (m * p) * c) by (nonlinear_arith);
            div_mod::lemma_fundamental_div_mod_converse(
                (m * (p * c) + half) as int,
                c as int,
                m * p,
                half as int,
            );
            assert(m * p <= 0x20_0000_0000_0000 * 0x10_0000) by (nonlinear_arith)
                requires
                    m < 0x20_0000_0000_0000,
                    p <= 0x10_0000,
            ;
        }
        m * p
    } else {
        let k: u32 = 120 - d.j;
        let p: u128 = power(k);
        let half: u128 = power(k - 1);
        proof {
            let u = power2::pow2(d.j as nat);
            power2::lemma_pow2_pos(d.j as nat);
            power2::lemma_pow2_adds(k as nat, d.j as nat);
            power2::lemma_pow2_adds((k - 1) as nat, d.j as nat);
            power2::lemma_pow2_pos(k as nat);
            if k < 120 {
                power2::lemma_pow2_strictly_increases(k as nat, 120);
            }
            power2::lemma_pow2_unfold(k as nat);
            assert(m * u + half * u == (m + half) * u) by (nonlinear_arith);
            lemma_scaled((m + half) as nat, p as nat, u);
        }
        (m + half) / p
    }
}

/// The tenths nearest to a number.
fn whole_tenths(d: Double) -> (r: u128)
    requires
        d.wf(),
        d.j <= 130,
    ensures
        r == nearest_tenths(d.units()),
        r <= 10 * 0x8000_0000_0000_0000,
{
    proof {
        lemma_powers();
    }
    let m = d.m;
    if d.j >= 120 {
        let p: u128 = power(d.j - 120);
        proof {
            power2::lemma2_to64();
            if d.j < 130 {
                power2::lemma_pow2_strictly_increases((d.j - 120) as nat, 10);
            }
            power2::lemma_pow2_adds((d.j - 120) as nat, 120);
            let c = one();
            let x = (m * 10) * p;
            assert((m * (p * c)) * 10 == x * c) by (nonlinear_arith)
                requires
                    x == (m * 10) * p,
            ;
            div_mod::lemma_fundamental_div_mod_converse(
                ((m * (p * c)) * 10) as int,
                c as int,
                x,
                0,
            );
            assert((m * 10) * p <= 10 * 0x8000_0000_0000_0000) by (nonlinear_arith)
                requires
                    m < 0x20_0000_0000_0000,
                    p <= 0x400,
            ;
        }
        m * 10 * p
    } else {
        let k: u32 = 120 - d.j;
        let p: u128 = power(k);
        proof {
            let u = power2::pow2(d.j as nat);
            power2::lemma_pow2_pos(d.j as nat);
            power2::lemma_pow2_adds(k as nat, d.j as nat);
            power2::lemma_pow2_pos(k as nat);
            assert((m * u) * 10 == (m * 10) * u) by (nonlinear_arith);
            lemma_even_scaled((m * 10) as nat, p as nat, u);
            assert((m * 10) / (p as int) <= m * 10) by (nonlinear_arith)
                requires
                    p > 0,
                    m >= 0,
            ;
        }
        even_quotient(m * 10, p)
    }
}

// ---------------------------------------------------------------- shares

/// The share that a part has of a whole, in units; at most 1.
pub open spec fn ratio(part: nat, whole: nat) -> nat {
    let r = rounded(number(part), rounded(whole, 1));
    if r < one() {
        r
    } else {
        one()
    }
}

/// The whole number nearest to the share that a part has of a whole, taken of a number.
pub open spec fn share(part: nat, whole: nat, of: nat) -> nat {
    nearest(rounded(ratio(part, whole) * rounded(of, 1), 1))
}

fn ratio_of(part: u64, whole: u64) -> (r: Double)
    requires
        part > 0,
        whole > 0,
    ensures
        r.wf(),
        r.units() == ratio(part as nat, whole as nat),
        r.j <= 68,
{
    let r = quotient(from_number(part), from_number(whole));
    let full = Double { m: HALF, j: 68 };
    proof {
        lemma_powers();
        power2::lemma_pow2_adds(52, 68);
        lemma_number_bound(whole as nat);
        lemma_rounded_scaled(number(part as nat), rounded(whole as nat, 1), one());
        lemma_order(r, full);
    }
    if at_least(r, full) {
        full
    } else {
        r
    }
}

/// The whole number nearest to the share that a part has of a whole, taken of a number.
pub fn share_of(part: u64, whole: u64, of: u64) -> (r: u128)
    requires
        whole > 0,
    ensures
        r == share(part as nat, whole as nat, of as nat),
{
    proof {
        lemma_powers();
        lemma_number_bound(part as nat);
        lemma_number_bound(whole as nat);
        lemma_number_bound(of as nat);
        if part == 0 || of == 0 {
            lemma_share_of_nothing(part as nat, whole as nat, of as nat);
        }
    }
    if part == 0 || of == 0 {
        return 0;
    }
    let r = ratio_of(part, whole);
    let w: u128 = if (of as u128) < HALF {
        of as u128
    } else {
        let (m, e) = round_parts(of as u128);
        let p: u128 = power(e);
        proof {
            assert(m * p == rounded(of as nat, 1));
        }
        m * p
    };
    nearest_whole(times(r, w))
}

proof fn lemma_share_of_nothing(part: nat, whole: nat, of: nat)
    requires
        rounded(whole, 1) > 0,
        rounded(part, 1) == 0 || rounded(of, 1) == 0,
    ensures
        share(part, whole, of) == 0,
{
    lemma_powers();
    power2::lemma_pow2_strictly_increases(119, 120);
    power2::lemma_pow2_pos(119);
    law_rounding_keeps_short_numbers(0, 0);
    lemma_no_shift(0);
    let d = rounded(whole, 1);
    if rounded(part, 1) == 0 {
        assert(number(part) == 0) by (nonlinear_arith)
            requires
                number(part) == rounded(part, 1) * one(),
                rounded(part, 1) == 0,
        ;
        lemma_no_shift(d);
        assert(0nat / d == 0 && 0nat % d == 0) by {
            div_mod::lemma_fundamental_div_mod_converse(0, d as int, 0, 0);
        }
        assert(rounded(0, d) == 0);
        assert(ratio(part, whole) == 0);
        let w = rounded(of, 1);
        assert(0nat * w == 0) by (nonlinear_arith);
    } else {
        let r = ratio(part, whole);
        assert(r * 0nat == 0) by (nonlinear_arith);
    }
    div_mod::lemma_fundamental_div_mod_converse(
        power2::pow2(119) as int,
        one() as int,
        0,
        power2::pow2(119) as int,
    );
}

/// A greater part has no smaller share.
pub proof fn law_shares_never_fall(part: nat, more: nat, whole: nat, of: nat)
    requires
        part <= more,
        0 < whole <= u64::MAX,
    ensures
        share(part, whole, of) <= share(more, whole, of),
{
    lemma_powers();
    lemma_number_bound(whole);
    law_rounding_keeps_order(part, more, 1);
    let c = one();
    let (p, q) = (rounded(part, 1), rounded(more, 1));
    assert(p * c <= q * c) by (nonlinear_arith)
        requires
            p <= q,
    ;
    law_rounding_keeps_order(number(part), number(more), rounded(whole, 1));
    let (r, s, w) = (ratio(part, whole), ratio(more, whole), rounded(of, 1));
    assert(r * w <= s * w) by (nonlinear_arith)
        requires
            r <= s,
    ;
    law_rounding_keeps_order(r * w, s * w, 1);
    let half = power2::pow2(119);
    div_mod::lemma_div_is_ordered(
        (rounded(r * w, 1) + half) as int,
        (rounded(s * w, 1) + half) as int,
        c as int,
    );
}

/// The whole has the whole share, and no part has more.
pub proof fn law_the_whole_is_shared(part: nat, whole: nat, of: nat)
    requires
        0 < whole <= u64::MAX,
        of < WHOLE,
    ensures
        share(part, whole, of) <= of,
        part >= whole ==> share(part, whole, of) == of,
{
    lemma_powers();
    lemma_number_bound(whole);
    lemma_number_bound(of);
    let d = rounded(whole, 1);
    lemma_rounded_scaled(one(), 1, d);
    assert(one() * d == d * one() && 1 * d == d) by (nonlinear_arith);
    law_rounding_keeps_short_numbers(1, 120);
    assert(1 * one() == one());
    assert(rounded(number(whole), d) == one());
    law_rounding_keeps_short_numbers(of, 120);
    let c = one();
    let half = power2::pow2(119);
    assert(c * of == of * c) by (nonlinear_arith);
    power2::lemma_pow2_strictly_increases(119, 120);
    div_mod::lemma_fundamental_div_mod_converse(
        (of * c + half) as int,
        c as int,
        of as int,
        half as int,
    );
    assert(share(whole, whole, of) == of);
    if part >= whole {
        law_rounding_keeps_order(whole, part, 1);
        let (p, q) = (rounded(whole, 1), rounded(part, 1));
        assert(p * c <= q * c) by (nonlinear_arith)
            requires
                p <= q,
        ;
        law_rounding_keeps_order(number(whole), number(part), d);
    } else {
        law_shares_never_fall(part, whole, whole, of);
    }
}

// ---------------------------------------------------------------- decimals

/// The tenths nearest to a number divided by 1024 some number of times.
pub open spec fn scaled_tenths(n: nat, times: nat) -> nat {
    even_round(rounded(n, 1) * 10, power2::pow2(10 * times))
}

/// The tenths nearest to a number divided by 1024 up to four times.
pub fn scaled_tenths_of(n: u64, times: u32) -> (r: u128)
    requires
        1 <= times <= 4,
    ensures
        r == scaled_tenths(n as nat, times as nat),
        r <= 10 * 0x8000_0000_0000_0000,
{
    proof {
        lemma_powers();
        lemma_number_bound(n as nat);
        power2::lemma_pow2_pos((10 * times) as nat);
    }
    let whole: u128 = if (n as u128) < HALF {
        n as u128
    } else {
        let (m, e) = round_parts(n as u128);
        let p: u128 = power(e);
        proof {
            assert(m * p == rounded(n as nat, 1));
        }
        m * p
    };
    let p: u128 = power(10 * times);
    proof {
        let x = (whole * 10) as int;
        power2::lemma_pow2_unfold((10 * times) as nat);
        power2::lemma_pow2_unfold((10 * times - 1) as nat);
        power2::lemma_pow2_pos((10 * times - 2) as nat);
        div_mod::lemma_div_is_ordered_by_denominator(x, 4, p as int);
    }
    even_quotient(whole * 10, p)
}

/// The seconds in a number of nanoseconds, in units.
pub open spec fn seconds(nanos: nat) -> nat {
    let part = rounded(number(nanos % 1_000_000_000), 1_000_000_000);
    rounded(number(nanos / 1_000_000_000) + part, 1)
}

/// The seconds that a rate is taken over: at least a thousandth of one.
pub open spec fn span(nanos: nat) -> nat {
    let least = rounded(one(), 1000);
    if seconds(nanos) > least {
        seconds(nanos)
    } else {
        least
    }
}

/// The tenths of a million bits per second that bytes in some nanoseconds make.
pub open spec fn rate_tenths(bytes: nat, nanos: nat) -> nat {
    let bits = 8 * number(bytes);
    nearest_tenths(rounded(rounded(bits * one(), span(nanos)), 1_000_000))
}

proof fn lemma_units_bound(d: Double, c: nat)
    requires
        d.wf(),
    ensures
        d.units() <= power2::pow2(c) ==> d.j + 52 <= c,
        d.units() >= power2::pow2(c) ==> d.j + 53 > c,
{
    lemma_powers();
    let u = power2::pow2(d.j as nat);
    power2::lemma_pow2_pos(d.j as nat);
    power2::lemma_pow2_adds(52, d.j as nat);
    power2::lemma_pow2_adds(53, d.j as nat);
    assert(HALF * u <= d.m * u < WHOLE * u) by (nonlinear_arith)
        requires
            HALF <= d.m < WHOLE,
            u > 0,
    ;
    if d.units() <= power2::pow2(c) && d.j + 52 > c {
        power2::lemma_pow2_strictly_increases(c, (52 + d.j) as nat);
    }
    if d.units() >= power2::pow2(c) {
        lemma_smaller_power(c, (53 + d.j) as nat);
    }
}

/// The part of a second that some nanoseconds are.
fn part_of_second(rest: u64) -> (r: Double)
    requires
        0 < rest < 1_000_000_000,
    ensures
        r.wf(),
        r.units() == rounded(number(rest as nat), 1_000_000_000),
        r.units() <= one(),
        38 <= r.j <= 68,
{
    let a = from_number(rest);
    let b = from_number(1_000_000_000);
    proof {
        power2::lemma2_to64();
        lemma_number_bound(rest as nat);
        lemma_number_bound(1_000_000_000);
        lemma_place(a, rest as nat, 0, 30);
        lemma_place(b, 1_000_000_000, 29, 30);
    }
    let r = quotient(a, b);
    proof {
        let c = one();
        power2::lemma_pow2_pos(120);
        lemma_rounded_scaled(number(rest as nat), 1_000_000_000, c);
        assert(rest * c <= 1_000_000_000 * c) by (nonlinear_arith)
            requires
                rest < 1_000_000_000,
        ;
        law_rounding_keeps_order(number(rest as nat), 1_000_000_000 * c, 1_000_000_000);
        assert(1 * 1_000_000_000nat == 1_000_000_000nat);
        assert(1_000_000_000 * c == c * 1_000_000_000) by (nonlinear_arith);
        lemma_rounded_scaled(c, 1, 1_000_000_000);
        law_rounding_keeps_short_numbers(1, 120);
        assert(1 * c == c);
        lemma_units_bound(r, 120);
    }
    r
}

proof fn lemma_double_stays(d: Double)
    requires
        d.wf(),
    ensures
        rounded(d.units(), 1) == d.units(),
{
    law_rounding_keeps_short_numbers(d.m as nat, d.j as nat);
}

/// The seconds in a number of nanoseconds.
fn seconds_of(nanos: u64) -> (r: Double)
    requires
        nanos > 0,
    ensures
        r.wf(),
        r.units() == seconds(nanos as nat),
        r.j <= 103,
{
    let secs: u64 = nanos / 1_000_000_000;
    let rest: u64 = nanos % 1_000_000_000;
    proof {
        lemma_powers();
        power2::lemma2_to64();
        power2::lemma_pow2_adds(32, 3);
        lemma_number_bound(0);
        lemma_number_bound(secs as nat);
        let c = one();
        assert(0 * c == 0);
    }
    if rest == 0 {
        let r = from_number(secs);
        proof {
            lemma_place(r, secs as nat, 0, 35);
            lemma_double_stays(r);
            law_rounding_keeps_short_numbers(0, 0);
            assert(rounded(0, 1_000_000_000) == 0) by {
                lemma_no_shift(1_000_000_000);
                lemma_no_shift(0);
            }
        }
        return r;
    }
    let part = part_of_second(rest);
    if secs == 0 {
        proof {
            lemma_double_stays(part);
        }
        return part;
    }
    let whole = from_number(secs);
    proof {
        lemma_place(whole, secs as nat, 0, 35);
    }
    let r = sum(whole, part);
    proof {
        let c = one();
        let n = power2::pow2(35);
        assert(secs * c + c <= n * c) by (nonlinear_arith)
            requires
                secs + 1 <= n,
        ;
        law_rounding_keeps_order(whole.units() + part.units(), n * c, 1);
        power2::lemma_pow2_adds(35, 120);
        law_rounding_keeps_short_numbers(1, 155);
        assert(1 * power2::pow2(155) == power2::pow2(155));
        lemma_units_bound(r, 155);
    }
    r
}

/// A thousandth.
fn thousandth() -> (r: Double)
    ensures
        r.wf(),
        r.units() == rounded(one(), 1000),
        58 <= r.j <= 60,
{
    let a = from_number(1);
    let b = from_number(1000);
    proof {
        power2::lemma2_to64();
        lemma_number_bound(1);
        lemma_number_bound(1000);
        lemma_place(a, 1, 0, 1);
        lemma_place(b, 1000, 9, 10);
        power2::lemma_pow2_pos(120);
        lemma_rounded_scaled(one(), 1000, one());
        let c = one();
        assert(1 * c == c);
    }
    quotient(a, b)
}

/// The seconds that a rate is taken over.
fn span_of(nanos: u64) -> (r: Double)
    ensures
        r.wf(),
        r.units() == span(nanos as nat),
        58 <= r.j <= 103,
{
    let least = thousandth();
    if nanos == 0 {
        proof {
            lemma_number_bound(0);
            let c = one();
            assert(0 * c == 0);
            assert(rounded(0, 1_000_000_000) == 0) by {
                power2::lemma2_to64();
                lemma_no_shift(1_000_000_000);
                lemma_no_shift(0);
            }
            assert(seconds(0) == 0);
        }
        return least;
    }
    let r = seconds_of(nanos);
    proof {
        lemma_order(least, r);
    }
    if at_least(least, r) {
        least
    } else {
        r
    }
}

/// The tenths of a million bits per second that bytes in some nanoseconds make.
pub fn rate_tenths_of(bytes: u64, nanos: u64) -> (r: u128)
    requires
        bytes > 0,
    ensures
        r == rate_tenths(bytes as nat, nanos as nat),
        r <= 10 * 0x8000_0000_0000_0000,
{
    let n = from_number(bytes);
    let bits = Double { m: n.m, j: n.j + 3 };
    let million = from_number(1_000_000);
    let span = span_of(nanos);
    proof {
        power2::lemma2_to64();
        power2::lemma_pow2_adds(n.j as nat, 3);
        let (m, u) = (n.m, power2::pow2(n.j as nat));
        assert(m * (u * 8) == 8 * (m * u)) by (nonlinear_arith);
        lemma_number_bound(1_000_000);
        lemma_place(million, 1_000_000, 19, 20);
    }
    let per_second = quotient(bits, span);
    proof {
        power2::lemma_pow2_pos(120);
        lemma_rounded_scaled(per_second.units(), 1_000_000, one());
    }
    whole_tenths(quotient(per_second, million))
}

// ---------------------------------------------------------------- laws

/// A fraction is rounded to a whole number that is at most a half away; of two that are as near, to
/// the even one.
pub proof fn law_nearest_whole_is_taken(n: nat, d: nat)
    requires
        d > 0,
    ensures
        ({
            let q = even_round(n, d);
            &&& 2 * (q * d) <= 2 * n + d
            &&& 2 * n <= 2 * (q * d) + d
            &&& 2 * n == 2 * (q * d) + d || 2 * (q * d) == 2 * n + d ==> q % 2 == 0
        }),
{
    let q = n / d;
    div_mod::lemma_fundamental_div_mod(n as int, d as int);
    assert(q * d == d * q) by (nonlinear_arith);
    assert((q + 1) * d == q * d + d) by (nonlinear_arith);
}

/// A number is rounded to one of at most 53 bits, counted in the power of two by which it is too long,
/// and in none where it is not; it is at most half such a unit away, and of two that are as near it is
/// the one of an even count.
pub proof fn law_nearest_short_number_is_taken(n: nat, d: nat)
    requires
        d > 0,
    ensures
        ({
            let unit = power2::pow2(spare(n / d));
            let m = even_round(n, d * unit);
            &&& rounded(n, d) == m * unit
            &&& n / d < 9007199254740992 ==> unit == 1
            &&& n / d >= 9007199254740992 ==> 4503599627370496 <= (n / d) / unit
                < 9007199254740992
            &&& 2 * (rounded(n, d) * d) <= 2 * n + d * unit
            &&& 2 * n <= 2 * (rounded(n, d) * d) + d * unit
        }),
{
    let e = spare(n / d);
    let unit = power2::pow2(e);
    power2::lemma_pow2_pos(e);
    lemma_spare(n / d);
    power2::lemma2_to64();
    assert(d * unit > 0) by (nonlinear_arith)
        requires
            d > 0,
            unit > 0,
    ;
    law_nearest_whole_is_taken(n, d * unit);
    let m = even_round(n, d * unit);
    assert(m * (d * unit) == (m * unit) * d) by (nonlinear_arith);
}

/// A count of units stands for the whole number that is nearest to it, on a tie the larger one.
pub proof fn law_nearest_of_units(units: nat)
    ensures
        ({
            let unit = power2::pow2(120);
            &&& 2 * (nearest(units) * unit) <= 2 * units + unit
            &&& 2 * units + unit < 2 * (nearest(units) * unit) + 2 * unit
        }),
{
    let unit = power2::pow2(120);
    let half = power2::pow2(119);
    power2::lemma_pow2_pos(120);
    power2::lemma_pow2_unfold(120);
    div_mod::lemma_fundamental_div_mod((units + half) as int, unit as int);
    let q = nearest(units);
    assert(q * unit == unit * q) by (nonlinear_arith);
}

/// A share is the quotient of the two numbers, each rounded, and rounded itself, at most one, times
/// what is shared, rounded again, and then taken to the nearest whole number.
pub proof fn law_shares_are_rounded_at_each_step(part: nat, whole: nat, of: nat)
    ensures
        ({
            let unit = power2::pow2(120);
            let quotient = rounded(rounded(part, 1) * unit, rounded(whole, 1));
            let at_most_one = if quotient < unit {
                quotient
            } else {
                unit
            };
            let product = rounded(at_most_one * rounded(of, 1), 1);
            share(part, whole, of) == (product + power2::pow2(119)) / unit
        }),
{
}

/// Tenths of a unit of a thousand and twenty-four, that many times over, are rounded to the even one
/// from the rounded number.
pub proof fn law_tenths_are_rounded_to_even(n: nat)
    ensures
        scaled_tenths(n, 1) == even_round(rounded(n, 1) * 10, 1024),
        scaled_tenths(n, 2) == even_round(rounded(n, 1) * 10, 1048576),
        scaled_tenths(n, 3) == even_round(rounded(n, 1) * 10, 1073741824),
        scaled_tenths(n, 4) == even_round(rounded(n, 1) * 10, 1099511627776),
{
    power2::lemma2_to64();
    power2::lemma2_to64_rest();
}

/// Nanoseconds are seconds and a rounded rest; a time that is measured counts for a millisecond at
/// least.
pub proof fn law_times_are_counted_in_seconds(seconds_whole: nat, rest: nat)
    requires
        rest < 1_000_000_000,
    ensures
        ({
            let unit = power2::pow2(120);
            let nanos = seconds_whole * 1_000_000_000 + rest;
            let told = rounded(
                rounded(seconds_whole, 1) * unit + rounded(
                    rounded(rest, 1) * unit,
                    1_000_000_000,
                ),
                1,
            );
            let least = rounded(unit, 1000);
            &&& seconds(nanos) == told
            &&& told > least ==> span(nanos) == told
            &&& told <= least ==> span(nanos) == least
        }),
{
    let nanos = seconds_whole * 1_000_000_000 + rest;
    assert(nanos / 1_000_000_000 == seconds_whole && nanos % 1_000_000_000 == rest);
}

/// A rate counts eight bits to the byte and a million of them to the megabit, over the time that they
/// took, to the tenth.
pub proof fn law_rates_are_counted_in_megabits(bytes: nat, nanos: nat)
    ensures
        ({
            let unit = power2::pow2(120);
            let bits = 8 * (rounded(bytes, 1) * unit);
            let each_second = rounded(bits * unit, span(nanos));
            rate_tenths(bytes, nanos) == even_round(rounded(each_second, 1_000_000) * 10, unit)
        }),
{
}

} // verus!
