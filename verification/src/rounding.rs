//! Binary rounding on whole numbers: what single- and double-precision
//! arithmetic makes of a quotient, without any floating-point value.

use crate::text::{concat, decimal, decimal_of, owned};
use vstd::prelude::*;

verus! {

/// Half of the number of mantissas of a single-precision value: 2^23.
pub const SINGLE: u128 = 0x80_0000;

/// Half of the number of mantissas of a double-precision value: 2^52.
pub const DOUBLE: u128 = 0x10_0000_0000_0000;

/// A bound on what is rounded: 2^122.
pub const ROUNDING_LIMIT: u128 = 0x400_0000_0000_0000_0000_0000_0000_0000;

/// `a / b` rounded to the nearest whole number, ties to the even one.
pub open spec fn half_even(a: nat, b: nat) -> nat {
    let q = a / b;
    let r = a % b;
    if 2 * r < b {
        q
    } else if 2 * r > b {
        q + 1
    } else {
        q + q % 2
    }
}

/// The smallest power of two that lifts `num` to `low` or more.
pub open spec fn lift(num: nat, low: nat) -> nat
    decreases
            (if low > num {
                low - num
            } else {
                0
            }),
{
    if num == 0 || num >= low {
        1
    } else {
        2 * lift(2 * num, low)
    }
}

/// The smallest power of two times `high` that is above `num`.
pub open spec fn unit(num: nat, high: nat) -> nat
    decreases
            (if num >= high {
                num - high + 1
            } else {
                0
            }),
{
    if high == 0 || num < high {
        1
    } else {
        2 * unit(num, 2 * high)
    }
}

/// A fraction: a numerator and a denominator.
pub struct Fraction {
    pub num: u128,
    pub den: u128,
}

impl View for Fraction {
    type V = (nat, nat);

    open spec fn view(&self) -> (nat, nat) {
        (self.num as nat, self.den as nat)
    }
}

/// `num / den` rounded to as many significant bits as `half` says, ties to even:
/// the value a binary floating-point division delivers.
pub open spec fn rounded(num: nat, den: nat, half: nat) -> (nat, nat) {
    if num < 2 * half * den {
        let s = lift(num, half * den);
        (half_even(num * s, den), s)
    } else {
        let u = unit(num, 2 * half * den);
        (half_even(num, den * u) * u, 1)
    }
}

proof fn lemma_lift_is_positive(num: nat, low: nat)
    ensures
        lift(num, low) >= 1,
    decreases
            (if low > num {
                low - num
            } else {
                0
            }),
{
    if num != 0 && num < low {
        lemma_lift_is_positive(2 * num, low);
    }
}

/// A quotient of at most `k` rounds to at most `k`.
proof fn lemma_half_even_at_most(a: nat, b: nat, k: nat)
    requires
        b > 0,
        a <= b * k,
    ensures
        half_even(a, b) <= k,
{
    let q = (a / b) as int;
    let r = (a % b) as int;
    vstd::arithmetic::div_mod::lemma_fundamental_div_mod(a as int, b as int);
    vstd::arithmetic::div_mod::lemma_mod_bound(a as int, b as int);
    assert(q <= k) by (nonlinear_arith)
        requires
            b * q + r <= b * k,
            r >= 0,
            b > 0,
    ;
    if q == k {
        assert(r == 0);
    }
}

/// What is at most `top` rounds to at most `top`.
pub proof fn lemma_rounded_at_most(num: nat, den: nat, half: nat, top: nat)
    requires
        den > 0,
        num <= top * den,
        top < 2 * half,
    ensures
        rounded(num, den, half).1 >= 1,
        rounded(num, den, half).0 <= top * rounded(num, den, half).1,
{
    assert(num < 2 * half * den) by (nonlinear_arith)
        requires
            num <= top * den,
            top < 2 * half,
            den > 0,
    ;
    let s = lift(num, half * den);
    lemma_lift_is_positive(num, half * den);
    assert(num * s <= den * (top * s)) by (nonlinear_arith)
        requires
            num <= top * den,
            s >= 1,
    ;
    lemma_half_even_at_most(num * s, den, top * s);
}

proof fn lemma_lift_bounds(num: nat, low: nat)
    requires
        num > 0,
    ensures
        num * lift(num, low) >= low,
        lift(num, low) >= 1,
        lift(num, low) > 1 ==> num * lift(num, low) < 2 * low,
    decreases
            (if low > num {
                low - num
            } else {
                0
            }),
{
    if num < low {
        lemma_lift_bounds(2 * num, low);
        let h = lift(2 * num, low);
        assert(num * (2 * h) == (2 * num) * h) by (nonlinear_arith);
        assert(h == 1 ==> (2 * num) * h == 2 * num) by (nonlinear_arith);
    } else {
        assert(num * 1 == num);
    }
}

/// Of a larger number the power of two that lifts it is the same, or at most half.
proof fn lemma_lift_falls(a: nat, b: nat, low: nat)
    requires
        0 < a <= b,
    ensures
        lift(a, low) == lift(b, low) || lift(a, low) >= 2 * lift(b, low),
    decreases
            (if low > a {
                low - a
            } else {
                0
            }),
{
    if a < low {
        lemma_lift_is_positive(2 * a, low);
        if b < low {
            lemma_lift_falls(2 * a, 2 * b, low);
        }
    }
}

proof fn lemma_lift_scales(num: nat, low: nat, k: nat)
    requires
        k > 0,
    ensures
        lift(k * num, k * low) == lift(num, low),
    decreases
            (if low > num {
                low - num
            } else {
                0
            }),
{
    assert(k * num == 0 <==> num == 0) by (nonlinear_arith)
        requires
            k > 0,
    ;
    assert(k * num >= k * low <==> num >= low) by (nonlinear_arith)
        requires
            k > 0,
    ;
    if num != 0 && num < low {
        lemma_lift_scales(2 * num, low, k);
        assert(2 * (k * num) == k * (2 * num)) by (nonlinear_arith);
    }
}

proof fn lemma_half_even_scales(a: nat, b: nat, k: nat)
    requires
        b > 0,
        k > 0,
    ensures
        half_even(k * a, k * b) == half_even(a, b),
{
    let (q, r) = (a / b, a % b);
    vstd::arithmetic::div_mod::lemma_fundamental_div_mod(a as int, b as int);
    vstd::arithmetic::div_mod::lemma_mod_bound(a as int, b as int);
    assert(k * a == q * (k * b) + k * r) by (nonlinear_arith)
        requires
            a == b * q + r,
    ;
    assert(0 <= k * r < k * b) by (nonlinear_arith)
        requires
            0 <= r < b,
            k > 0,
    ;
    vstd::arithmetic::div_mod::lemma_fundamental_div_mod_converse(
        (k * a) as int,
        (k * b) as int,
        q as int,
        (k * r) as int,
    );
    assert(2 * (k * r) < k * b <==> 2 * r < b) by (nonlinear_arith)
        requires
            k > 0,
    ;
    assert(2 * (k * r) > k * b <==> 2 * r > b) by (nonlinear_arith)
        requires
            k > 0,
    ;
}

/// Rounding to the nearest goes astray by at most one half.
proof fn lemma_half_even_error(a: nat, b: nat)
    requires
        b > 0,
    ensures
        2 * (half_even(a, b) * b) <= 2 * a + b,
        2 * a <= 2 * (half_even(a, b) * b) + b,
{
    let (q, r) = (a / b, a % b);
    vstd::arithmetic::div_mod::lemma_fundamental_div_mod(a as int, b as int);
    vstd::arithmetic::div_mod::lemma_mod_bound(a as int, b as int);
    assert(q * b == b * q) by (nonlinear_arith);
    assert((q + 1) * b == b * q + b) by (nonlinear_arith);
}

proof fn lemma_half_even_rises(a: nat, c: nat, b: nat)
    requires
        b > 0,
        a <= c,
    ensures
        half_even(a, b) <= half_even(c, b),
{
    let (q, r) = ((a / b) as int, (a % b) as int);
    let (p, t) = ((c / b) as int, (c % b) as int);
    vstd::arithmetic::div_mod::lemma_fundamental_div_mod(a as int, b as int);
    vstd::arithmetic::div_mod::lemma_mod_bound(a as int, b as int);
    vstd::arithmetic::div_mod::lemma_fundamental_div_mod(c as int, b as int);
    vstd::arithmetic::div_mod::lemma_mod_bound(c as int, b as int);
    vstd::arithmetic::div_mod::lemma_div_is_ordered(a as int, c as int, b as int);
    if q < p {
        assert(half_even(a, b) <= q + 1);
        assert(half_even(c, b) >= p);
    } else {
        assert(r <= t);
    }
}

/// Where a quotient is rounded to: near to it, and with as many bits as there are.
pub proof fn lemma_rounded_near(num: nat, den: nat, half: nat)
    requires
        den > 0,
        0 < num < 2 * half * den,
    ensures
        ({
            let v = rounded(num, den, half);
            &&& v.1 >= 1
            &&& num * v.1 >= half * den
            &&& 2 * (v.0 * den) <= 2 * (num * v.1) + den
            &&& 2 * (num * v.1) <= 2 * (v.0 * den) + den
        }),
{
    let s = lift(num, half * den);
    lemma_lift_bounds(num, half * den);
    lemma_half_even_error(num * s, den);
}

/// Rounding depends on the value of a fraction alone.
pub proof fn lemma_rounded_scales(num: nat, den: nat, half: nat, k: nat)
    requires
        den > 0,
        k > 0,
        num < 2 * half * den,
    ensures
        rounded(k * num, k * den, half) == rounded(num, den, half),
{
    assert(k * num < 2 * half * (k * den)) by (nonlinear_arith)
        requires
            num < 2 * half * den,
            k > 0,
    ;
    assert(half * (k * den) == k * (half * den)) by (nonlinear_arith);
    lemma_lift_scales(num, half * den, k);
    let s = lift(num, half * den);
    assert((k * num) * s == k * (num * s)) by (nonlinear_arith);
    lemma_half_even_scales(num * s, den, k);
}

/// Rounding keeps the order.
pub proof fn lemma_rounded_rises(a: nat, b: nat, c: nat, d: nat, half: nat)
    requires
        b > 0,
        d > 0,
        half > 0,
        a * d <= c * b,
        c < 2 * half * d,
    ensures
        rounded(a, b, half).0 * rounded(c, d, half).1 <= rounded(c, d, half).0 * rounded(
            a,
            b,
            half,
        ).1,
        rounded(a, b, half).1 >= 1,
        rounded(c, d, half).1 >= 1,
{
    assert(a < 2 * half * b) by (nonlinear_arith)
        requires
            a * d <= c * b,
            c < 2 * half * d,
            b > 0,
            d > 0,
    ;
    lemma_rounded_scales(a, b, half, d);
    lemma_rounded_scales(c, d, half, b);
    let den = d * b;
    let (m, n) = (d * a, b * c);
    assert(b * d == d * b) by (nonlinear_arith);
    assert(den > 0) by (nonlinear_arith)
        requires
            den == d * b,
            d > 0,
            b > 0,
    ;
    assert(m <= n) by (nonlinear_arith)
        requires
            m == d * a,
            n == b * c,
            a * d <= c * b,
    ;
    assert(m < 2 * half * den && n < 2 * half * den) by (nonlinear_arith)
        requires
            m <= n,
            n == b * c,
            den == d * b,
            c < 2 * half * d,
            b > 0,
    ;
    let low = half * den;
    assert(low > 0) by (nonlinear_arith)
        requires
            low == half * den,
            half > 0,
            den > 0,
    ;
    lemma_lift_is_positive(m, low);
    lemma_lift_is_positive(n, low);
    let (s, t) = (lift(m, low), lift(n, low));
    if m == 0 {
        assert(m * s == 0) by (nonlinear_arith)
            requires
                m == 0,
        ;
        vstd::arithmetic::div_mod::lemma_basic_div(0, den as int);
        vstd::arithmetic::div_mod::lemma_small_mod(0, den);
        assert(half_even(m * s, den) == 0);
        let u = half_even(n * t, den);
        assert(0 * t <= u * s) by (nonlinear_arith);
    } else {
        lemma_lift_falls(m, n, low);
        lemma_lift_bounds(m, low);
        lemma_lift_bounds(n, low);
        let (x, y) = (half_even(m * s, den), half_even(n * t, den));
        if s == t {
            assert(m * s <= n * t) by (nonlinear_arith)
                requires
                    m <= n,
                    s == t,
            ;
            lemma_half_even_rises(m * s, n * t, den);
            assert(x * t <= y * s) by (nonlinear_arith)
                requires
                    x <= y,
                    s == t,
            ;
        } else {
            assert(m * s <= den * (2 * half)) by (nonlinear_arith)
                requires
                    m * s < 2 * low,
                    low == half * den,
            ;
            lemma_half_even_at_most(m * s, den, 2 * half);
            lemma_half_even_rises(den * half, n * t, den);
            assert(den * half <= n * t) by (nonlinear_arith)
                requires
                    n * t >= low,
                    low == half * den,
            ;
            assert(half_even(den * half, den) == half) by {
                vstd::arithmetic::div_mod::lemma_fundamental_div_mod_converse(
                    (den * half) as int,
                    den as int,
                    half as int,
                    0,
                );
            }
            assert(x * t <= y * s) by (nonlinear_arith)
                requires
                    x <= 2 * half,
                    y >= half,
                    s >= 2 * t,
            ;
        }
    }
}

proof fn lemma_unit_bound(num: nat, high: nat)
    requires
        0 < high <= num,
    ensures
        unit(num, high) >= 1,
        high * unit(num, high) <= 2 * num,
    decreases num - high,
{
    let u = unit(num, 2 * high);
    if num < 2 * high {
        assert(u == 1);
    } else {
        lemma_unit_bound(num, 2 * high);
    }
    assert(high * (2 * u) == (2 * high) * u) by (nonlinear_arith);
}

/// A whole number rounded to as many significant bits as `half` says.
pub open spec fn rounded_whole(n: nat, half: nat) -> nat {
    if n < 2 * half {
        n
    } else {
        let u = unit(n, 2 * half);
        half_even(n, u) * u
    }
}

/// A large whole number stays large when it is rounded.
pub proof fn lemma_rounded_whole_at_least(n: nat, half: nat)
    requires
        half >= 1,
    ensures
        n < 2 * half ==> rounded_whole(n, half) == n,
        n >= 2 * half ==> rounded_whole(n, half) >= half,
{
    if n >= 2 * half {
        lemma_unit_bound(n, 2 * half);
        let u = unit(n, 2 * half);
        let q = (n / u) as int;
        vstd::arithmetic::div_mod::lemma_fundamental_div_mod(n as int, u as int);
        vstd::arithmetic::div_mod::lemma_mod_bound(n as int, u as int);
        assert(half_even(n, u) >= q);
        assert(half_even(n, u) * u >= q * u) by (nonlinear_arith)
            requires
                half_even(n, u) >= q,
                u >= 1,
        ;
        assert(q * u == u * q) by (nonlinear_arith);
        assert(2 * u <= 2 * half * u) by (nonlinear_arith)
            requires
                half >= 1,
                u >= 1,
        ;
        if q < half {
            assert(u * q <= u * (half - 1)) by (nonlinear_arith)
                requires
                    q <= half - 1,
                    u >= 1,
            ;
            assert(u * (half - 1) + u == half * u) by (nonlinear_arith);
            assert(2 * half * u == 2 * (half * u)) by (nonlinear_arith);
        }
        assert(q * u >= half) by (nonlinear_arith)
            requires
                q >= half,
                u >= 1,
        ;
    }
}

/// The nearest whole number to `a / b`, ties to even.
pub fn nearest(a: u128, b: u128) -> (r: u128)
    requires
        b > 0,
        a < u128::MAX,
    ensures
        r == half_even(a as nat, b as nat),
        r <= a / b + 1,
{
    let q: u128 = a / b;
    let m: u128 = a % b;
    proof {
        vstd::arithmetic::div_mod::lemma_mod_bound(a as int, b as int);
        vstd::arithmetic::div_mod::lemma_div_is_ordered_by_denominator(a as int, 1, b as int);
        vstd::arithmetic::div_mod::lemma_div_basics(a as int);
    }
    if m < b - m {
        q
    } else if m > b - m {
        q + 1
    } else {
        q + q % 2
    }
}

fn lift_of(num: u128, low: u128) -> (s: u128)
    requires
        low < ROUNDING_LIMIT,
        num > 0,
    ensures
        s == lift(num as nat, low as nat),
        s >= 1,
        num * s >= low,
        s > 1 ==> num * s < 2 * low,
        s <= 2 * low + 1,
    decreases
            (if low > num {
                low - num
            } else {
                0
            }),
{
    if num >= low {
        1
    } else {
        let h: u128 = lift_of(2 * num, low);
        proof {
            assert((2 * num) * h == num * (2 * h)) by (nonlinear_arith);
            assert(2 * h <= 2 * num * h) by (nonlinear_arith)
                requires
                    num >= 1,
                    h >= 1,
            ;
            assert(h == 1 ==> 2 * num * h == 2 * num) by (nonlinear_arith);
        }
        2 * h
    }
}

fn unit_of(num: u128, high: u128) -> (u: u128)
    requires
        0 < high < 2 * ROUNDING_LIMIT,
        num < ROUNDING_LIMIT,
    ensures
        u == unit(num as nat, high as nat),
        u >= 1,
        num < high * u,
        u > 1 ==> high * u <= 2 * num,
        u <= 2 * num + 1,
    decreases
            (if num >= high {
                num - high + 1
            } else {
                0
            }),
{
    if num < high {
        1
    } else {
        let h: u128 = unit_of(num, 2 * high);
        proof {
            assert((2 * high) * h == high * (2 * h)) by (nonlinear_arith);
            assert(2 * h <= 2 * high * h) by (nonlinear_arith)
                requires
                    high >= 1,
                    h >= 1,
            ;
            assert(h == 1 ==> 2 * high * h == 2 * high) by (nonlinear_arith);
        }
        2 * h
    }
}

proof fn lemma_product_bound(a: int, b: int, c: int)
    requires
        0 <= a,
        0 < c,
        0 < b,
        a / (b * c) >= 0,
    ensures
        (a / (b * c)) * c <= a,
        b * c >= 1,
{
    assert(b * c >= 1) by (nonlinear_arith)
        requires
            b >= 1,
            c >= 1,
    ;
    vstd::arithmetic::div_mod::lemma_fundamental_div_mod(a, b * c);
    vstd::arithmetic::div_mod::lemma_mod_bound(a, b * c);
    let q = a / (b * c);
    assert((b * c) * q >= q * c) by (nonlinear_arith)
        requires
            b >= 1,
            c >= 1,
            q >= 0,
    ;
}

/// `num / den` rounded to as many significant bits as `half` says.
pub fn round_quotient(num: u128, den: u128, half: u128) -> (r: Fraction)
    requires
        den > 0,
        half * den < ROUNDING_LIMIT,
        num < ROUNDING_LIMIT,
        half == SINGLE || half == DOUBLE,
    ensures
        r@ == rounded(num as nat, den as nat, half as nat),
        1 <= r.den <= 2 * (half * den) + 1,
        num >= den ==> r.den <= 2 * half,
        r.num * den <= 2 * num * r.den,
{
    proof {
        assert(2 * half * den == 2 * (half * den)) by (nonlinear_arith);
        assert(half * den >= den) by (nonlinear_arith)
            requires
                half >= 1,
                den >= 1,
        ;
    }
    let low: u128 = half * den;
    if num == 0 {
        proof {
            assert(lift(0, low as nat) == 1);
            vstd::arithmetic::div_mod::lemma_small_mod(0, den as nat);
            vstd::arithmetic::div_mod::lemma_basic_div(0, den as int);
            assert(half_even(0, den as nat) == 0);
            let d = den as int;
            assert(0 * d == 0) by (nonlinear_arith);
        }
        return Fraction { num: 0, den: 1 };
    }
    if num < 2 * low {
        let s: u128 = lift_of(num, low);
        proof {
            assert(s == 1 ==> num * s == num) by (nonlinear_arith);
            assert(num * s < 2 * low);
            vstd::arithmetic::div_mod::lemma_div_is_ordered(num * s, 2 * low, den as int);
            assert(2 * low == den * (2 * half)) by (nonlinear_arith)
                requires
                    low == half * den,
            ;
            vstd::arithmetic::div_mod::lemma_div_multiples_vanish(2 * half, den as int);
            if num >= den && s > 2 * half {
                assert(num * s >= den * (2 * half)) by (nonlinear_arith)
                    requires
                        num >= den,
                        s >= 2 * half,
                        den >= 0,
                        half >= 0,
                ;
            }
        }
        let n: u128 = nearest(num * s, den);
        proof {
            let q = (num * s) / (den as int);
            vstd::arithmetic::div_mod::lemma_fundamental_div_mod(num * s, den as int);
            vstd::arithmetic::div_mod::lemma_mod_bound(num * s, den as int);
            assert(n * den <= den * q + den) by (nonlinear_arith)
                requires
                    n <= q + 1,
                    den >= 0,
            ;
            assert(2 * num * s == 2 * (num * s)) by (nonlinear_arith);
        }
        Fraction { num: n, den: s }
    } else {
        let u: u128 = unit_of(num, 2 * low);
        proof {
            assert(den * u <= (2 * low) * u) by (nonlinear_arith)
                requires
                    den <= 2 * low,
                    u >= 1,
            ;
            assert(u == 1 ==> (2 * low) * u == 2 * low) by (nonlinear_arith);
            assert(den * u >= 1) by (nonlinear_arith)
                requires
                    den >= 1,
                    u >= 1,
            ;
            vstd::arithmetic::div_mod::lemma_div_pos_is_pos(num as int, den * u);
            lemma_product_bound(num as int, den as int, u as int);
        }
        let n: u128 = nearest(num, den * u);
        proof {
            let q = num as int / (den * u);
            assert((n as int) * (u as int) <= q * u + u) by (nonlinear_arith)
                requires
                    n <= q + 1,
                    u >= 0,
            ;
            if u > 1 {
                assert(u <= (2 * low) * u) by (nonlinear_arith)
                    requires
                        low >= 1,
                        u >= 1,
                ;
            }
            assert((n as int) * (u as int) >= 0) by (nonlinear_arith)
                requires
                    n >= 0,
                    u >= 0,
            ;
            assert(den * u <= num) by {
                assert(2 * (den * u) <= (2 * low) * u) by (nonlinear_arith)
                    requires
                        den <= low,
                        u >= 0,
                ;
                assert(u == 1 ==> den * u == den) by (nonlinear_arith);
            }
            vstd::arithmetic::div_mod::lemma_fundamental_div_mod(num as int, den * u);
            vstd::arithmetic::div_mod::lemma_mod_bound(num as int, den * u);
            assert((n * u) * den <= (den * u) * q + den * u) by (nonlinear_arith)
                requires
                    n <= q + 1,
                    u >= 0,
                    den >= 0,
            ;
            assert(2 * num * 1 == 2 * num);
        }
        Fraction { num: n * u, den: 1 }
    }
}

/// A whole number rounded to as many significant bits as `half` says.
pub fn round_whole(n: u128, half: u128) -> (r: u128)
    requires
        n < ROUNDING_LIMIT,
        half == SINGLE || half == DOUBLE,
    ensures
        r == rounded_whole(n as nat, half as nat),
        r <= 2 * n,
        n <= 2 * r,
        n >= 1 ==> r >= 1,
{
    if n < 2 * half {
        return n;
    }
    let u: u128 = unit_of(n, 2 * half);
    proof {
        assert(1 * u == u);
        vstd::arithmetic::div_mod::lemma_div_pos_is_pos(n as int, u as int);
        lemma_product_bound(n as int, 1, u as int);
    }
    let m: u128 = nearest(n, u);
    proof {
        let q = n as int / u as int;
        assert((m as int) * (u as int) <= q * u + u) by (nonlinear_arith)
            requires
                m <= q + 1,
                u >= 0,
        ;
        if u > 1 {
            assert(u <= (2 * half) * u) by (nonlinear_arith)
                requires
                    half >= 1,
                    u >= 1,
            ;
        }
        assert(u <= n) by {
            if u > 1 {
                assert(2 * u <= (2 * half) * u) by (nonlinear_arith)
                    requires
                        half >= 1,
                        u >= 1,
                ;
            }
        }
        vstd::arithmetic::div_mod::lemma_div_is_ordered(u as int, n as int, u as int);
        vstd::arithmetic::div_mod::lemma_div_by_self(u as int);
        assert(q >= 1);
        assert(m >= 1);
        vstd::arithmetic::div_mod::lemma_fundamental_div_mod(n as int, u as int);
        vstd::arithmetic::div_mod::lemma_mod_bound(n as int, u as int);
        assert((m as int) * (u as int) >= u * q) by (nonlinear_arith)
            requires
                m >= q,
                u >= 0,
        ;
        assert(u * q >= u) by (nonlinear_arith)
            requires
                q >= 1,
                u >= 0,
        ;
        assert((m as int) * (u as int) >= 1) by (nonlinear_arith)
            requires
                m >= 1,
                u >= 1,
        ;
    }
    m * u
}

// ----- file sizes ----------------------------------------------------------------------

/// The units that file sizes are shown in, in steps of a thousand.
pub open spec fn size_unit(n: nat) -> Seq<char> {
    if n == 0 {
        "B"@
    } else if n == 1 {
        "KB"@
    } else if n == 2 {
        "MB"@
    } else if n == 3 {
        "GB"@
    } else {
        "TB"@
    }
}

/// A value in double precision, divided by a thousand as often as it is a
/// thousand or more, up to terabytes; and how often that was.
pub open spec fn scaled_size(num: nat, den: nat, steps: nat) -> (nat, nat, nat)
    decreases 4 - steps,
{
    if num >= 1000 * den && steps < 4 {
        let v = rounded(num, den * 1000, DOUBLE as nat);
        scaled_size(v.0, v.1, steps + 1)
    } else {
        (num, den, steps)
    }
}

/// A number of tenths, written with one decimal.
pub open spec fn tenths_text(t: nat) -> Seq<char> {
    decimal_of(t / 10) + "."@ + decimal_of(t % 10)
}

/// A file size for display: `--` for a directory, whole bytes below a thousand,
/// and otherwise one decimal in the largest unit that keeps the value at one or
/// more.
pub open spec fn size_text(is_dir: bool, size: nat) -> Seq<char> {
    if is_dir {
        "--"@
    } else {
        let v = scaled_size(rounded_whole(size, DOUBLE as nat), 1, 0);
        if v.2 == 0 {
            decimal_of(size) + " B"@
        } else {
            tenths_text(half_even(v.0 * 10, v.1)) + " "@ + size_unit(v.2)
        }
    }
}

fn unit_name(n: u8) -> (r: &'static str)
    ensures
        r@ == size_unit(n as nat),
{
    if n == 0 {
        "B"
    } else if n == 1 {
        "KB"
    } else if n == 2 {
        "MB"
    } else if n == 3 {
        "GB"
    } else {
        "TB"
    }
}

/// The text that a file size is shown as.
pub fn format_size(is_dir: bool, size: u64) -> (r: String)
    ensures
        r@ == size_text(is_dir, size as nat),
{
    if is_dir {
        return owned("--");
    }
    let mut num: u128 = round_whole(size as u128, DOUBLE);
    let mut den: u128 = 1;
    let mut steps: u8 = 0;
    while num >= 1000 * den && steps < 4
        invariant
            steps <= 4,
            1 <= den <= 0x20_0000_0000_0000,
            steps == 0 ==> num <= 0x4_0000_0000_0000_0000 * den,
            steps > 0 ==> num <= 0x400_0000_0000_0000 * den,
            scaled_size(num as nat, den as nat, steps as nat) == scaled_size(
                rounded_whole(size as nat, DOUBLE as nat),
                1,
                0,
            ),
        decreases 4 - steps,
    {
        proof {
            assert(0x10_0000_0000_0000 * (den * 1000) < 0x400_0000_0000_0000_0000_0000_0000_0000)
                by (nonlinear_arith)
                requires
                    den <= 0x20_0000_0000_0000,
            ;
        }
        proof {
            assert(num <= 0x4_0000_0000_0000_0000 * den);
            assert(0x4_0000_0000_0000_0000 * den < 0x400_0000_0000_0000_0000_0000_0000_0000)
                by (nonlinear_arith)
                requires
                    den <= 0x20_0000_0000_0000,
            ;
        }
        let v = round_quotient(num, den * 1000, DOUBLE);
        proof {
            let w = v.den as int;
            let n = v.num as int;
            assert(n * (den * 1000) == (1000 * n) * den) by (nonlinear_arith);
            assert(2 * num * w <= 2 * (0x4_0000_0000_0000_0000 * den) * w) by (nonlinear_arith)
                requires
                    num <= 0x4_0000_0000_0000_0000 * den,
                    w >= 0,
            ;
            assert(2 * (0x4_0000_0000_0000_0000 * den) * w == (0x8_0000_0000_0000_0000 * w) * den)
                by (nonlinear_arith);
            assert(1000 * n <= 0x8_0000_0000_0000_0000 * w) by (nonlinear_arith)
                requires
                    (1000 * n) * den <= (0x8_0000_0000_0000_0000 * w) * den,
                    den >= 1,
            ;
        }
        num = v.num;
        den = v.den;
        steps += 1;
    }
    if steps == 0 {
        return concat(decimal(size).as_str(), " B");
    }
    proof {
        assert(0x400_0000_0000_0000 * den <= 0x400_0000_0000_0000 * 0x20_0000_0000_0000)
            by (nonlinear_arith)
            requires
                den <= 0x20_0000_0000_0000,
        ;
    }
    let t: u128 = nearest(num * 10, den);
    proof {
        let top: int = 0x400_0000_0000_0000int * 10;
        assert(num * 10 <= top * den) by (nonlinear_arith)
            requires
                num <= 0x400_0000_0000_0000 * den,
                top == 0x400_0000_0000_0000int * 10,
        ;
        vstd::arithmetic::div_mod::lemma_div_is_ordered(num * 10, top * den, den as int);
        vstd::arithmetic::div_mod::lemma_div_multiples_vanish(top, den as int);
        assert(top * den == den * top) by (nonlinear_arith);
    }
    let whole = decimal((t / 10) as u64);
    let tenth = decimal((t % 10) as u64);
    let mut out = concat(whole.as_str(), ".");
    out.append(tenth.as_str());
    out.append(" ");
    out.append(unit_name(steps));
    out
}

} // verus!
