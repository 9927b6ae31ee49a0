//! What the sizes shown amount to.

use crate::rounding::{
    DOUBLE, half_even, lemma_rounded_near, lemma_rounded_rises, lemma_rounded_scales,
    lemma_rounded_whole_at_least, lift, rounded, scaled_size, size_text,
};
use crate::text::decimal_of;
use vstd::prelude::*;

verus! {

/// Whether `n / d` is `size / u`, up to a tiny error that grows with the steps taken.
spec fn is_near_size(n: nat, d: nat, u: nat, size: nat, steps: nat) -> bool {
    &&& d >= 1
    &&& 4096 * (n * u) <= 4096 * (size * d) + steps * d
    &&& 4096 * (size * d) <= 4096 * (n * u) + steps * d
}

proof fn lemma_exact(y: nat, half: nat)
    requires
        y < 2 * half,
    ensures
        rounded(1000 * y, 1000, half).0 == y * rounded(1000 * y, 1000, half).1,
{
    lemma_rounded_scales(y, 1, half, 1000);
    let s = lift(y, half);
    assert(half * 1 == half);
    assert(half_even(y * s, 1) == y * s);
}

proof fn lemma_step_down(n: nat, d: nat, y: nat)
    requires
        d >= 1,
        1000 * y * d <= n,
        n < 2 * DOUBLE * (1000 * d),
        y < 0x1000_0000_0000,
    ensures
        ({
            let v = rounded(n, d * 1000, DOUBLE as nat);
            v.1 >= 1 && y * v.1 <= v.0
        }),
{
    let h = DOUBLE as nat;
    let v = rounded(n, d * 1000, h);
    let e = rounded(1000 * y, 1000, h);
    assert((1000 * y) * (d * 1000) <= n * 1000) by (nonlinear_arith)
        requires
            1000 * y * d <= n,
    ;
    lemma_rounded_rises(1000 * y, 1000, n, d * 1000, h);
    lemma_exact(y, h);
    assert(y * v.1 <= v.0) by (nonlinear_arith)
        requires
            e.0 * v.1 <= v.0 * e.1,
            e.0 == y * e.1,
            e.1 >= 1,
    {
        assert((y * v.1) * e.1 <= v.0 * e.1);
    }
}

proof fn lemma_step_near(n: nat, d: nat, u: nat, size: nat, steps: nat)
    requires
        is_near_size(n, d, u, size, steps),
        steps < 4,
        u >= 1,
        n >= 1000 * d,
        size < 1_000_000_000_000,
    ensures
        is_near_size(
            rounded(n, d * 1000, DOUBLE as nat).0,
            rounded(n, d * 1000, DOUBLE as nat).1,
            1000 * u,
            size,
            steps + 1,
        ),
{
    let h = DOUBLE as nat;
    let v = rounded(n, d * 1000, h);
    lemma_size_small(n, d, u, size, steps);
    assert(n > 0);
    lemma_rounded_near(n, d * 1000, h);
    assert(2 * (v.0 * (d * 1000)) <= 2 * (n * v.1) + d * 1000);
    assert(2 * (n * v.1) <= 2 * (v.0 * (d * 1000)) + d * 1000);
    assert(h * (d * 1000) <= n * v.1);
    lemma_step_bounds(
        n as int,
        d as int,
        u as int,
        size as int,
        steps as int,
        v.0 as int,
        v.1 as int,
    );
}

proof fn lemma_size_small(n: nat, d: nat, u: nat, size: nat, steps: nat)
    requires
        is_near_size(n, d, u, size, steps),
        steps <= 4,
        u >= 1,
        size < 1_000_000_000_000,
    ensures
        n < 2 * DOUBLE * (1000 * d),
        n * u <= (size + 1) * d,
{
    assert(n * u <= (size + 1) * d) by (nonlinear_arith)
        requires
            4096 * (n * u) <= 4096 * (size * d) + steps * d,
            steps <= 4,
            d >= 1,
    ;
    assert(n <= n * u) by (nonlinear_arith)
        requires
            u >= 1,
    ;
    assert((size + 1) * d <= 1_000_000_000_000 * d) by (nonlinear_arith)
        requires
            size < 1_000_000_000_000,
    ;
    assert(n < 2 * DOUBLE * (1000 * d)) by (nonlinear_arith)
        requires
            n <= 1_000_000_000_000 * d,
            d >= 1,
            DOUBLE == 0x10_0000_0000_0000,
    ;
}

proof fn lemma_step_bounds(n: int, d: int, u: int, size: int, steps: int, a: int, b: int)
    requires
        n > 0,
        d >= 1,
        u >= 1,
        b >= 1,
        a >= 0,
        0 <= size < 1_000_000_000_000,
        4096 * (n * u) <= 4096 * (size * d) + steps * d,
        4096 * (size * d) <= 4096 * (n * u) + steps * d,
        n * u <= (size + 1) * d,
        2 * (a * (d * 1000)) <= 2 * (n * b) + d * 1000,
        2 * (n * b) <= 2 * (a * (d * 1000)) + d * 1000,
        DOUBLE * (d * 1000) <= n * b,
    ensures
        4096 * (a * (1000 * u)) <= 4096 * (size * b) + (steps + 1) * b,
        4096 * (size * b) <= 4096 * (a * (1000 * u)) + (steps + 1) * b,
{
    let k = 0x10_0000_0000_0000int;
    assert(k * 1000 * u * d <= (n * u) * b) by (nonlinear_arith)
        requires
            k * (d * 1000) <= n * b,
            u >= 1,
    ;
    assert((n * u) * b <= ((size + 1) * d) * b) by (nonlinear_arith)
        requires
            n * u <= (size + 1) * d,
            b >= 1,
    ;
    assert(k * 1000 * u <= (size + 1) * b) by (nonlinear_arith)
        requires
            k * 1000 * u * d <= ((size + 1) * d) * b,
            d >= 1,
    ;
    assert((size + 1) * b <= 1_000_000_000_000 * b) by (nonlinear_arith)
        requires
            size < 1_000_000_000_000,
            b >= 1,
    ;
    assert(2_048_000 * u <= b);
    let x = a * (1000 * u);
    assert(d * x == (a * (d * 1000)) * u) by (nonlinear_arith)
        requires
            x == a * (1000 * u),
    ;
    assert((n * b) * u == (n * u) * b) by (nonlinear_arith);
    assert(2 * (d * x) <= 2 * ((n * u) * b) + 1000 * (d * u)) by (nonlinear_arith)
        requires
            2 * (a * (d * 1000)) <= 2 * (n * b) + d * 1000,
            d * x == (a * (d * 1000)) * u,
            (n * b) * u == (n * u) * b,
            u >= 1,
    ;
    assert(2 * ((n * u) * b) <= 2 * (d * x) + 1000 * (d * u)) by (nonlinear_arith)
        requires
            2 * (n * b) <= 2 * (a * (d * 1000)) + d * 1000,
            d * x == (a * (d * 1000)) * u,
            (n * b) * u == (n * u) * b,
            u >= 1,
    ;
    assert(4096 * ((n * u) * b) <= 4096 * (d * (size * b)) + steps * (d * b)) by (nonlinear_arith)
        requires
            4096 * (n * u) <= 4096 * (size * d) + steps * d,
            b >= 1,
    ;
    assert(4096 * (d * (size * b)) <= 4096 * ((n * u) * b) + steps * (d * b)) by (nonlinear_arith)
        requires
            4096 * (size * d) <= 4096 * (n * u) + steps * d,
            b >= 1,
    ;
    assert(2_048_000 * (d * u) <= d * b) by (nonlinear_arith)
        requires
            2_048_000 * u <= b,
            d >= 1,
    ;
    assert(4096 * (d * x) <= 4096 * (d * (size * b)) + steps * (d * b) + d * b);
    assert(4096 * (d * (size * b)) <= 4096 * (d * x) + steps * (d * b) + d * b);
    assert(4096 * x <= 4096 * (size * b) + (steps + 1) * b) by (nonlinear_arith)
        requires
            4096 * (d * x) <= 4096 * (d * (size * b)) + steps * (d * b) + d * b,
            d >= 1,
    ;
    assert(4096 * (size * b) <= 4096 * x + (steps + 1) * b) by (nonlinear_arith)
        requires
            4096 * (d * (size * b)) <= 4096 * (d * x) + steps * (d * b) + d * b,
            d >= 1,
    ;
}

proof fn lemma_below(n: nat, d: nat, u: nat, size: nat, steps: nat)
    requires
        is_near_size(n, d, u, size, steps),
        steps <= 4,
        u >= 1,
        size < 1000 * u,
    ensures
        n < 1000 * d,
{
    assert(n < 1000 * d) by (nonlinear_arith)
        requires
            4096 * (n * u) <= 4096 * (size * d) + steps * d,
            steps <= 4,
            u >= 1,
            d >= 1,
            size + 1 <= 1000 * u,
    {
        assert(size * d + d <= 1000 * u * d);
        assert(n * u < 1000 * u * d);
        assert((1000 * d) * u == 1000 * u * d);
    }
}

proof fn lemma_tenths(n: nat, d: nat, u: nat, size: nat, steps: nat) -> (t: nat)
    requires
        is_near_size(n, d, 1000 * u, size, steps),
        steps <= 4,
        u >= 1,
    ensures
        t == half_even(n * 10, d),
        2 * (100 * u * t) <= 2 * size + 100 * u,
        2 * size <= 2 * (100 * u * t) + 100 * u,
{
    let t = half_even(n * 10, d);
    let q = (n * 10) / d;
    vstd::arithmetic::div_mod::lemma_fundamental_div_mod((n * 10) as int, d as int);
    vstd::arithmetic::div_mod::lemma_mod_bound((n * 10) as int, d as int);
    assert(d * (q + 1) == d * q + d) by (nonlinear_arith);
    assert(d * t == d * q || d * t == d * q + d);
    assert(2 * (d * t) <= 20 * n + d);
    assert(20 * n <= 2 * (d * t) + d);
    lemma_tenths_bounds(n as int, d as int, u as int, size as int, steps as int, t as int);
    t
}

proof fn lemma_tenths_bounds(n: int, d: int, u: int, size: int, steps: int, t: int)
    requires
        d >= 1,
        u >= 1,
        0 <= steps <= 4,
        4096 * (n * (1000 * u)) <= 4096 * (size * d) + steps * d,
        4096 * (size * d) <= 4096 * (n * (1000 * u)) + steps * d,
        2 * (d * t) <= 20 * n + d,
        20 * n <= 2 * (d * t) + d,
    ensures
        2 * (100 * u * t) <= 2 * size + 100 * u,
        2 * size <= 2 * (100 * u * t) + 100 * u,
{
    let x = 100 * u * t;
    assert(n * (1000 * u) == 1000 * (n * u)) by (nonlinear_arith);
    assert(2 * (d * x) <= 2000 * (n * u) + 100 * (u * d)) by (nonlinear_arith)
        requires
            2 * (d * t) <= 20 * n + d,
            x == 100 * u * t,
            u >= 1,
    ;
    assert(2000 * (n * u) <= 2 * (d * x) + 100 * (u * d)) by (nonlinear_arith)
        requires
            20 * n <= 2 * (d * t) + d,
            x == 100 * u * t,
            u >= 1,
    ;
    let e = size * d;
    assert(4096 * (d * x) <= 4096 * e + 4 * d + 204_800 * (u * d)) by (nonlinear_arith)
        requires
            2 * (d * x) <= 2000 * (n * u) + 100 * (u * d),
            4096 * (1000 * (n * u)) <= 4096 * e + steps * d,
            0 <= steps <= 4,
            d >= 1,
    ;
    assert(4096 * e <= 4096 * (d * x) + 4 * d + 204_800 * (u * d)) by (nonlinear_arith)
        requires
            2000 * (n * u) <= 2 * (d * x) + 100 * (u * d),
            4096 * e <= 4096 * (1000 * (n * u)) + steps * d,
            0 <= steps <= 4,
            d >= 1,
    ;
    assert(4096 * x <= 4096 * size + 4 + 204_800 * u) by (nonlinear_arith)
        requires
            4096 * (d * x) <= 4096 * e + 4 * d + 204_800 * (u * d),
            e == size * d,
            d >= 1,
    ;
    assert(4096 * size <= 4096 * x + 4 + 204_800 * u) by (nonlinear_arith)
        requires
            4096 * e <= 4096 * (d * x) + 4 * d + 204_800 * (u * d),
            e == size * d,
            d >= 1,
    ;
}

/// The text for a number of tenths of a unit.
pub open spec fn in_tenths(t: nat, unit: Seq<char>) -> Seq<char> {
    decimal_of(t / 10) + "."@ + decimal_of(t % 10) + " "@ + unit
}

/// The size of a file is shown in whole bytes below a thousand. From there on it is shown
/// in the unit in which it is at least one and less than a thousand, with one decimal,
/// rounded to the nearest.
pub proof fn law_sizes_are_shown(size: nat)
    requires
        size < 1_000_000_000_000,
    ensures
        size_text(true, size) == "--"@,
        size < 1000 ==> size_text(false, size) == decimal_of(size) + " B"@,
        1000 <= size < 1_000_000 ==> exists|t: nat|
            size_text(false, size) == #[trigger] in_tenths(t, "KB"@) && 2 * (100 * t) <= 2 * size
                + 100 && 2 * size <= 2 * (100 * t) + 100,
        1_000_000 <= size < 1_000_000_000 ==> exists|t: nat|
            size_text(false, size) == #[trigger] in_tenths(t, "MB"@) && 2 * (100_000 * t) <= 2
                * size + 100_000 && 2 * size <= 2 * (100_000 * t) + 100_000,
        1_000_000_000 <= size ==> exists|t: nat|
            size_text(false, size) == #[trigger] in_tenths(t, "GB"@) && 2 * (100_000_000 * t) <= 2
                * size + 100_000_000 && 2 * size <= 2 * (100_000_000 * t) + 100_000_000,
{
    let h = DOUBLE as nat;
    lemma_rounded_whole_at_least(size, h);
    assert(is_near_size(size, 1, 1, size, 0));
    if size >= 1000 {
        let v = rounded(size, 1000, h);
        assert(1 * 1000 == 1000nat);
        lemma_step_near(size, 1, 1, size, 0);
        if size < 1_000_000 {
            lemma_below(v.0, v.1, 1000, size, 1);
            assert(scaled_size(size, 1, 0) == scaled_size(v.0, v.1, 1));
            assert(scaled_size(v.0, v.1, 1) == (v.0, v.1, 1nat));
            let t = lemma_tenths(v.0, v.1, 1, size, 1);
            assert(size_text(false, size) == in_tenths(t, "KB"@));
        } else {
            lemma_step_down(size, 1, 1000);
            let w = rounded(v.0, v.1 * 1000, h);
            lemma_step_near(v.0, v.1, 1000, size, 1);
            assert(scaled_size(size, 1, 0) == scaled_size(v.0, v.1, 1));
            assert(scaled_size(v.0, v.1, 1) == scaled_size(w.0, w.1, 2));
            if size < 1_000_000_000 {
                lemma_below(w.0, w.1, 1_000_000, size, 2);
                assert(scaled_size(w.0, w.1, 2) == (w.0, w.1, 2nat));
                let t = lemma_tenths(w.0, w.1, 1000, size, 2);
                assert(size_text(false, size) == in_tenths(t, "MB"@));
            } else {
                lemma_gigabytes(size, v, w);
            }
        }
    }
}

proof fn lemma_gigabytes(size: nat, v: (nat, nat), w: (nat, nat))
    requires
        1_000_000_000 <= size < 1_000_000_000_000,
        v == rounded(size, 1000, DOUBLE as nat),
        w == rounded(v.0, v.1 * 1000, DOUBLE as nat),
        is_near_size(v.0, v.1, 1000, size, 1),
        is_near_size(w.0, w.1, 1_000_000, size, 2),
        scaled_size(size, 1, 0) == scaled_size(w.0, w.1, 2),
    ensures
        exists|t: nat|
            size_text(false, size) == #[trigger] in_tenths(t, "GB"@) && 2 * (100_000_000 * t) <= 2
                * size + 100_000_000 && 2 * size <= 2 * (100_000_000 * t) + 100_000_000,
{
    let h = DOUBLE as nat;
    lemma_rounded_whole_at_least(size, h);
    lemma_step_down(size, 1, 1_000_000);
    lemma_size_small(v.0, v.1, 1000, size, 1);
    lemma_step_down(v.0, v.1, 1000);
    let x = rounded(w.0, w.1 * 1000, h);
    lemma_step_near(w.0, w.1, 1_000_000, size, 2);
    lemma_below(x.0, x.1, 1_000_000_000, size, 3);
    assert(scaled_size(w.0, w.1, 2) == scaled_size(x.0, x.1, 3));
    assert(scaled_size(x.0, x.1, 3) == (x.0, x.1, 3nat));
    let t = lemma_tenths(x.0, x.1, 1_000_000, size, 3);
    assert(size_text(false, size) == in_tenths(t, "GB"@));
}

} // verus!
