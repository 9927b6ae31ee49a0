//! Scaling pictures down by averaging: which pixels go into which one, and whether
//! their sums stay within 32 bits.

use crate::rounding::{DOUBLE, SINGLE, round_quotient, round_whole, rounded, rounded_whole};
use vstd::prelude::*;

verus! {

/// The largest square that pictures are scaled to, by its side.
pub const LARGEST_SIDE: u32 = 0x1000;

// ----- sizes ---------------------------------------------------------------------------

/// The factor that fits a picture whose longer side is `long` into a square of
/// `side` pixels, in double precision.
pub open spec fn fit_factor(long: nat, side: nat) -> (nat, nat) {
    rounded(side, long, DOUBLE as nat)
}

/// One side of a picture whose longer side is `long` once it is fitted into a
/// square of `side` pixels: rounded to the nearest whole number, but one at least.
pub open spec fn fitted(k: nat, long: nat, side: nat) -> nat {
    let f = fit_factor(long, side);
    let v = rounded_whole(k * f.0, DOUBLE as nat);
    let n = (2 * v + f.1) / (2 * f.1);
    if n < 1 {
        1
    } else {
        n
    }
}

/// The longer of two sides.
pub open spec fn longer(width: nat, height: nat) -> nat {
    if width >= height {
        width
    } else {
        height
    }
}

/// How many of `k` pixels go into each of `m`, in single precision.
pub open spec fn pace(k: nat, m: nat) -> (nat, nat) {
    rounded(rounded_whole(k, SINGLE as nat), m, SINGLE as nat)
}

/// Where the pixels begin that go into pixel `j`, in parts of the pace.
pub open spec fn near_edge(k: nat, m: nat, j: nat) -> nat {
    rounded_whole(j * pace(k, m).0, SINGLE as nat)
}

/// Where they end.
pub open spec fn far_edge(k: nat, m: nat, j: nat) -> nat {
    rounded_whole(near_edge(k, m, j) + pace(k, m).0, SINGLE as nat)
}

/// `a / b`, rounded up.
pub open spec fn upward(a: nat, b: nat) -> nat {
    ((a + b - 1) / b as int) as nat
}

/// The first of `k` pixels that goes into pixel `j` of `m`.
pub open spec fn block_low(k: nat, m: nat, j: nat) -> nat {
    let e = upward(near_edge(k, m, j), pace(k, m).1);
    if e < k {
        e
    } else {
        (k - 1) as nat
    }
}

/// The first of `k` pixels that does not go into pixel `j` of `m` any more.
pub open spec fn block_high(k: nat, m: nat, j: nat) -> nat {
    let e = upward(far_edge(k, m, j), pace(k, m).1);
    if e > k {
        k
    } else if e < block_low(k, m, j) {
        block_low(k, m, j)
    } else {
        e
    }
}

/// How many of `k` pixels are summed up for pixel `j` of `m`. Where none is, two
/// neighbours are mixed.
pub open spec fn span(k: nat, m: nat, j: nat) -> nat {
    let n = block_high(k, m, j) - block_low(k, m, j);
    if n < 1 {
        1
    } else {
        n as nat
    }
}

// ----- sums ----------------------------------------------------------------------------

/// The sum of one channel of `n` pixels from pixel `at` on, of four channels each.
pub open spec fn row_sum(s: Seq<u16>, at: int, n: nat, k: int) -> nat
    decreases n,
{
    if n == 0 {
        0
    } else {
        row_sum(s, at, (n - 1) as nat, k) + s[(at + n - 1) * 4 + k] as nat
    }
}

/// The sum of one channel of a block of a picture `w` pixels wide: columns from
/// `left` to before `right`, the first `n` lines from `bottom` on.
pub open spec fn block_sum(
    s: Seq<u16>,
    w: int,
    left: int,
    right: int,
    bottom: int,
    n: nat,
    k: int,
) -> nat
    decreases n,
{
    if n == 0 {
        0
    } else {
        block_sum(s, w, left, right, bottom, (n - 1) as nat, k) + row_sum(
            s,
            (bottom + n - 1) * w + left,
            (right - left) as nat,
            k,
        )
    }
}

/// A division of a picture into blocks: its size, and that of the scaled one.
#[verifier::ext_equal]
pub struct Division {
    pub width: nat,
    pub height: nat,
    pub across: nat,
    pub down: nat,
}

impl Division {
    /// The division of a picture that is fitted into a square of `side` pixels.
    pub open spec fn fitting(width: nat, height: nat, side: nat) -> Division {
        Division {
            width,
            height,
            across: fitted(width, longer(width, height), side),
            down: fitted(height, longer(width, height), side),
        }
    }

    /// How many pixels are summed up for a pixel.
    pub open spec fn count(self, x: nat, y: nat) -> nat {
        span(self.width, self.across, x) * span(self.height, self.down, y)
    }

    /// Whether at most `limit` pixels are summed up for any one.
    pub open spec fn within(self, limit: nat) -> bool {
        forall|x: nat, y: nat| x < self.across && y < self.down ==> #[trigger] self.count(x, y) <= limit
    }

    /// Whether a channel of a block, with half of the number of its pixels added,
    /// stays within 32 bits.
    pub open spec fn channel_fits(self, s: Seq<u16>, x: nat, y: nat, k: int) -> bool {
        let (left, right) = (
            block_low(self.width, self.across, x),
            block_high(self.width, self.across, x),
        );
        let (bottom, top) = (
            block_low(self.height, self.down, y),
            block_high(self.height, self.down, y),
        );
        block_sum(
            s,
            self.width as int,
            left as int,
            right as int,
            bottom as int,
            (top - bottom) as nat,
            k,
        ) + self.count(x, y) / 2 <= u32::MAX
    }

    /// Whether the sums of a block stay within 32 bits: they do where it has few
    /// pixels, whatever they are.
    pub open spec fn block_fits(self, s: Seq<u16>, x: nat, y: nat) -> bool {
        self.count(x, y) <= FEW_PIXELS || (block_low(self.width, self.across, x) < block_high(
            self.width,
            self.across,
            x,
        ) && block_low(self.height, self.down, y) < block_high(self.height, self.down, y)
            && self.channel_fits(s, x, y, 0) && self.channel_fits(s, x, y, 1)
            && self.channel_fits(s, x, y, 2) && self.channel_fits(s, x, y, 3))
    }

    /// Whether the sums of all blocks stay within 32 bits.
    pub open spec fn sums_fit(self, s: Seq<u16>) -> bool {
        &&& s.len() == self.width * self.height * 4
        &&& forall|x: nat, y: nat|
            x < self.across && y < self.down ==> #[trigger] self.block_fits(s, x, y)
    }
}

/// As many samples of two bytes each, and half of their number, always stay within
/// 32 bits.
pub const FEW_PIXELS: usize = 65_536;

/// The same for samples of one byte each.
pub const MANY_PIXELS: usize = 16_810_048;

// ----- code ----------------------------------------------------------------------------

fn fit_size(k: u32, long: u32, side: u32) -> (r: u32)
    requires
        0 < k <= long,
        0 < side <= LARGEST_SIDE,
    ensures
        r == fitted(k as nat, long as nat, side as nat),
        1 <= r <= 4 * LARGEST_SIDE,
{
    let f = round_quotient(side as u128, long as u128, DOUBLE);
    proof {
        let (n, d, l, s) = (f.num as int, f.den as int, long as int, side as int);
        assert(n <= 2 * s * d) by (nonlinear_arith)
            requires
                n * l <= 2 * s * d,
                l >= 1,
                n >= 0,
        ;
        assert(2 * s * d <= 0x2000 * d) by (nonlinear_arith)
            requires
                s <= 0x1000,
                d >= 0,
        ;
        let kk = k as int;
        assert(kk * n <= l * n) by (nonlinear_arith)
            requires
                kk <= l,
                n >= 0,
        ;
        assert(l * n == n * l) by (nonlinear_arith);
        assert(kk * n >= 0) by (nonlinear_arith)
            requires
                kk >= 0,
                n >= 0,
        ;
    }
    let v: u128 = round_whole(k as u128 * f.num, DOUBLE);
    let d: u128 = f.den;
    proof {
        let top = 2 * v + d;
        assert(top <= (2 * d) * 0x4000 + d);
        vstd::arithmetic::div_mod::lemma_div_is_ordered(
            top as int,
            (2 * d) * 0x4000 + d,
            2 * d as int,
        );
        vstd::arithmetic::div_mod::lemma_hoist_over_denominator(d as int, 0x4000, (2 * d) as nat);
        vstd::arithmetic::div_mod::lemma_basic_div(d as int, 2 * d as int);
        vstd::arithmetic::div_mod::lemma_div_pos_is_pos(top as int, 2 * d as int);
    }
    let n: u128 = (2 * v + d) / (2 * d);
    if n < 1 {
        1
    } else {
        n as u32
    }
}

/// The edges of the blocks along one side, worked out once for all of them.
pub struct Grid {
    pub k: u32,
    pub m: u32,
    pub num: u128,
    pub den: u128,
}

impl Grid {
    /// Whether the pace is that of the sizes.
    pub open spec fn wf(&self) -> bool {
        &&& self.k > 0
        &&& 0 < self.m <= 4 * LARGEST_SIDE
        &&& (self.num as nat, self.den as nat) == pace(self.k as nat, self.m as nat)
        &&& 1 <= self.den <= 0x100_0000_0000
        &&& self.num <= 0x10_0000_0000 * self.den
    }

    /// The blocks of `k` pixels that go into `m`.
    fn new(k: u32, m: u32) -> (r: Grid)
        requires
            k > 0,
            0 < m <= 4 * LARGEST_SIDE,
        ensures
            r.wf(),
            r.k == k,
            r.m == m,
    {
        let a: u128 = round_whole(k as u128, SINGLE);
        let p = round_quotient(a, m as u128, SINGLE);
        proof {
            let (n, d, mm, aa) = (p.num as int, p.den as int, m as int, a as int);
            assert(n <= n * mm) by (nonlinear_arith)
                requires
                    mm >= 1,
                    n >= 0,
            ;
            assert(2 * aa * d <= 0x10_0000_0000 * d) by (nonlinear_arith)
                requires
                    2 * aa <= 0x10_0000_0000,
                    d >= 0,
            ;
        }
        Grid { k, m, num: p.num, den: p.den }
    }

    /// The pixels that go into pixel `j`: the first one, and the one behind the last.
    pub fn block(&self, j: u32) -> (r: (u32, u32))
        requires
            self.wf(),
            j < self.m,
        ensures
            r.0 == block_low(self.k as nat, self.m as nat, j as nat),
            r.1 == block_high(self.k as nat, self.m as nat, j as nat),
            r.0 <= r.1 <= self.k,
            r.0 < self.k,
    {
        proof {
            let (n, d, jj) = (self.num as int, self.den as int, j as int);
            assert(n <= 0x10_0000_0000 * 0x100_0000_0000);
            assert(jj * n <= 0x4000 * n) by (nonlinear_arith)
                requires
                    jj <= 0x4000,
                    n >= 0,
            ;
            assert(jj * n >= 0) by (nonlinear_arith)
                requires
                    jj >= 0,
                    n >= 0,
            ;
        }
        let near: u128 = round_whole(j as u128 * self.num, SINGLE);
        let far: u128 = round_whole(near + self.num, SINGLE);
        let a: u128 = (near + self.den - 1) / self.den;
        let b: u128 = (far + self.den - 1) / self.den;
        let low: u32 = if a < self.k as u128 {
            a as u32
        } else {
            self.k - 1
        };
        let high: u32 = if b > self.k as u128 {
            self.k
        } else if b < low as u128 {
            low
        } else {
            b as u32
        };
        (low, high)
    }

    /// How many pixels are summed up for pixel `j`.
    fn span(&self, j: u32) -> (r: u32)
        requires
            self.wf(),
            j < self.m,
        ensures
            r == span(self.k as nat, self.m as nat, j as nat),
            1 <= r,
    {
        let (low, high) = self.block(j);
        if high - low < 1 {
            1
        } else {
            high - low
        }
    }

    /// The most pixels that are summed up for any one.
    fn widest(&self) -> (r: u32)
        requires
            self.wf(),
        ensures
            forall|j: nat| j < self.m ==> #[trigger] span(self.k as nat, self.m as nat, j) <= r,
            exists|j: nat| j < self.m && #[trigger] span(self.k as nat, self.m as nat, j) == r,
    {
        let mut most: u32 = self.span(0);
        let mut j: u32 = 1;
        while j < self.m
            invariant
                self.wf(),
                1 <= j <= self.m,
                forall|i: nat| i < j ==> #[trigger] span(self.k as nat, self.m as nat, i) <= most,
                exists|i: nat| i < j && #[trigger] span(self.k as nat, self.m as nat, i) == most,
            decreases self.m - j,
        {
            let n: u32 = self.span(j);
            if n > most {
                most = n;
                proof {
                    assert(span(self.k as nat, self.m as nat, j as nat) == most);
                }
            }
            j += 1;
        }
        most
    }
}

/// The blocks of a picture that is scaled down.
pub struct Blocks {
    pub across: Grid,
    pub down: Grid,
}

impl View for Blocks {
    type V = Division;

    open spec fn view(&self) -> Division {
        Division {
            width: self.across.k as nat,
            height: self.down.k as nat,
            across: self.across.m as nat,
            down: self.down.m as nat,
        }
    }
}

proof fn lemma_block_inside(w: int, h: int, x: int, y: int)
    requires
        0 <= x < w,
        0 <= y < h,
    ensures
        0 <= y * w + x < w * h,
{
    assert(y * w + x < w * h) by (nonlinear_arith)
        requires
            0 <= x < w,
            0 <= y < h,
    ;
    assert(0 <= y * w) by (nonlinear_arith)
        requires
            0 <= y,
            0 <= w,
    ;
}

impl Blocks {
    /// Whether both sides are in order.
    pub open spec fn wf(&self) -> bool {
        self.across.wf() && self.down.wf()
    }

    /// The blocks of a picture that is fitted into a square of `side` pixels.
    pub fn fitting(width: u32, height: u32, side: u32) -> (r: Blocks)
        requires
            width > 0,
            height > 0,
            0 < side <= LARGEST_SIDE,
        ensures
            r@ == Division::fitting(width as nat, height as nat, side as nat),
            r.wf(),
    {
        let long: u32 = if width >= height {
            width
        } else {
            height
        };
        Blocks {
            across: Grid::new(width, fit_size(width, long, side)),
            down: Grid::new(height, fit_size(height, long, side)),
        }
    }

    /// Whether at most `limit` pixels are summed up for any one.
    pub fn within(&self, limit: usize) -> (r: bool)
        requires
            self.wf(),
        ensures
            r == self@.within(limit as nat),
    {
        let a: u32 = self.across.widest();
        let b: u32 = self.down.widest();
        proof {
            let d = self@;
            assert(a * b <= 0xffff_ffff * 0xffff_ffff) by (nonlinear_arith)
                requires
                    0 <= a <= 0xffff_ffff,
                    0 <= b <= 0xffff_ffff,
            ;
            assert forall|x: nat, y: nat| x < d.across && y < d.down implies #[trigger] d.count(x, y)
                <= a * b by {
                let p = span(d.width, d.across, x);
                let q = span(d.height, d.down, y);
                assert(p * q <= a * b) by (nonlinear_arith)
                    requires
                        p <= a,
                        q <= b,
                ;
            }
            let x = choose|j: nat| j < d.across && #[trigger] span(d.width, d.across, j) == a;
            let y = choose|j: nat| j < d.down && #[trigger] span(d.height, d.down, j) == b;
            assert(d.count(x, y) == a * b);
        }
        a as u128 * b as u128 <= limit as u128
    }

    fn sum(
        &self,
        s: &Vec<u16>,
        left: u32,
        right: u32,
        bottom: u32,
        top: u32,
        k: usize,
    ) -> (r: u128)
        requires
            self.wf(),
            s@.len() == self@.width * self@.height * 4,
            left <= right <= self@.width,
            bottom <= top <= self@.height,
            k < 4,
        ensures
            r == block_sum(
                s@,
                self@.width as int,
                left as int,
                right as int,
                bottom as int,
                (top - bottom) as nat,
                k as int,
            ),
            r <= 0x1_0000_0000_0000_0000_0000_0000,
    {
        let w: usize = self.across.k as usize;
        let ghost h = self.down.k as int;
        let len: usize = s.len();
        let mut total: u128 = 0;
        let mut y: u32 = bottom;
        while y < top
            invariant
                bottom <= y <= top <= h,
                left <= right <= w,
                w == self.across.k,
                h == self@.height,
                self@.width == w,
                len == s@.len(),
                len == w * h * 4,
                k < 4,
                total <= (y - bottom) * 0x1_0000_0000_0000,
                total == block_sum(
                    s@,
                    w as int,
                    left as int,
                    right as int,
                    bottom as int,
                    (y - bottom) as nat,
                    k as int,
                ),
            decreases top - y,
        {
            let mut row: u128 = 0;
            let mut x: u32 = left;
            while x < right
                invariant
                    left <= x <= right <= w,
                    0 <= y < h,
                    len == s@.len(),
                    len == w * h * 4,
                    k < 4,
                    row <= (x - left) * 0x1_0000,
                    row == row_sum(s@, y * w + left, (x - left) as nat, k as int),
                decreases right - x,
            {
                proof {
                    lemma_block_inside(w as int, h, x as int, y as int);
                    assert(y * w >= 0) by (nonlinear_arith)
                        requires
                            y >= 0,
                            w >= 0,
                    ;
                }
                let at: usize = (y as usize * w + x as usize) * 4 + k;
                row = row + s[at] as u128;
                x += 1;
                proof {
                    assert(y * w + left + (x - left) - 1 == y * w + x - 1);
                }
            }
            total = total + row;
            y += 1;
        }
        total
    }

    fn block_fits(&self, s: &Vec<u16>, x: u32, y: u32) -> (r: bool)
        requires
            self.wf(),
            s@.len() == self@.width * self@.height * 4,
            x < self@.across,
            y < self@.down,
        ensures
            r == self@.block_fits(s@, x as nat, y as nat),
    {
        let (left, right) = self.across.block(x);
        let (bottom, top) = self.down.block(y);
        let a: u32 = self.across.span(x);
        let b: u32 = self.down.span(y);
        proof {
            assert(a * b <= 0xffff_ffff * 0xffff_ffff) by (nonlinear_arith)
                requires
                    0 <= a <= 0xffff_ffff,
                    0 <= b <= 0xffff_ffff,
            ;
            assert(a * b >= 0) by (nonlinear_arith)
                requires
                    a >= 0,
                    b >= 0,
            ;
        }
        let n: u128 = a as u128 * b as u128;
        if n <= FEW_PIXELS as u128 {
            return true;
        }
        if left >= right || bottom >= top {
            return false;
        }
        let most: u128 = u32::MAX as u128;
        self.sum(s, left, right, bottom, top, 0) + n / 2 <= most && self.sum(
            s,
            left,
            right,
            bottom,
            top,
            1,
        ) + n / 2 <= most && self.sum(s, left, right, bottom, top, 2) + n / 2 <= most && self.sum(
            s,
            left,
            right,
            bottom,
            top,
            3,
        ) + n / 2 <= most
    }

    /// Whether the sums of all blocks stay within 32 bits, for the samples `s` of
    /// four channels.
    pub fn sums_fit(&self, s: &Vec<u16>) -> (r: bool)
        requires
            self.wf(),
        ensures
            r == self@.sums_fit(s@),
    {
        proof {
            let (w, h) = (self@.width as int, self@.height as int);
            assert(w * h <= 0xffff_ffff * 0xffff_ffff) by (nonlinear_arith)
                requires
                    0 <= w <= 0xffff_ffff,
                    0 <= h <= 0xffff_ffff,
            ;
            assert(w * h >= 0) by (nonlinear_arith)
                requires
                    w >= 0,
                    h >= 0,
            ;
        }
        if s.len() as u128 != self.across.k as u128 * self.down.k as u128 * 4 {
            return false;
        }
        let mut y: u32 = 0;
        while y < self.down.m
            invariant
                self.wf(),
                s@.len() == self@.width * self@.height * 4,
                y <= self.down.m,
                forall|i: nat, j: nat|
                    i < self@.across && j < y ==> #[trigger] self@.block_fits(s@, i, j),
            decreases self.down.m - y,
        {
            let mut x: u32 = 0;
            while x < self.across.m
                invariant
                    self.wf(),
                    s@.len() == self@.width * self@.height * 4,
                    y < self.down.m,
                    x <= self.across.m,
                    forall|i: nat, j: nat|
                        i < self@.across && j < y ==> #[trigger] self@.block_fits(s@, i, j),
                    forall|i: nat| i < x ==> #[trigger] self@.block_fits(s@, i, y as nat),
                decreases self.across.m - x,
            {
                if !self.block_fits(s, x, y) {
                    proof {
                        assert(!self@.block_fits(s@, x as nat, y as nat));
                    }
                    return false;
                }
                x += 1;
            }
            y += 1;
        }
        true
    }
}

} // verus!
