//! Scale-space template matching: normalized cross-correlation of an
//! integer-pixel template against a target image.
//!
//! Confidence values are fixed-point thousandths: the correlation
//! `sum(T·W) / (sqrt(sum(T²)) · sqrt(sum(W²)))` over the template `T` and
//! the target window `W`, scaled by 1000, truncated, and clamped to 1000.

use vstd::prelude::*;
use crate::image::{Image, ImageView, lemma_grid_index, MAX_IMAGE_DIM};

verus! {

/// Confidence scores are fixed-point thousandths: 1000 is a perfect match.
pub const CONFIDENCE_SCALE: u32 = 1000;

/// Largest possible windowed sum: a full-size window of maximal pixels.
pub const MAX_WINDOW_SUM: u64 = 0x1_0000_0000 * 65025;

/// Mathematical value of a [`Surface`].
pub struct SurfaceView {
    pub width: nat,
    pub height: nat,
    pub data: Seq<u32>,
}

impl SurfaceView {
    pub open spec fn wf(self) -> bool {
        &&& self.data.len() == self.width * self.height
        &&& 1 <= self.width <= MAX_IMAGE_DIM
        &&& 1 <= self.height <= MAX_IMAGE_DIM
    }

    /// Confidence of anchoring the template at top-left `(x, y)`.
    pub open spec fn at(self, x: int, y: int) -> u32 {
        self.data[y * self.width + x]
    }
}

/// A similarity surface: the value at `(x, y)` is the confidence of the
/// template anchored at that top-left position in the target.
pub struct Surface {
    pub width: usize,
    pub height: usize,
    pub values: Vec<u32>,
}

impl View for Surface {
    type V = SurfaceView;

    open spec fn view(&self) -> SurfaceView {
        SurfaceView {
            width: self.width as nat,
            height: self.height as nat,
            data: self.values@,
        }
    }
}

/// The integer square root: the largest `r` with `r * r <= n`.
pub open spec fn spec_isqrt(n: nat) -> nat
    decreases n,
{
    if n == 0 {
        0
    } else {
        let r = spec_isqrt((n - 1) as nat);
        if (r + 1) * (r + 1) <= n {
            r + 1
        } else {
            r
        }
    }
}

/// `spec_isqrt(n)` is the unique `r` with `r² <= n < (r+1)²`.
pub proof fn lemma_isqrt_bounds(n: nat)
    ensures
        spec_isqrt(n) * spec_isqrt(n) <= n,
        n < (spec_isqrt(n) + 1) * (spec_isqrt(n) + 1),
    decreases n,
{
    let s = spec_isqrt(n);
    if n == 0 {
        assert(s == 0);
        assert(s * s <= n && n < (s + 1) * (s + 1)) by (nonlinear_arith)
            requires
                s == 0,
                n == 0,
        ;
    } else {
        lemma_isqrt_bounds((n - 1) as nat);
        let r = spec_isqrt((n - 1) as nat);
        if (r + 1) * (r + 1) <= n {
            assert(s == r + 1);
            assert(s * s <= n && n < (s + 1) * (s + 1)) by (nonlinear_arith)
                requires
                    s == r + 1,
                    (r + 1) * (r + 1) <= n,
                    n - 1 < (r + 1) * (r + 1),
            ;
        } else {
            assert(s == r);
            assert(s * s <= n && n < (s + 1) * (s + 1)) by (nonlinear_arith)
                requires
                    s == r,
                    r * r <= n - 1,
                    !((r + 1) * (r + 1) <= n),
            ;
        }
    }
}

/// A positive radicand has a positive integer square root.
pub proof fn lemma_isqrt_pos(n: nat)
    requires
        n >= 1,
    ensures
        spec_isqrt(n) >= 1,
{
    lemma_isqrt_bounds(n);
    let s = spec_isqrt(n);
    assert(s >= 1) by (nonlinear_arith)
        requires
            n >= 1,
            n < (s + 1) * (s + 1),
    ;
}

/// Any `r` with `r² <= n < (r+1)²` equals `spec_isqrt(n)`.
pub proof fn lemma_isqrt_unique(n: nat, r: nat)
    requires
        r * r <= n,
        n < (r + 1) * (r + 1),
    ensures
        r == spec_isqrt(n),
{
    let s = spec_isqrt(n);
    lemma_isqrt_bounds(n);
    if r < s {
        assert((r + 1) * (r + 1) <= s * s) by (nonlinear_arith)
            requires
                r + 1 <= s,
        ;
    } else if s < r {
        assert((s + 1) * (s + 1) <= r * r) by (nonlinear_arith)
            requires
                s + 1 <= r,
        ;
    }
}

/// Computes the integer square root by binary search.
fn isqrt(n: u64) -> (r: u64)
    ensures
        r == spec_isqrt(n as nat),
        r <= 0x1_0000_0000,
{
    let mut lo: u64 = 0;
    let mut hi: u64 = 0x1_0000_0000;
    proof {
        assert((0x1_0000_0000u64 as int) * (0x1_0000_0000u64 as int) > u64::MAX as int)
            by (nonlinear_arith);
    }
    while lo + 1 < hi
        invariant
            0 <= lo < hi <= 0x1_0000_0000,
            (lo as int) * (lo as int) <= n as int,
            (n as int) < (hi as int) * (hi as int),
        decreases hi - lo,
    {
        let mid = lo + (hi - lo) / 2;
        proof {
            assert((mid as int) * (mid as int) < 0x1_0000_0000 * 0x1_0000_0000)
                by (nonlinear_arith)
                requires
                    0 <= mid < 0x1_0000_0000,
            ;
            assert(0x1_0000_0000 * 0x1_0000_0000 - 1 == u64::MAX as int) by (nonlinear_arith);
        }
        if mid * mid <= n {
            lo = mid;
        } else {
            hi = mid;
        }
    }
    proof {
        lemma_isqrt_unique(n as nat, lo as nat);
    }
    lo
}

/// Sum over `i < k` of `a(a_x0 + i, a_y0 + row) * b(b_x0 + i, b_y0 + row)`.
pub open spec fn row_prod(
    a: ImageView,
    b: ImageView,
    a_x0: int,
    a_y0: int,
    b_x0: int,
    b_y0: int,
    row: int,
    k: int,
) -> int
    decreases k,
{
    if k <= 0 {
        0
    } else {
        row_prod(a, b, a_x0, a_y0, b_x0, b_y0, row, k - 1) + a.at(a_x0 + k - 1, a_y0 + row) * b.at(
            b_x0 + k - 1,
            b_y0 + row,
        )
    }
}

/// Sum of `row_prod` over the first `rows` rows of a `w`-wide window.
pub open spec fn win_prod(
    a: ImageView,
    b: ImageView,
    a_x0: int,
    a_y0: int,
    b_x0: int,
    b_y0: int,
    w: int,
    rows: int,
) -> int
    decreases rows,
{
    if rows <= 0 {
        0
    } else {
        win_prod(a, b, a_x0, a_y0, b_x0, b_y0, w, rows - 1) + row_prod(
            a,
            b,
            a_x0,
            a_y0,
            b_x0,
            b_y0,
            rows - 1,
            w,
        )
    }
}

proof fn lemma_row_prod_bound(
    a: ImageView,
    b: ImageView,
    a_x0: int,
    a_y0: int,
    b_x0: int,
    b_y0: int,
    row: int,
    k: int,
)
    requires
        k >= 0,
    ensures
        0 <= row_prod(a, b, a_x0, a_y0, b_x0, b_y0, row, k) <= k * 65025,
    decreases k,
{
    if k > 0 {
        lemma_row_prod_bound(a, b, a_x0, a_y0, b_x0, b_y0, row, k - 1);
        let pa = a.at(a_x0 + k - 1, a_y0 + row);
        let pb = b.at(b_x0 + k - 1, b_y0 + row);
        assert(0 <= pa * pb <= 65025) by (nonlinear_arith)
            requires
                0 <= pa <= 255,
                0 <= pb <= 255,
        ;
    }
}

proof fn lemma_win_prod_bound(
    a: ImageView,
    b: ImageView,
    a_x0: int,
    a_y0: int,
    b_x0: int,
    b_y0: int,
    w: int,
    rows: int,
)
    requires
        w >= 0,
        rows >= 0,
    ensures
        0 <= win_prod(a, b, a_x0, a_y0, b_x0, b_y0, w, rows) <= rows * w * 65025,
    decreases rows,
{
    if rows > 0 {
        lemma_win_prod_bound(a, b, a_x0, a_y0, b_x0, b_y0, w, rows - 1);
        lemma_row_prod_bound(a, b, a_x0, a_y0, b_x0, b_y0, rows - 1, w);
        assert((rows - 1) * w * 65025 + w * 65025 == rows * w * 65025) by (nonlinear_arith);
    }
}

/// Computes the windowed product sum of two images over a `w`-by-`h`
/// window anchored at `(a_x0, a_y0)` in `a` and `(b_x0, b_y0)` in `b`.
fn window_prod(
    a: &Image,
    b: &Image,
    a_x0: usize,
    a_y0: usize,
    b_x0: usize,
    b_y0: usize,
    w: usize,
    h: usize,
) -> (r: u64)
    requires
        a@.wf(),
        b@.wf(),
        a_x0 + w <= a@.width,
        a_y0 + h <= a@.height,
        b_x0 + w <= b@.width,
        b_y0 + h <= b@.height,
    ensures
        r == win_prod(a@, b@, a_x0 as int, a_y0 as int, b_x0 as int, b_y0 as int, w as int, h as int),
        r <= MAX_WINDOW_SUM,
{
    proof {
        assert(h * w * 65025 <= MAX_WINDOW_SUM) by (nonlinear_arith)
            requires
                0 <= w <= 65536,
                0 <= h <= 65536,
                MAX_WINDOW_SUM == 0x1_0000_0000 * 65025,
        ;
    }
    let mut acc: u64 = 0;
    let mut row: usize = 0;
    while row < h
        invariant
            a@.wf(),
            b@.wf(),
            a_x0 + w <= a@.width,
            a_y0 + h <= a@.height,
            b_x0 + w <= b@.width,
            b_y0 + h <= b@.height,
            0 <= row <= h,
            acc == win_prod(
                a@,
                b@,
                a_x0 as int,
                a_y0 as int,
                b_x0 as int,
                b_y0 as int,
                w as int,
                row as int,
            ),
            acc <= (row as int) * (w as int) * 65025,
            h * w * 65025 <= MAX_WINDOW_SUM,
        decreases h - row,
    {
        let mut k: usize = 0;
        let ghost row_base = acc as int;
        while k < w
            invariant
                a@.wf(),
                b@.wf(),
                a_x0 + w <= a@.width,
                a_y0 + h <= a@.height,
                b_x0 + w <= b@.width,
                b_y0 + h <= b@.height,
                0 <= row < h,
                0 <= k <= w,
                acc == row_base + row_prod(
                    a@,
                    b@,
                    a_x0 as int,
                    a_y0 as int,
                    b_x0 as int,
                    b_y0 as int,
                    row as int,
                    k as int,
                ),
                row_base == win_prod(
                    a@,
                    b@,
                    a_x0 as int,
                    a_y0 as int,
                    b_x0 as int,
                    b_y0 as int,
                    w as int,
                    row as int,
                ),
                row_base <= (row as int) * (w as int) * 65025,
                h * w * 65025 <= MAX_WINDOW_SUM,
            decreases w - k,
        {
            let pa = a.at(a_x0 + k, a_y0 + row);
            let pb = b.at(b_x0 + k, b_y0 + row);
            proof {
                lemma_row_prod_bound(
                    a@,
                    b@,
                    a_x0 as int,
                    a_y0 as int,
                    b_x0 as int,
                    b_y0 as int,
                    row as int,
                    k as int,
                );
                assert(0 <= (pa as int) * (pb as int) <= 65025) by (nonlinear_arith)
                    requires
                        0 <= pa <= 255,
                        0 <= pb <= 255,
                ;
                assert((row as int) * (w as int) * 65025 + (k as int) * 65025 + 65025 <= (h as int)
                    * (w as int) * 65025) by (nonlinear_arith)
                    requires
                        0 <= row < h,
                        0 <= k < w,
                ;
            }
            acc = acc + (pa as u64) * (pb as u64);
            k = k + 1;
        }
        proof {
            lemma_row_prod_bound(
                a@,
                b@,
                a_x0 as int,
                a_y0 as int,
                b_x0 as int,
                b_y0 as int,
                row as int,
                w as int,
            );
            assert((row as int) * (w as int) * 65025 + (w as int) * 65025 == ((row as int) + 1) * (
            w as int) * 65025) by (nonlinear_arith);
        }
        row = row + 1;
    }
    proof {
        lemma_win_prod_bound(
            a@,
            b@,
            a_x0 as int,
            a_y0 as int,
            b_x0 as int,
            b_y0 as int,
            w as int,
            h as int,
        );
        assert((h as int) * (w as int) * 65025 <= MAX_WINDOW_SUM) by (nonlinear_arith)
            requires
                0 <= w <= 65536,
                0 <= h <= 65536,
                MAX_WINDOW_SUM == 0x1_0000_0000 * 65025,
        ;
    }
    acc
}

/// The fixed-point normalized cross-correlation confidence from the raw
/// window sums: `num * 1000 / (sqrt(den_t) * sqrt(den_i))`, truncated,
/// clamped to 1000, and zero when either energy is zero.
pub open spec fn spec_confidence(num: int, den_t: int, den_i: int) -> int {
    if den_t <= 0 || den_i <= 0 {
        0
    } else {
        let d = spec_isqrt(den_t as nat) * spec_isqrt(den_i as nat);
        let c = num * (CONFIDENCE_SCALE as int) / (d as int);
        if c > CONFIDENCE_SCALE as int {
            CONFIDENCE_SCALE as int
        } else {
            c
        }
    }
}

/// Template self-energy: `sum(T²)` over the whole template.
pub open spec fn spec_den_t(t: ImageView) -> int {
    win_prod(t, t, 0, 0, 0, 0, t.width as int, t.height as int)
}

/// Correlation numerator at `(x, y)`: `sum(T·W)` for the target window
/// anchored there.
pub open spec fn spec_num(t: ImageView, g: ImageView, x: int, y: int) -> int {
    win_prod(t, g, 0, 0, x, y, t.width as int, t.height as int)
}

/// Window self-energy at `(x, y)`: `sum(W²)`.
pub open spec fn spec_den_i(t: ImageView, g: ImageView, x: int, y: int) -> int {
    win_prod(g, g, x, y, x, y, t.width as int, t.height as int)
}

/// The confidence of anchoring template `t` at `(x, y)` in target `g`.
pub open spec fn spec_conf_at(t: ImageView, g: ImageView, x: int, y: int) -> int {
    spec_confidence(spec_num(t, g, x, y), spec_den_t(t), spec_den_i(t, g, x, y))
}

/// The confidence is a fixed-point value between 0 and 1000.
pub proof fn lemma_confidence_range(num: int, den_t: int, den_i: int)
    requires
        num >= 0,
    ensures
        0 <= spec_confidence(num, den_t, den_i) <= CONFIDENCE_SCALE,
{
    if den_t > 0 && den_i > 0 {
        lemma_isqrt_bounds(den_t as nat);
        lemma_isqrt_bounds(den_i as nat);
        lemma_isqrt_pos(den_t as nat);
        lemma_isqrt_pos(den_i as nat);
        let st = spec_isqrt(den_t as nat);
        let si = spec_isqrt(den_i as nat);
        assert(st * si >= 1) by (nonlinear_arith)
            requires
                st >= 1,
                si >= 1,
        ;
        let d = st * si;
        vstd::arithmetic::div_mod::lemma_div_pos_is_pos(num * (CONFIDENCE_SCALE as int), d as int);
    }
}

/// Isolates one confidence computation from precomputed window sums.
fn confidence_from(num: u64, den_t: u64, sqrt_den_t: u64, den_i: u64) -> (c: u32)
    requires
        num <= MAX_WINDOW_SUM,
        den_t <= MAX_WINDOW_SUM,
        den_i <= MAX_WINDOW_SUM,
        sqrt_den_t == spec_isqrt(den_t as nat),
    ensures
        c == spec_confidence(num as int, den_t as int, den_i as int),
        c <= CONFIDENCE_SCALE,
{
    if den_t == 0 || den_i == 0 {
        return 0;
    }
    let sqrt_den_i = isqrt(den_i);
    proof {
        lemma_isqrt_bounds(den_t as nat);
        lemma_isqrt_bounds(den_i as nat);
        lemma_isqrt_pos(den_t as nat);
        lemma_isqrt_pos(den_i as nat);
        let st = spec_isqrt(den_t as nat);
        let si = spec_isqrt(den_i as nat);
        assert(st <= 0x1_0000_0000 && si <= 0x1_0000_0000) by (nonlinear_arith)
            requires
                st * st <= MAX_WINDOW_SUM,
                si * si <= MAX_WINDOW_SUM,
                st >= 0,
                si >= 0,
                MAX_WINDOW_SUM == 0x1_0000_0000 * 65025,
        ;
        assert(st * si <= 0x1_0000_0000 * 0x1_0000_0000 && st * si >= 1) by (nonlinear_arith)
            requires
                1 <= st <= 0x1_0000_0000,
                1 <= si <= 0x1_0000_0000,
        ;
        assert(num * 1000 <= MAX_WINDOW_SUM * 1000);
        assert(MAX_WINDOW_SUM * 1000 <= u64::MAX as int) by (nonlinear_arith);
    }
    let d128: u128 = (sqrt_den_t as u128) * (sqrt_den_i as u128);
    let num1000: u128 = (num as u128) * 1000;
    let c128 = num1000 / d128;
    proof {
        let d = spec_isqrt(den_t as nat) * spec_isqrt(den_i as nat);
        let c = (num as int) * (CONFIDENCE_SCALE as int) / (d as int);
        assert(c128 == c);
        vstd::arithmetic::div_mod::lemma_div_pos_is_pos((num as int) * 1000, d as int);
    }
    if c128 > 1000 {
        1000
    } else {
        c128 as u32
    }
}

/// The window of `g` anchored at `(x, y)` equals `t` pixel for pixel.
pub open spec fn window_equals(t: ImageView, g: ImageView, x: int, y: int) -> bool {
    forall|i: int, j: int|
        0 <= i < t.width && 0 <= j < t.height ==> g.at(x + i, y + j) == #[trigger] t.at(i, j)
}

proof fn lemma_row_prod_congruent(t: ImageView, g: ImageView, x: int, y: int, row: int, k: int)
    requires
        window_equals(t, g, x, y),
        0 <= row < t.height,
        0 <= k <= t.width,
    ensures
        row_prod(t, g, 0, 0, x, y, row, k) == row_prod(t, t, 0, 0, 0, 0, row, k),
        row_prod(g, g, x, y, x, y, row, k) == row_prod(t, t, 0, 0, 0, 0, row, k),
    decreases k,
{
    if k > 0 {
        lemma_row_prod_congruent(t, g, x, y, row, k - 1);
        assert(g.at(x + k - 1, y + row) == t.at(k - 1, row));
    }
}

proof fn lemma_win_prod_congruent(t: ImageView, g: ImageView, x: int, y: int, rows: int)
    requires
        window_equals(t, g, x, y),
        0 <= rows <= t.height,
    ensures
        win_prod(t, g, 0, 0, x, y, t.width as int, rows) == win_prod(
            t,
            t,
            0,
            0,
            0,
            0,
            t.width as int,
            rows,
        ),
        win_prod(g, g, x, y, x, y, t.width as int, rows) == win_prod(
            t,
            t,
            0,
            0,
            0,
            0,
            t.width as int,
            rows,
        ),
    decreases rows,
{
    if rows > 0 {
        lemma_win_prod_congruent(t, g, x, y, rows - 1);
        lemma_row_prod_congruent(t, g, x, y, rows - 1, t.width as int);
    }
}

/// A verbatim copy of the template in the target scores full confidence:
/// wherever the target window equals the template pixel for pixel — and
/// the template is not entirely black — the confidence is exactly 1000.
pub proof fn lemma_exact_copy_full_confidence(t: ImageView, g: ImageView, x: int, y: int)
    requires
        window_equals(t, g, x, y),
        spec_den_t(t) > 0,
    ensures
        spec_conf_at(t, g, x, y) == CONFIDENCE_SCALE,
{
    lemma_win_prod_congruent(t, g, x, y, t.height as int);
    let s = spec_den_t(t);
    assert(spec_num(t, g, x, y) == s);
    assert(spec_den_i(t, g, x, y) == s);
    lemma_isqrt_bounds(s as nat);
    lemma_isqrt_pos(s as nat);
    let r = spec_isqrt(s as nat) as int;
    let d = r * r;
    assert(1 <= d <= s) by (nonlinear_arith)
        requires
            r >= 1,
            d == r * r,
            r * r <= s,
    ;
    assert(s * 1000 >= d * 1000) by (nonlinear_arith)
        requires
            d <= s,
    ;
    vstd::arithmetic::div_mod::lemma_div_is_ordered(d * 1000, s * 1000, d);
    vstd::arithmetic::div_mod::lemma_div_multiples_vanish(1000, d);
    assert(d * 1000 == 1000 * d) by (nonlinear_arith);
    assert((s * 1000) / d >= 1000);
}

/// The similarity surface of matching template `t` against target `g`:
/// one confidence per top-left anchoring position.
pub open spec fn spec_surface(t: ImageView, g: ImageView) -> SurfaceView {
    let sw = g.width - t.width + 1;
    let sh = g.height - t.height + 1;
    SurfaceView {
        width: sw as nat,
        height: sh as nat,
        data: Seq::new(
            (sw * sh) as nat,
            |i: int| spec_conf_at(t, g, i % (sw as int), i / (sw as int)) as u32,
        ),
    }
}

/// Every value of a similarity surface is at most full confidence.
pub proof fn lemma_surface_bounds(t: ImageView, g: ImageView)
    ensures
        forall|i: int|
            0 <= i < spec_surface(t, g).data.len() ==> #[trigger] spec_surface(t, g).data[i]
                <= CONFIDENCE_SCALE,
{
    let sv = spec_surface(t, g);
    assert forall|i: int| 0 <= i < sv.data.len() implies #[trigger] sv.data[i]
        <= CONFIDENCE_SCALE by {
        let sw = g.width - t.width + 1;
        let x = i % (sw as int);
        let y = i / (sw as int);
        lemma_win_prod_bound(t, g, 0, 0, x, y, t.width as int, t.height as int);
        lemma_confidence_range(spec_num(t, g, x, y), spec_den_t(t), spec_den_i(t, g, x, y));
    }
}

/// A verbatim copy anchored at `(x, y)` puts full confidence at the
/// corresponding surface position.
pub proof fn lemma_exact_copy_in_surface(t: ImageView, g: ImageView, x: int, y: int)
    requires
        t.wf(),
        g.wf(),
        1 <= t.width <= g.width,
        1 <= t.height <= g.height,
        0 <= x <= g.width - t.width,
        0 <= y <= g.height - t.height,
        window_equals(t, g, x, y),
        spec_den_t(t) > 0,
    ensures
        ({
            let sw = g.width - t.width + 1;
            let idx = y * sw + x;
            0 <= idx < spec_surface(t, g).data.len() && spec_surface(t, g).data[idx]
                == CONFIDENCE_SCALE
        }),
{
    let sw = (g.width - t.width + 1) as int;
    let sh = (g.height - t.height + 1) as int;
    crate::image::lemma_grid_index(sw, sh, x, y);
    lemma_exact_copy_full_confidence(t, g, x, y);
    let idx = y * sw + x;
    assert(spec_surface(t, g).data[idx] == spec_conf_at(t, g, idx % sw, idx / sw) as u32);
}

/// Computes the full similarity surface of `template` against `target`,
/// or nothing when the template is empty or larger than the target (the
/// infeasible-scale case, skipped by the detector).
pub fn match_surface(template: &Image, target: &Image) -> (r: Option<Surface>)
    requires
        template@.wf(),
        target@.wf(),
    ensures
        r is Some <==> (1 <= template@.width <= target@.width && 1 <= template@.height
            <= target@.height),
        r matches Some(s) ==> s@ == spec_surface(template@, target@) && s@.wf() && s@.width
            == target@.width - template@.width + 1 && s@.height == target@.height
            - template@.height + 1,
{
    let tw = template.width;
    let th = template.height;
    let gw = target.width;
    let gh = target.height;
    if tw < 1 || th < 1 || tw > gw || th > gh {
        return None;
    }
    let sw = gw - tw + 1;
    let sh = gh - th + 1;
    let den_t = window_prod(template, template, 0, 0, 0, 0, tw, th);
    let sqrt_den_t = isqrt(den_t);
    let mut values: Vec<u32> = Vec::new();
    let ghost sv = spec_surface(template@, target@);
    proof {
        assert(sv.data.len() == (sw as int) * (sh as int));
    }
    let mut y: usize = 0;
    while y < sh
        invariant
            template@.wf(),
            target@.wf(),
            1 <= tw == template@.width,
            1 <= th == template@.height,
            gw == target@.width,
            gh == target@.height,
            tw <= gw,
            th <= gh,
            sw == gw - tw + 1,
            sh == gh - th + 1,
            den_t == spec_den_t(template@),
            den_t <= MAX_WINDOW_SUM,
            sqrt_den_t == spec_isqrt(den_t as nat),
            sv == spec_surface(template@, target@),
            0 <= y <= sh,
            values@.len() == y * sw,
            forall|i: int| 0 <= i < values@.len() ==> values@[i] == sv.data[i],
        decreases sh - y,
    {
        let mut x: usize = 0;
        while x < sw
            invariant
                template@.wf(),
                target@.wf(),
                1 <= tw == template@.width,
                1 <= th == template@.height,
                gw == target@.width,
                gh == target@.height,
                tw <= gw,
                th <= gh,
                sw == gw - tw + 1,
                sh == gh - th + 1,
                den_t == spec_den_t(template@),
                den_t <= MAX_WINDOW_SUM,
                sqrt_den_t == spec_isqrt(den_t as nat),
                sv == spec_surface(template@, target@),
                0 <= y < sh,
                0 <= x <= sw,
                values@.len() == y * sw + x,
                forall|i: int| 0 <= i < values@.len() ==> values@[i] == sv.data[i],
            decreases sw - x,
        {
            let num = window_prod(template, target, 0, 0, x, y, tw, th);
            let den_i = window_prod(target, target, x, y, x, y, tw, th);
            let c = confidence_from(num, den_t, sqrt_den_t, den_i);
            proof {
                lemma_grid_index(sw as int, sh as int, x as int, y as int);
                lemma_win_prod_bound(
                    template@,
                    target@,
                    0,
                    0,
                    x as int,
                    y as int,
                    tw as int,
                    th as int,
                );
                lemma_confidence_range(num as int, den_t as int, den_i as int);
                assert(sv.data[(y * sw + x) as int] == spec_conf_at(
                    template@,
                    target@,
                    x as int,
                    y as int,
                ) as u32);
            }
            values.push(c);
            x = x + 1;
        }
        proof {
            assert((y + 1) * sw == y * sw + sw) by (nonlinear_arith);
        }
        y = y + 1;
    }
    let s = Surface { width: sw, height: sh, values };
    proof {
        assert((sh as int) * (sw as int) == (sw as int) * (sh as int)) by (nonlinear_arith);
        assert(s@.data =~= sv.data);
        assert(s@ == sv);
        assert((sw as int) * (sh as int) == s@.width * s@.height);
    }
    Some(s)
}

} // verus!
