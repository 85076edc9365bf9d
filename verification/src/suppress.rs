//! Greedy peak extraction with neighbourhood suppression.
//!
//! Repeatedly takes the strongest remaining peak of a similarity surface,
//! accepts it when it clears the threshold, and zeroes a rectangle around
//! it — a quarter template on each side beyond the template's footprint —
//! so the same physical instance is never picked twice.

use vstd::prelude::*;
use crate::image::MAX_IMAGE_DIM;
use crate::matcher::{Surface, SurfaceView};

verus! {

/// One accepted detection: a bounding box in target coordinates and its
/// confidence in fixed-point thousandths.
#[derive(Clone, Copy, Debug, PartialEq, Eq, Structural)]
pub struct Match {
    pub top_left_x: usize,
    pub top_left_y: usize,
    pub bottom_right_x: usize,
    pub bottom_right_y: usize,
    pub confidence: u32,
}

/// The largest value of a sequence of confidences (zero when empty).
pub open spec fn seq_max(s: Seq<u32>) -> u32
    decreases s.len(),
{
    if s.len() == 0 {
        0u32
    } else {
        let m = seq_max(s.drop_last());
        if s.last() > m {
            s.last()
        } else {
            m
        }
    }
}

/// The first index attaining `seq_max` (0 for an empty sequence).
pub open spec fn first_max_idx(s: Seq<u32>) -> int
    decreases s.len(),
{
    if s.len() <= 1 {
        0
    } else if s.last() > seq_max(s.drop_last()) {
        s.len() - 1
    } else {
        first_max_idx(s.drop_last())
    }
}

/// Every element is bounded by the maximum, and the first-maximum index
/// attains it.
pub proof fn lemma_seq_max(s: Seq<u32>)
    requires
        s.len() > 0,
    ensures
        0 <= first_max_idx(s) < s.len(),
        s[first_max_idx(s)] == seq_max(s),
        forall|i: int| 0 <= i < s.len() ==> s[i] <= seq_max(s),
    decreases s.len(),
{
    if s.len() == 1 {
        assert(s[0] == s.last());
    } else {
        lemma_seq_max(s.drop_last());
        assert(forall|i: int| 0 <= i < s.len() - 1 ==> s[i] == s.drop_last()[i]);
    }
}

/// A pointwise-dominated sequence has a dominated maximum.
pub proof fn lemma_seq_max_pointwise(a: Seq<u32>, b: Seq<u32>)
    requires
        a.len() == b.len(),
        forall|i: int| 0 <= i < a.len() ==> a[i] <= b[i],
    ensures
        seq_max(a) <= seq_max(b),
    decreases a.len(),
{
    if a.len() > 0 {
        lemma_seq_max(b);
        lemma_seq_max_pointwise(a.drop_last(), b.drop_last());
        assert(forall|i: int| 0 <= i < a.len() - 1 ==> a.drop_last()[i] == a[i]);
        assert(forall|i: int| 0 <= i < b.len() - 1 ==> b.drop_last()[i] == b[i]);
        lemma_seq_max(a);
        let j = first_max_idx(a);
        assert(a[j] <= b[j]);
        assert(b[j] <= seq_max(b));
    }
}

/// The suppression rectangle around a peak at `(x, y)` for a `tw`-by-`th`
/// template: a quarter template beyond the footprint on each side,
/// clamped to the surface.
pub open spec fn spec_rect(s: SurfaceView, x: int, y: int, tw: int, th: int) -> (int, int, int, int) {
    let x1 = if x - tw / 4 >= 0 { x - tw / 4 } else { 0 };
    let y1 = if y - th / 4 >= 0 { y - th / 4 } else { 0 };
    let x2 = if x1 + tw + tw / 2 <= s.width { x1 + tw + tw / 2 } else { s.width as int };
    let y2 = if y1 + th + th / 2 <= s.height { y1 + th + th / 2 } else { s.height as int };
    (x1, y1, x2, y2)
}

/// The surface with every value inside the rectangle zeroed.
pub open spec fn spec_suppress(s: SurfaceView, x1: int, y1: int, x2: int, y2: int) -> SurfaceView {
    SurfaceView {
        width: s.width,
        height: s.height,
        data: Seq::new(
            s.data.len(),
            |i: int|
                if x1 <= i % (s.width as int) < x2 && y1 <= i / (s.width as int) < y2 {
                    0u32
                } else {
                    s.data[i]
                },
        ),
    }
}

/// The greedy extraction: up to `k` rounds of taking the first global
/// maximum, stopping when it falls below `threshold`, recording its
/// box — the template footprint anchored at the peak — and suppressing
/// the surrounding rectangle.
pub open spec fn spec_extract(s: SurfaceView, tw: int, th: int, threshold: u32, k: nat) -> Seq<
    Match,
>
    decreases k,
{
    if k == 0 || s.data.len() == 0 {
        Seq::<Match>::empty()
    } else {
        let m = seq_max(s.data);
        if m < threshold {
            Seq::<Match>::empty()
        } else {
            let idx = first_max_idx(s.data);
            let x = idx % (s.width as int);
            let y = idx / (s.width as int);
            let mt = Match {
                top_left_x: x as usize,
                top_left_y: y as usize,
                bottom_right_x: (x + tw) as usize,
                bottom_right_y: (y + th) as usize,
                confidence: m,
            };
            let rect = spec_rect(s, x, y, tw, th);
            seq![mt] + spec_extract(
                spec_suppress(s, rect.0, rect.1, rect.2, rect.3),
                tw,
                th,
                threshold,
                (k - 1) as nat,
            )
        }
    }
}

/// What greedy extraction guarantees of its result: no more matches than
/// asked for, every confidence at least the threshold and at most the
/// surface maximum, confidences non-increasing, and every box the
/// template footprint anchored inside the surface.
pub proof fn lemma_extract_props(s: SurfaceView, tw: int, th: int, threshold: u32, k: nat)
    requires
        s.wf(),
        1 <= tw <= MAX_IMAGE_DIM,
        1 <= th <= MAX_IMAGE_DIM,
    ensures
        spec_extract(s, tw, th, threshold, k).len() <= k,
        forall|i: int|
            0 <= i < spec_extract(s, tw, th, threshold, k).len() ==> {
                let mt = #[trigger] spec_extract(s, tw, th, threshold, k)[i];
                &&& mt.confidence >= threshold
                &&& mt.confidence <= seq_max(s.data)
                &&& mt.top_left_x < s.width
                &&& mt.top_left_y < s.height
                &&& mt.bottom_right_x == mt.top_left_x + tw
                &&& mt.bottom_right_y == mt.top_left_y + th
            },
        forall|i: int, j: int|
            0 <= i < j < spec_extract(s, tw, th, threshold, k).len() ==> spec_extract(
                s,
                tw,
                th,
                threshold,
                k,
            )[i].confidence >= spec_extract(s, tw, th, threshold, k)[j].confidence,
    decreases k,
{
    let r = spec_extract(s, tw, th, threshold, k);
    if k == 0 || s.data.len() == 0 {
    } else {
        let m = seq_max(s.data);
        if m < threshold {
        } else {
            lemma_seq_max(s.data);
            let idx = first_max_idx(s.data);
            let x = idx % (s.width as int);
            let y = idx / (s.width as int);
            vstd::arithmetic::div_mod::lemma_mod_division_less_than_divisor(
                idx,
                s.width as int,
            );
            vstd::arithmetic::div_mod::lemma_fundamental_div_mod(idx, s.width as int);
            assert(0 <= y) by {
                vstd::arithmetic::div_mod::lemma_div_pos_is_pos(idx, s.width as int);
            }
            assert(y < s.height) by {
                vstd::arithmetic::div_mod::lemma_multiply_divide_lt(
                    idx,
                    s.width as int,
                    s.height as int,
                );
            }
            let rect = spec_rect(s, x, y, tw, th);
            let sup = spec_suppress(s, rect.0, rect.1, rect.2, rect.3);
            assert(sup.wf());
            lemma_extract_props(sup, tw, th, threshold, (k - 1) as nat);
            let rest = spec_extract(sup, tw, th, threshold, (k - 1) as nat);
            assert(forall|i: int| 0 <= i < sup.data.len() ==> sup.data[i] <= s.data[i]);
            lemma_seq_max_pointwise(sup.data, s.data);
            assert(r == seq![r[0]] + rest);
            assert(forall|i: int| 1 <= i < r.len() ==> r[i] == rest[i - 1]);
        }
    }
}

/// When the strongest peak clears the threshold and the budget allows
/// at least one pick, extraction returns that peak first.
pub proof fn lemma_extract_takes_peak(s: SurfaceView, tw: int, th: int, threshold: u32, k: nat)
    requires
        s.wf(),
        k >= 1,
        s.data.len() > 0,
        seq_max(s.data) >= threshold,
    ensures
        spec_extract(s, tw, th, threshold, k).len() >= 1,
        spec_extract(s, tw, th, threshold, k)[0].confidence == seq_max(s.data),
{
    let r = spec_extract(s, tw, th, threshold, k);
    assert(r[0].confidence == seq_max(s.data));
}

/// The surface keeps, at every match's anchor, at least that match's
/// confidence: each pick reads its peak from the current surface, and
/// suppression only ever lowers values.
pub proof fn lemma_extract_anchor_value(s: SurfaceView, tw: int, th: int, threshold: u32, k: nat)
    requires
        s.wf(),
        1 <= tw <= MAX_IMAGE_DIM,
        1 <= th <= MAX_IMAGE_DIM,
    ensures
        forall|i: int|
            0 <= i < spec_extract(s, tw, th, threshold, k).len() ==> {
                let mt = #[trigger] spec_extract(s, tw, th, threshold, k)[i];
                s.data[mt.top_left_y * s.width + mt.top_left_x] >= mt.confidence
            },
    decreases k,
{
    let r = spec_extract(s, tw, th, threshold, k);
    if k == 0 || s.data.len() == 0 {
    } else {
        let m = seq_max(s.data);
        if m < threshold {
        } else {
            lemma_seq_max(s.data);
            let idx = first_max_idx(s.data);
            let x = idx % (s.width as int);
            let y = idx / (s.width as int);
            vstd::arithmetic::div_mod::lemma_mod_division_less_than_divisor(idx, s.width as int);
            vstd::arithmetic::div_mod::lemma_div_pos_is_pos(idx, s.width as int);
            vstd::arithmetic::div_mod::lemma_multiply_divide_lt(
                idx,
                s.width as int,
                s.height as int,
            );
            vstd::arithmetic::div_mod::lemma_fundamental_div_mod(idx, s.width as int);
            let rect = spec_rect(s, x, y, tw, th);
            let sup = spec_suppress(s, rect.0, rect.1, rect.2, rect.3);
            lemma_extract_anchor_value(sup, tw, th, threshold, (k - 1) as nat);
            lemma_extract_props(sup, tw, th, threshold, (k - 1) as nat);
            let rest = spec_extract(sup, tw, th, threshold, (k - 1) as nat);
            assert(r[0].top_left_x == x && r[0].top_left_y == y);
            assert((s.width as int) * y == y * (s.width as int)) by (nonlinear_arith);
            assert(r[0].top_left_y * s.width + r[0].top_left_x == idx);
            assert(forall|i: int| 1 <= i < r.len() ==> r[i] == rest[i - 1]);
            assert(forall|p: int| 0 <= p < sup.data.len() ==> sup.data[p] <= s.data[p]);
            assert forall|i: int| 1 <= i < r.len() implies {
                let mt = #[trigger] r[i];
                s.data[mt.top_left_y * s.width + mt.top_left_x] >= mt.confidence
            } by {
                let mt = rest[i - 1];
                assert(mt.top_left_x < sup.width && mt.top_left_y < sup.height);
                crate::image::lemma_grid_index(
                    sup.width as int,
                    sup.height as int,
                    mt.top_left_x as int,
                    mt.top_left_y as int,
                );
                assert(sup.data[mt.top_left_y * sup.width + mt.top_left_x] >= mt.confidence);
            }
        }
    }
}

/// Two matches taken from one surface are spatially separated: with a
/// positive threshold, the later match's anchor never lies inside the
/// rectangle that the earlier match's suppression zeroed.
pub proof fn lemma_suppression_separation(
    s: SurfaceView,
    tw: int,
    th: int,
    threshold: u32,
    k: nat,
)
    requires
        s.wf(),
        1 <= tw <= MAX_IMAGE_DIM,
        1 <= th <= MAX_IMAGE_DIM,
        threshold >= 1,
    ensures
        forall|i: int, j: int|
            0 <= i < j < spec_extract(s, tw, th, threshold, k).len() ==> {
                let mi = #[trigger] spec_extract(s, tw, th, threshold, k)[i];
                let mj = #[trigger] spec_extract(s, tw, th, threshold, k)[j];
                let rect = spec_rect(s, mi.top_left_x as int, mi.top_left_y as int, tw, th);
                !(rect.0 <= mj.top_left_x < rect.2 && rect.1 <= mj.top_left_y < rect.3)
            },
    decreases k,
{
    let r = spec_extract(s, tw, th, threshold, k);
    if k == 0 || s.data.len() == 0 {
    } else {
        let m = seq_max(s.data);
        if m < threshold {
        } else {
            lemma_seq_max(s.data);
            let idx = first_max_idx(s.data);
            let x = idx % (s.width as int);
            let y = idx / (s.width as int);
            vstd::arithmetic::div_mod::lemma_mod_division_less_than_divisor(idx, s.width as int);
            vstd::arithmetic::div_mod::lemma_div_pos_is_pos(idx, s.width as int);
            vstd::arithmetic::div_mod::lemma_multiply_divide_lt(
                idx,
                s.width as int,
                s.height as int,
            );
            let rect0 = spec_rect(s, x, y, tw, th);
            let sup = spec_suppress(s, rect0.0, rect0.1, rect0.2, rect0.3);
            lemma_suppression_separation(sup, tw, th, threshold, (k - 1) as nat);
            lemma_extract_anchor_value(sup, tw, th, threshold, (k - 1) as nat);
            lemma_extract_props(sup, tw, th, threshold, (k - 1) as nat);
            let rest = spec_extract(sup, tw, th, threshold, (k - 1) as nat);
            assert(forall|i: int| 1 <= i < r.len() ==> r[i] == rest[i - 1]);
            assert forall|i: int, j: int| 0 <= i < j < r.len() implies {
                let mi = #[trigger] r[i];
                let mj = #[trigger] r[j];
                let rect = spec_rect(s, mi.top_left_x as int, mi.top_left_y as int, tw, th);
                !(rect.0 <= mj.top_left_x < rect.2 && rect.1 <= mj.top_left_y < rect.3)
            } by {
                let mi = r[i];
                let mj = r[j];
                if i == 0 {
                    let mjx = mj.top_left_x as int;
                    let mjy = mj.top_left_y as int;
                    let pj = mjy * sup.width + mjx;
                    assert(mjx < sup.width && mjy < sup.height);
                    crate::image::lemma_grid_index(
                        sup.width as int,
                        sup.height as int,
                        mjx,
                        mjy,
                    );
                    assert(sup.data[pj] >= mj.confidence);
                    assert(mi.top_left_x == x && mi.top_left_y == y);
                    if rect0.0 <= mjx < rect0.2 && rect0.1 <= mjy < rect0.3 {
                        assert(sup.data[pj] == 0);
                    }
                } else {
                    let rect_sup = spec_rect(
                        sup,
                        mi.top_left_x as int,
                        mi.top_left_y as int,
                        tw,
                        th,
                    );
                    assert(rect_sup == spec_rect(
                        s,
                        mi.top_left_x as int,
                        mi.top_left_y as int,
                        tw,
                        th,
                    ));
                }
            }
        }
    }
}

/// The flat surface position a match is anchored at.
pub open spec fn anchor_of(s: SurfaceView, mt: Match) -> int {
    mt.top_left_y * s.width + mt.top_left_x
}

/// A peak's suppression rectangle always covers the peak itself.
proof fn lemma_rect_contains_anchor(s: SurfaceView, x: int, y: int, tw: int, th: int)
    requires
        s.wf(),
        0 <= x < s.width,
        0 <= y < s.height,
        1 <= tw,
        1 <= th,
    ensures
        ({
            let rect = spec_rect(s, x, y, tw, th);
            rect.0 <= x < rect.2 && rect.1 <= y < rect.3
        }),
{
    vstd::arithmetic::div_mod::lemma_fundamental_div_mod(tw, 4);
    vstd::arithmetic::div_mod::lemma_mod_division_less_than_divisor(tw, 4);
    vstd::arithmetic::div_mod::lemma_div_pos_is_pos(tw, 2);
    vstd::arithmetic::div_mod::lemma_div_pos_is_pos(tw, 4);
    vstd::arithmetic::div_mod::lemma_fundamental_div_mod(th, 4);
    vstd::arithmetic::div_mod::lemma_mod_division_less_than_divisor(th, 4);
    vstd::arithmetic::div_mod::lemma_div_pos_is_pos(th, 2);
    vstd::arithmetic::div_mod::lemma_div_pos_is_pos(th, 4);
}

/// Exactly one match per instance. When the cells at or above the
/// threshold are exactly a finite set `hot`, pairwise outside each
/// other's suppression rectangles (well-separated instances), and the
/// budget covers them, greedy extraction returns exactly one match per
/// hot cell: as many matches as cells, each anchored at a hot cell, no
/// two at the same cell.
pub proof fn lemma_extract_one_per_instance(
    s: SurfaceView,
    tw: int,
    th: int,
    threshold: u32,
    k: nat,
    hot: Set<int>,
)
    requires
        s.wf(),
        1 <= tw <= MAX_IMAGE_DIM,
        1 <= th <= MAX_IMAGE_DIM,
        threshold >= 1,
        hot.finite(),
        k >= hot.len(),
        forall|i: int| #[trigger] hot.contains(i) ==> 0 <= i < s.data.len(),
        forall|i: int| 0 <= i < s.data.len() ==> ((s.data[i] >= threshold) <==> hot.contains(i)),
        forall|a: int, b: int|
            #[trigger] hot.contains(a) && #[trigger] hot.contains(b) && a != b ==> {
                let rect = spec_rect(s, a % (s.width as int), a / (s.width as int), tw, th);
                !(rect.0 <= b % (s.width as int) < rect.2 && rect.1 <= b / (s.width as int)
                    < rect.3)
            },
    ensures
        spec_extract(s, tw, th, threshold, k).len() == hot.len(),
        forall|j: int|
            0 <= j < spec_extract(s, tw, th, threshold, k).len() ==> hot.contains(
                anchor_of(s, #[trigger] spec_extract(s, tw, th, threshold, k)[j]),
            ),
        forall|j1: int, j2: int|
            0 <= j1 < j2 < spec_extract(s, tw, th, threshold, k).len() ==> anchor_of(
                s,
                spec_extract(s, tw, th, threshold, k)[j1],
            ) != anchor_of(s, spec_extract(s, tw, th, threshold, k)[j2]),
        forall|c: int|
            #[trigger] hot.contains(c) ==> exists|j: int|
                0 <= j < spec_extract(s, tw, th, threshold, k).len() && anchor_of(
                    s,
                    spec_extract(s, tw, th, threshold, k)[j],
                ) == c,
    decreases hot.len(),
{
    let r = spec_extract(s, tw, th, threshold, k);
    let w = s.width as int;
    if s.data.len() == 0 || k == 0 {
        assert forall|i: int| !(#[trigger] hot.contains(i)) by {
            if hot.contains(i) {
                assert(0 <= i < s.data.len());
                assert(hot.len() != 0);
            }
        }
        assert(hot =~= Set::<int>::empty());
        assert(hot.len() == 0);
    } else {
        lemma_seq_max(s.data);
        let m = seq_max(s.data);
        let fidx = first_max_idx(s.data);
        if m < threshold {
            assert forall|i: int| !(#[trigger] hot.contains(i)) by {
                if hot.contains(i) {
                    assert(s.data[i] >= threshold);
                    assert(s.data[i] <= m);
                }
            }
            assert(hot =~= Set::<int>::empty());
            assert(hot.len() == 0);
        } else {
            assert(s.data[fidx] == m && m >= threshold);
            assert(hot.contains(fidx));
            vstd::arithmetic::div_mod::lemma_mod_division_less_than_divisor(fidx, w);
            vstd::arithmetic::div_mod::lemma_div_pos_is_pos(fidx, w);
            vstd::arithmetic::div_mod::lemma_multiply_divide_lt(fidx, w, s.height as int);
            vstd::arithmetic::div_mod::lemma_fundamental_div_mod(fidx, w);
            let x = fidx % w;
            let y = fidx / w;
            let rect = spec_rect(s, x, y, tw, th);
            lemma_rect_contains_anchor(s, x, y, tw, th);
            let sup = spec_suppress(s, rect.0, rect.1, rect.2, rect.3);
            let hot2 = hot.remove(fidx);
            vstd::set::axiom_set_remove_len(hot, fidx);
            assert(hot2.len() == hot.len() - 1);
            assert(sup.wf());
            assert forall|i: int|
                0 <= i < sup.data.len() implies ((sup.data[i] >= threshold) <==> hot2.contains(
                i,
            )) by {
                if i == fidx {
                    assert(sup.data[i] == 0);
                } else if hot.contains(i) {
                    assert(!(rect.0 <= i % w < rect.2 && rect.1 <= i / w < rect.3));
                    assert(sup.data[i] == s.data[i]);
                } else {
                    assert(sup.data[i] == 0 || sup.data[i] == s.data[i]);
                }
            }
            lemma_extract_one_per_instance(sup, tw, th, threshold, (k - 1) as nat, hot2);
            let rest = spec_extract(sup, tw, th, threshold, (k - 1) as nat);
            assert(r.len() == 1 + rest.len());
            assert(forall|j: int| 1 <= j < r.len() ==> r[j] == rest[j - 1]);
            assert(r[0].top_left_x == x && r[0].top_left_y == y);
            assert(w * y == y * w) by (nonlinear_arith);
            assert(anchor_of(s, r[0]) == fidx);
            assert forall|j: int|
                0 <= j < r.len() implies hot.contains(anchor_of(s, #[trigger] r[j])) by {
                if j >= 1 {
                    assert(hot2.contains(anchor_of(sup, rest[j - 1])));
                    assert(anchor_of(sup, rest[j - 1]) == anchor_of(s, r[j]));
                }
            }
            assert forall|j1: int, j2: int|
                0 <= j1 < j2 < r.len() implies anchor_of(s, r[j1]) != anchor_of(s, r[j2]) by {
                if j1 == 0 {
                    assert(hot2.contains(anchor_of(sup, rest[j2 - 1])));
                    assert(anchor_of(sup, rest[j2 - 1]) == anchor_of(s, r[j2]));
                    assert(anchor_of(s, r[j2]) != fidx);
                } else {
                    assert(anchor_of(sup, rest[j1 - 1]) != anchor_of(sup, rest[j2 - 1]));
                    assert(anchor_of(sup, rest[j1 - 1]) == anchor_of(s, r[j1]));
                    assert(anchor_of(sup, rest[j2 - 1]) == anchor_of(s, r[j2]));
                }
            }
            assert forall|c: int| #[trigger] hot.contains(c) implies exists|j: int|
                0 <= j < r.len() && anchor_of(s, r[j]) == c by {
                if c == fidx {
                    assert(anchor_of(s, r[0]) == c);
                } else {
                    assert(hot2.contains(c));
                    let j0 = choose|j0: int|
                        0 <= j0 < rest.len() && anchor_of(sup, rest[j0]) == c;
                    assert(anchor_of(s, r[j0 + 1]) == c);
                }
            }
        }
    }
}

impl Surface {
    /// Finds the first position of the largest confidence, scanning in
    /// row-major order.
    fn find_peak(&self) -> (r: (u32, usize))
        requires
            self@.wf(),
        ensures
            r.0 == seq_max(self@.data),
            r.1 == first_max_idx(self@.data),
            r.1 < self@.data.len(),
    {
        proof {
            assert(self@.data.len() >= 1) by (nonlinear_arith)
                requires
                    self@.data.len() == self@.width * self@.height,
                    self@.width >= 1,
                    self@.height >= 1,
            ;
        }
        let n = self.values.len();
        let mut best: u32 = self.values[0];
        let mut best_idx: usize = 0;
        let mut k: usize = 1;
        proof {
            reveal_with_fuel(seq_max, 3);
            reveal_with_fuel(first_max_idx, 3);
            assert(self@.data.take(1) =~= seq![self@.data[0]]);
            assert(self@.data.take(1).drop_last() =~= Seq::<u32>::empty());
            assert(seq_max(self@.data.take(1)) == self@.data[0]);
        }
        while k < n
            invariant
                self@.wf(),
                n == self@.data.len(),
                1 <= k <= n,
                best == seq_max(self@.data.take(k as int)),
                best_idx == first_max_idx(self@.data.take(k as int)),
                best_idx < k,
            decreases n - k,
        {
            let v = self.values[k];
            proof {
                let pre = self@.data.take(k as int);
                let cur = self@.data.take(k as int + 1);
                assert(cur.drop_last() =~= pre);
                assert(cur.last() == self@.data[k as int]);
            }
            if v > best {
                best = v;
                best_idx = k;
            }
            k = k + 1;
        }
        proof {
            assert(self@.data.take(n as int) =~= self@.data);
        }
        (best, best_idx)
    }

    /// Zeroes the rectangle `[x1, x2) × [y1, y2)`.
    fn suppress_rect(&mut self, x1: usize, y1: usize, x2: usize, y2: usize)
        requires
            old(self)@.wf(),
            x1 <= x2 <= old(self)@.width,
            y1 <= y2 <= old(self)@.height,
        ensures
            final(self)@ == spec_suppress(old(self)@, x1 as int, y1 as int, x2 as int, y2 as int),
            final(self)@.wf(),
    {
        let w = self.width;
        let ghost target = spec_suppress(old(self)@, x1 as int, y1 as int, x2 as int, y2 as int);
        let mut y: usize = y1;
        while y < y2
            invariant
                self@.width == old(self)@.width,
                self@.height == old(self)@.height,
                self@.data.len() == old(self)@.data.len(),
                old(self)@.wf(),
                w == self@.width,
                x1 <= x2 <= self@.width,
                y1 <= y <= y2 <= self@.height,
                target == spec_suppress(
                    old(self)@,
                    x1 as int,
                    y1 as int,
                    x2 as int,
                    y2 as int,
                ),
                forall|j: int|
                    0 <= j < self@.data.len() ==> self@.data[j] == (if x1 <= j % (w as int) < x2
                        && y1 <= j / (w as int) < y {
                        0u32
                    } else {
                        old(self)@.data[j]
                    }),
            decreases y2 - y,
        {
            let mut x: usize = x1;
            while x < x2
                invariant
                    self@.width == old(self)@.width,
                    self@.height == old(self)@.height,
                    self@.data.len() == old(self)@.data.len(),
                    old(self)@.wf(),
                    w == self@.width,
                    x1 <= x <= x2 <= self@.width,
                    y1 <= y < y2 <= self@.height,
                    forall|j: int|
                        0 <= j < self@.data.len() ==> self@.data[j] == (if x1 <= j % (w as int)
                            < x2 && (y1 <= j / (w as int) < y || (j / (w as int) == y && j % (
                        w as int) < x)) {
                            0u32
                        } else {
                            old(self)@.data[j]
                        }),
                decreases x2 - x,
            {
                proof {
                    crate::image::lemma_grid_index(
                        w as int,
                        self@.height as int,
                        x as int,
                        y as int,
                    );
                }
                let idx = y * w + x;
                self.values[idx] = 0;
                proof {
                    let wi = w as int;
                    assert forall|j: int| 0 <= j < self@.data.len() implies #[trigger] self@.data[j]
                        == (if x1 <= j % wi < x2 && (y1 <= j / wi < y || (j / wi == y && j % wi < x
                        + 1)) {
                        0u32
                    } else {
                        old(self)@.data[j]
                    }) by {
                        vstd::arithmetic::div_mod::lemma_fundamental_div_mod(j, wi);
                        vstd::arithmetic::div_mod::lemma_fundamental_div_mod(idx as int, wi);
                    }
                }
                x = x + 1;
            }
            y = y + 1;
        }
        proof {
            assert(self@.data =~= target.data);
        }
    }
}

/// Extracts up to `max_count` matches from a surface, consuming it.
///
/// The result is exactly the greedy suppression sequence: at most
/// `max_count` matches, most confident first, none below `threshold`,
/// each box the `tw`-by-`th` template footprint anchored at its peak.
pub fn extract_matches(
    surface: Surface,
    tw: usize,
    th: usize,
    threshold: u32,
    max_count: usize,
) -> (r: Vec<Match>)
    requires
        surface@.wf(),
        1 <= tw <= MAX_IMAGE_DIM,
        1 <= th <= MAX_IMAGE_DIM,
    ensures
        r@ == spec_extract(surface@, tw as int, th as int, threshold, max_count as nat),
        r@.len() <= max_count,
        forall|i: int|
            0 <= i < r@.len() ==> (#[trigger] r@[i]).confidence >= threshold && r@[i].confidence
                <= seq_max(surface@.data) && r@[i].bottom_right_x == r@[i].top_left_x + tw
                && r@[i].bottom_right_y == r@[i].top_left_y + th && r@[i].top_left_x
                < surface@.width && r@[i].top_left_y < surface@.height,
        forall|i: int, j: int|
            0 <= i < j < r@.len() ==> r@[i].confidence >= r@[j].confidence,
{
    let ghost orig = surface@;
    proof {
        lemma_extract_props(orig, tw as int, th as int, threshold, max_count as nat);
    }
    let mut surface = surface;
    let mut out: Vec<Match> = Vec::new();
    while out.len() < max_count
        invariant_except_break
            surface@.wf(),
            surface@.width == orig.width,
            surface@.height == orig.height,
            1 <= tw <= MAX_IMAGE_DIM,
            1 <= th <= MAX_IMAGE_DIM,
            out@.len() <= max_count,
            spec_extract(orig, tw as int, th as int, threshold, max_count as nat) == out@
                + spec_extract(
                surface@,
                tw as int,
                th as int,
                threshold,
                (max_count - out@.len()) as nat,
            ),
        ensures
            out@ == spec_extract(orig, tw as int, th as int, threshold, max_count as nat),
        decreases max_count - out.len(),
    {
        let (best, best_idx) = surface.find_peak();
        let ghost rem = (max_count - out@.len()) as nat;
        if best < threshold {
            proof {
                assert(spec_extract(surface@, tw as int, th as int, threshold, rem)
                    =~= Seq::<Match>::empty());
                assert(out@ + Seq::<Match>::empty() =~= out@);
            }
            break;
        }
        proof {
            lemma_seq_max(surface@.data);
            vstd::arithmetic::div_mod::lemma_mod_division_less_than_divisor(
                best_idx as int,
                surface@.width as int,
            );
            vstd::arithmetic::div_mod::lemma_div_pos_is_pos(
                best_idx as int,
                surface@.width as int,
            );
            vstd::arithmetic::div_mod::lemma_multiply_divide_lt(
                best_idx as int,
                surface@.width as int,
                surface@.height as int,
            );
        }
        let w = surface.width;
        let x = best_idx % w;
        let y = best_idx / w;
        let mt = Match {
            top_left_x: x,
            top_left_y: y,
            bottom_right_x: x + tw,
            bottom_right_y: y + th,
            confidence: best,
        };
        let x1 = if x >= tw / 4 { x - tw / 4 } else { 0 };
        let y1 = if y >= th / 4 { y - th / 4 } else { 0 };
        let x2 = if x1 + tw + tw / 2 <= w { x1 + tw + tw / 2 } else { w };
        let y2 = if y1 + th + th / 2 <= surface.height { y1 + th + th / 2 } else { surface.height };
        let ghost pre = surface@;
        proof {
            assert((x1 as int, y1 as int, x2 as int, y2 as int) == spec_rect(
                pre,
                x as int,
                y as int,
                tw as int,
                th as int,
            ));
            assert(x1 <= x2 && y1 <= y2);
        }
        surface.suppress_rect(x1, y1, x2, y2);
        out.push(mt);
        proof {
            let ghost sup = surface@;
            assert(spec_extract(pre, tw as int, th as int, threshold, rem) == seq![mt]
                + spec_extract(sup, tw as int, th as int, threshold, (rem - 1) as nat));
            assert(out@ + spec_extract(sup, tw as int, th as int, threshold, (rem - 1) as nat)
                =~= (out@.drop_last() + (seq![mt] + spec_extract(
                sup,
                tw as int,
                th as int,
                threshold,
                (rem - 1) as nat,
            ))));
        }
    }
    proof {
        assert(out@ == spec_extract(orig, tw as int, th as int, threshold, max_count as nat));
    }
    out
}

} // verus!
