//! The detector: scale-space search with greedy suppression.
//!
//! For each sampled scale factor the template is resized, matched over
//! the whole target, and peaks are extracted; the pooled matches of all
//! scales are then sorted by descending confidence (stable on ties) and
//! truncated to the requested count.

use vstd::prelude::*;
use crate::DetectError;
use crate::image::{Image, ImageView, spec_resize, MAX_IMAGE_DIM};
use crate::matcher::{match_surface, spec_surface};
use crate::suppress::{extract_matches, lemma_extract_props, spec_extract, Match};

verus! {

/// Scale factors are fixed-point thousandths: 1000 is unit scale.
pub const SCALE_DENOM: u64 = 1000;

/// Largest accepted scale factor: sixteen times the template size.
pub const MAX_SCALE_FACTOR: u64 = 16000;

/// Largest accepted number of scale steps.
pub const MAX_SCALE_STEPS: usize = 1000000;

/// The scale factor sampled at `step`: `scale_steps + 1` evenly spaced
/// points from `min_scale` to `max_scale` inclusive, truncating.
pub open spec fn spec_scale_at(min_scale: u64, max_scale: u64, scale_steps: int, step: int) -> int {
    if scale_steps == 0 {
        min_scale as int
    } else {
        min_scale + (step * (max_scale - min_scale)) / scale_steps
    }
}

/// A template dimension rescaled by a fixed-point factor, truncating.
pub open spec fn spec_scaled_dim(dim: int, scale: int) -> int {
    (dim * scale) / (SCALE_DENOM as int)
}

/// The sampled scale grid starts at `min_scale` and, when at least one
/// step is taken, ends exactly at `max_scale`; a grid of zero steps
/// samples `min_scale` alone.
pub proof fn lemma_scale_grid_endpoints(min_scale: u64, max_scale: u64, scale_steps: int)
    requires
        min_scale <= max_scale,
        scale_steps >= 0,
    ensures
        spec_scale_at(min_scale, max_scale, scale_steps, 0) == min_scale,
        scale_steps >= 1 ==> spec_scale_at(min_scale, max_scale, scale_steps, scale_steps)
            == max_scale,
{
    let d = max_scale - min_scale;
    if scale_steps != 0 {
        vstd::arithmetic::div_mod::lemma_div_multiples_vanish(d, scale_steps);
        assert((scale_steps * d) / scale_steps == d);
        assert(0 * d == 0) by (nonlinear_arith);
        vstd::arithmetic::div_mod::lemma_div_of0(scale_steps);
        assert(spec_scale_at(min_scale, max_scale, scale_steps, scale_steps) == min_scale + (
        scale_steps * d) / scale_steps);
    }
}

/// Computes the sampled scale factor at `step`.
fn scale_at(min_scale: u64, max_scale: u64, scale_steps: usize, step: usize) -> (r: u64)
    requires
        min_scale <= max_scale <= MAX_SCALE_FACTOR,
        scale_steps <= MAX_SCALE_STEPS,
        step <= scale_steps,
    ensures
        r == spec_scale_at(min_scale, max_scale, scale_steps as int, step as int),
        r <= MAX_SCALE_FACTOR,
{
    if scale_steps == 0 {
        min_scale
    } else {
        let diff = max_scale - min_scale;
        proof {
            assert((step as int) * (diff as int) <= 1000000 * 16000) by (nonlinear_arith)
                requires
                    0 <= step <= 1000000,
                    0 <= diff <= 16000,
            ;
            assert((step as int) * (diff as int) <= (scale_steps as int) * (diff as int))
                by (nonlinear_arith)
                requires
                    0 <= step <= scale_steps,
                    0 <= diff,
            ;
            vstd::arithmetic::div_mod::lemma_multiply_divide_le(
                (step as int) * (diff as int),
                scale_steps as int,
                diff as int,
            );
            vstd::arithmetic::div_mod::lemma_div_pos_is_pos(
                (step as int) * (diff as int),
                scale_steps as int,
            );
        }
        min_scale + ((step as u64) * diff) / (scale_steps as u64)
    }
}

/// Computes a rescaled template dimension.
fn scaled_dim(dim: usize, scale: u64) -> (r: usize)
    requires
        dim <= MAX_IMAGE_DIM,
        scale <= MAX_SCALE_FACTOR,
    ensures
        r == spec_scaled_dim(dim as int, scale as int),
        r <= 0x1_0000_0000,
{
    proof {
        assert((dim as int) * (scale as int) <= 65536 * 16000) by (nonlinear_arith)
            requires
                0 <= dim <= 65536,
                0 <= scale <= 16000,
        ;
        vstd::arithmetic::div_mod::lemma_div_pos_is_pos(
            (dim as int) * (scale as int),
            SCALE_DENOM as int,
        );
        vstd::arithmetic::div_mod::lemma_div_is_ordered(
            (dim as int) * (scale as int),
            65536int * 16000,
            SCALE_DENOM as int,
        );
    }
    (((dim as u64) * scale) / SCALE_DENOM) as usize
}

/// Whether `mt` has the footprint of the template rescaled by the factor
/// sampled at `step`, anchored inside the target.
pub open spec fn match_at_scale(
    t: ImageView,
    g: ImageView,
    min_scale: u64,
    max_scale: u64,
    scale_steps: int,
    mt: Match,
    step: int,
) -> bool {
    let sc = spec_scale_at(min_scale, max_scale, scale_steps, step);
    let nw = spec_scaled_dim(t.width as int, sc);
    let nh = spec_scaled_dim(t.height as int, sc);
    &&& 1 <= nw <= g.width
    &&& 1 <= nh <= g.height
    &&& mt.bottom_right_x == mt.top_left_x + nw
    &&& mt.bottom_right_y == mt.top_left_y + nh
    &&& mt.bottom_right_x <= g.width
    &&& mt.bottom_right_y <= g.height
}

/// The match has the footprint of the template at one of the
/// `scale_steps + 1` sampled scales, anchored inside the target.
pub open spec fn match_at_some_scale(
    t: ImageView,
    g: ImageView,
    min_scale: u64,
    max_scale: u64,
    scale_steps: int,
    mt: Match,
) -> bool {
    exists|step: int|
        0 <= step <= scale_steps && match_at_scale(
            t,
            g,
            min_scale,
            max_scale,
            scale_steps,
            mt,
            step,
        )
}

/// Every match in the sequence has the footprint of the template at one
/// of the sampled scales.
pub open spec fn all_matches_at_some_scale(
    t: ImageView,
    g: ImageView,
    min_scale: u64,
    max_scale: u64,
    scale_steps: int,
    s: Seq<Match>,
) -> bool {
    forall|i: int|
        0 <= i < s.len() ==> match_at_some_scale(
            t,
            g,
            min_scale,
            max_scale,
            scale_steps,
            #[trigger] s[i],
        )
}

/// The matches accepted at one sampled scale: the template is rescaled,
/// matched over the target, and greedily extracted; an infeasible scale
/// (zero-size or larger than the target) contributes nothing.
pub open spec fn spec_scale_matches(
    t: ImageView,
    g: ImageView,
    min_scale: u64,
    max_scale: u64,
    scale_steps: int,
    threshold: u32,
    num_matches: nat,
    step: int,
) -> Seq<Match> {
    let sc = spec_scale_at(min_scale, max_scale, scale_steps, step);
    let nw = spec_scaled_dim(t.width as int, sc);
    let nh = spec_scaled_dim(t.height as int, sc);
    if nw < 1 || nh < 1 || nw > g.width || nh > g.height {
        Seq::<Match>::empty()
    } else {
        spec_extract(
            spec_surface(spec_resize(t, nw as nat, nh as nat), g),
            nw,
            nh,
            threshold,
            num_matches,
        )
    }
}

/// The pool of matches from the first `upto` sampled scales, in sampling
/// order.
pub open spec fn spec_pool(
    t: ImageView,
    g: ImageView,
    min_scale: u64,
    max_scale: u64,
    scale_steps: int,
    threshold: u32,
    num_matches: nat,
    upto: nat,
) -> Seq<Match>
    decreases upto,
{
    if upto == 0 {
        Seq::<Match>::empty()
    } else {
        spec_pool(t, g, min_scale, max_scale, scale_steps, threshold, num_matches, (upto - 1) as nat)
            + spec_scale_matches(
            t,
            g,
            min_scale,
            max_scale,
            scale_steps,
            threshold,
            num_matches,
            upto - 1,
        )
    }
}

/// Every pooled match clears the threshold and carries the footprint of
/// the template at one of the sampled scales.
pub proof fn lemma_pool_props(
    t: ImageView,
    g: ImageView,
    min_scale: u64,
    max_scale: u64,
    scale_steps: int,
    threshold: u32,
    num_matches: nat,
    upto: nat,
)
    requires
        t.wf(),
        g.wf(),
        1 <= t.width,
        1 <= t.height,
        1 <= g.width,
        1 <= g.height,
        scale_steps >= 0,
    ensures
        forall|i: int|
            0 <= i < spec_pool(
                t,
                g,
                min_scale,
                max_scale,
                scale_steps,
                threshold,
                num_matches,
                upto,
            ).len() ==> {
                let mt = #[trigger] spec_pool(
                    t,
                    g,
                    min_scale,
                    max_scale,
                    scale_steps,
                    threshold,
                    num_matches,
                    upto,
                )[i];
                &&& mt.confidence >= threshold
                &&& mt.confidence <= crate::matcher::CONFIDENCE_SCALE
                &&& exists|step: int|
                    0 <= step < upto && match_at_scale(
                        t,
                        g,
                        min_scale,
                        max_scale,
                        scale_steps,
                        mt,
                        step,
                    )
            },
    decreases upto,
{
    if upto > 0 {
        lemma_pool_props(
            t,
            g,
            min_scale,
            max_scale,
            scale_steps,
            threshold,
            num_matches,
            (upto - 1) as nat,
        );
        let prev = spec_pool(
            t,
            g,
            min_scale,
            max_scale,
            scale_steps,
            threshold,
            num_matches,
            (upto - 1) as nat,
        );
        let cur = spec_pool(t, g, min_scale, max_scale, scale_steps, threshold, num_matches, upto);
        let step = upto - 1;
        let last = spec_scale_matches(
            t,
            g,
            min_scale,
            max_scale,
            scale_steps,
            threshold,
            num_matches,
            step,
        );
        let sc = spec_scale_at(min_scale, max_scale, scale_steps, step);
        let nw = spec_scaled_dim(t.width as int, sc);
        let nh = spec_scaled_dim(t.height as int, sc);
        if nw < 1 || nh < 1 || nw > g.width || nh > g.height {
        } else {
            let rv = spec_resize(t, nw as nat, nh as nat);
            let sv = spec_surface(rv, g);
            assert(sv.wf());
            lemma_extract_props(sv, nw, nh, threshold, num_matches);
            crate::matcher::lemma_surface_bounds(rv, g);
            assert(sv.data.len() >= 1) by (nonlinear_arith)
                requires
                    sv.data.len() == sv.width * sv.height,
                    sv.width >= 1,
                    sv.height >= 1,
            ;
            crate::suppress::lemma_seq_max(sv.data);
        }
        assert forall|i: int| 0 <= i < cur.len() implies {
            let mt = #[trigger] cur[i];
            &&& mt.confidence >= threshold
            &&& exists|s2: int|
                0 <= s2 < upto && match_at_scale(t, g, min_scale, max_scale, scale_steps, mt, s2)
        } by {
            if i < prev.len() {
                assert(cur[i] == prev[i]);
                let s0 = choose|s0: int|
                    0 <= s0 < upto - 1 && match_at_scale(
                        t,
                        g,
                        min_scale,
                        max_scale,
                        scale_steps,
                        prev[i],
                        s0,
                    );
                assert(match_at_scale(t, g, min_scale, max_scale, scale_steps, cur[i], s0));
            } else {
                assert(cur[i] == last[i - prev.len()]);
                assert(match_at_scale(t, g, min_scale, max_scale, scale_steps, cur[i], step));
            }
        }
    }
}

/// A match accepted at one sampled scale belongs to the pool of every
/// later prefix of the scale grid.
proof fn lemma_pool_contains_scale(
    t: ImageView,
    g: ImageView,
    min_scale: u64,
    max_scale: u64,
    scale_steps: int,
    threshold: u32,
    num_matches: nat,
    step: int,
    upto: nat,
    e: int,
)
    requires
        0 <= step < upto,
        0 <= e < spec_scale_matches(
            t,
            g,
            min_scale,
            max_scale,
            scale_steps,
            threshold,
            num_matches,
            step,
        ).len(),
    ensures
        spec_pool(t, g, min_scale, max_scale, scale_steps, threshold, num_matches, upto).contains(
            spec_scale_matches(t, g, min_scale, max_scale, scale_steps, threshold, num_matches, step)[e],
        ),
    decreases upto,
{
    let sm = spec_scale_matches(t, g, min_scale, max_scale, scale_steps, threshold, num_matches, step);
    let prev = spec_pool(
        t,
        g,
        min_scale,
        max_scale,
        scale_steps,
        threshold,
        num_matches,
        (upto - 1) as nat,
    );
    let cur = spec_pool(t, g, min_scale, max_scale, scale_steps, threshold, num_matches, upto);
    if step == upto - 1 {
        assert(cur[prev.len() + e] == sm[e]);
    } else {
        lemma_pool_contains_scale(
            t,
            g,
            min_scale,
            max_scale,
            scale_steps,
            threshold,
            num_matches,
            step,
            (upto - 1) as nat,
            e,
        );
        let w = choose|w: int| 0 <= w < prev.len() && prev[w] == sm[e];
        assert(cur[w] == sm[e]);
    }
}

/// Scale invariance: when the target holds a verbatim copy of the
/// template rescaled by one of the sampled factors — anchored anywhere,
/// the template not entirely black — detection returns at least one
/// match and its strongest match carries full confidence.
pub proof fn lemma_detect_finds_exact_copy(
    t: ImageView,
    g: ImageView,
    num_matches: nat,
    min_scale: u64,
    max_scale: u64,
    scale_steps: int,
    threshold: u32,
    step: int,
    x: int,
    y: int,
)
    requires
        t.wf(),
        g.wf(),
        1 <= t.width,
        1 <= t.height,
        1 <= g.width,
        1 <= g.height,
        num_matches >= 1,
        threshold <= crate::matcher::CONFIDENCE_SCALE,
        0 <= step <= scale_steps,
        ({
            let sc = spec_scale_at(min_scale, max_scale, scale_steps, step);
            let nw = spec_scaled_dim(t.width as int, sc);
            let nh = spec_scaled_dim(t.height as int, sc);
            let rv = spec_resize(t, nw as nat, nh as nat);
            &&& 1 <= nw <= g.width
            &&& 1 <= nh <= g.height
            &&& 0 <= x <= g.width - nw
            &&& 0 <= y <= g.height - nh
            &&& crate::matcher::window_equals(rv, g, x, y)
            &&& crate::matcher::spec_den_t(rv) > 0
        }),
    ensures
        spec_detect(t, g, num_matches, min_scale, max_scale, scale_steps, threshold).len() >= 1,
        spec_detect(t, g, num_matches, min_scale, max_scale, scale_steps, threshold)[0].confidence
            == crate::matcher::CONFIDENCE_SCALE,
{
    let sc = spec_scale_at(min_scale, max_scale, scale_steps, step);
    let nw = spec_scaled_dim(t.width as int, sc);
    let nh = spec_scaled_dim(t.height as int, sc);
    let rv = spec_resize(t, nw as nat, nh as nat);
    let sv = spec_surface(rv, g);
    assert(rv.wf());
    assert(sv.wf());
    crate::matcher::lemma_exact_copy_in_surface(rv, g, x, y);
    crate::matcher::lemma_surface_bounds(rv, g);
    assert(sv.data.len() >= 1) by (nonlinear_arith)
        requires
            sv.data.len() == sv.width * sv.height,
            sv.width >= 1,
            sv.height >= 1,
    ;
    crate::suppress::lemma_seq_max(sv.data);
    let sw = g.width - rv.width + 1;
    let idx = y * sw + x;
    assert(sv.data[idx] <= crate::suppress::seq_max(sv.data));
    assert(crate::suppress::seq_max(sv.data) == sv.data[crate::suppress::first_max_idx(sv.data)]);
    assert(crate::suppress::seq_max(sv.data) == crate::matcher::CONFIDENCE_SCALE);
    crate::suppress::lemma_extract_takes_peak(sv, nw, nh, threshold, num_matches);
    let sm = spec_scale_matches(t, g, min_scale, max_scale, scale_steps, threshold, num_matches, step);
    assert(sm.len() >= 1 && sm[0].confidence == crate::matcher::CONFIDENCE_SCALE);
    lemma_pool_contains_scale(
        t,
        g,
        min_scale,
        max_scale,
        scale_steps,
        threshold,
        num_matches,
        step,
        (scale_steps + 1) as nat,
        0,
    );
    let pool = spec_pool(
        t,
        g,
        min_scale,
        max_scale,
        scale_steps,
        threshold,
        num_matches,
        (scale_steps + 1) as nat,
    );
    lemma_pool_props(
        t,
        g,
        min_scale,
        max_scale,
        scale_steps,
        threshold,
        num_matches,
        (scale_steps + 1) as nat,
    );
    lemma_sort_desc_props(pool);
    let srt = spec_sort_desc(pool);
    assert(srt.contains(sm[0]));
    let j = choose|j: int| 0 <= j < srt.len() && srt[j] == sm[0];
    assert(srt[0].confidence >= srt[j].confidence);
    assert(pool.contains(srt[0]));
    let w0 = choose|w0: int| 0 <= w0 < pool.len() && pool[w0] == srt[0];
    assert(pool[w0].confidence <= crate::matcher::CONFIDENCE_SCALE);
    let r = spec_detect(t, g, num_matches, min_scale, max_scale, scale_steps, threshold);
    assert(r[0] == srt[0]);
}

/// The similarity surface the detector builds at one sampled scale.
pub open spec fn spec_scale_surface(
    t: ImageView,
    g: ImageView,
    min_scale: u64,
    max_scale: u64,
    scale_steps: int,
    step: int,
) -> crate::matcher::SurfaceView {
    let sc = spec_scale_at(min_scale, max_scale, scale_steps, step);
    let nw = spec_scaled_dim(t.width as int, sc);
    let nh = spec_scaled_dim(t.height as int, sc);
    spec_surface(spec_resize(t, nw as nat, nh as nat), g)
}

/// Whether the scale sampled at `step` is searched at all: the rescaled
/// template is non-empty and fits inside the target.
pub open spec fn spec_scale_feasible(
    t: ImageView,
    g: ImageView,
    min_scale: u64,
    max_scale: u64,
    scale_steps: int,
    step: int,
) -> bool {
    let sc = spec_scale_at(min_scale, max_scale, scale_steps, step);
    let nw = spec_scaled_dim(t.width as int, sc);
    let nh = spec_scaled_dim(t.height as int, sc);
    &&& 1 <= nw <= g.width
    &&& 1 <= nh <= g.height
}

/// The cell `idx` of the surface at `step` is the only position, over
/// every feasible sampled scale, whose confidence reaches full scale.
/// This is what "an otherwise-blank canvas" buys: rules out ties, such
/// as a uniform template matching itself at every offset.
pub open spec fn sole_full_confidence_cell(
    t: ImageView,
    g: ImageView,
    min_scale: u64,
    max_scale: u64,
    scale_steps: int,
    step: int,
    idx: int,
) -> bool {
    forall|st: int, i: int|
        0 <= st <= scale_steps && spec_scale_feasible(t, g, min_scale, max_scale, scale_steps, st)
            && 0 <= i < spec_scale_surface(t, g, min_scale, max_scale, scale_steps, st).data.len()
            && !(st == step && i == idx) ==> #[trigger] spec_scale_surface(
            t,
            g,
            min_scale,
            max_scale,
            scale_steps,
            st,
        ).data[i] < crate::matcher::CONFIDENCE_SCALE
}

/// Every pooled match of full confidence is the planted one: anchored at
/// the sole full-confidence cell, with the footprint of that scale.
proof fn lemma_pool_full_conf_is_planted(
    t: ImageView,
    g: ImageView,
    min_scale: u64,
    max_scale: u64,
    scale_steps: int,
    threshold: u32,
    num_matches: nat,
    step: int,
    idx: int,
    upto: nat,
)
    requires
        t.wf(),
        g.wf(),
        1 <= t.width,
        1 <= t.height,
        1 <= g.width,
        1 <= g.height,
        scale_steps >= 0,
        upto <= scale_steps + 1,
        0 <= step <= scale_steps,
        spec_scale_feasible(t, g, min_scale, max_scale, scale_steps, step),
        sole_full_confidence_cell(t, g, min_scale, max_scale, scale_steps, step, idx),
        0 <= idx < spec_scale_surface(t, g, min_scale, max_scale, scale_steps, step).data.len(),
    ensures
        ({
            let sc = spec_scale_at(min_scale, max_scale, scale_steps, step);
            let nw = spec_scaled_dim(t.width as int, sc);
            let nh = spec_scaled_dim(t.height as int, sc);
            let sw = g.width - nw + 1;
            let pool = spec_pool(
                t,
                g,
                min_scale,
                max_scale,
                scale_steps,
                threshold,
                num_matches,
                upto,
            );
            forall|i: int|
                0 <= i < pool.len() && (#[trigger] pool[i]).confidence
                    == crate::matcher::CONFIDENCE_SCALE ==> pool[i] == (Match {
                    top_left_x: (idx % sw) as usize,
                    top_left_y: (idx / sw) as usize,
                    bottom_right_x: (idx % sw + nw) as usize,
                    bottom_right_y: (idx / sw + nh) as usize,
                    confidence: crate::matcher::CONFIDENCE_SCALE,
                })
        }),
    decreases upto,
{
    if upto > 0 {
        lemma_pool_full_conf_is_planted(
            t,
            g,
            min_scale,
            max_scale,
            scale_steps,
            threshold,
            num_matches,
            step,
            idx,
            (upto - 1) as nat,
        );
        let sc = spec_scale_at(min_scale, max_scale, scale_steps, step);
        let nw = spec_scaled_dim(t.width as int, sc);
        let nh = spec_scaled_dim(t.height as int, sc);
        let sw = g.width - nw + 1;
        let planted = Match {
            top_left_x: (idx % sw) as usize,
            top_left_y: (idx / sw) as usize,
            bottom_right_x: (idx % sw + nw) as usize,
            bottom_right_y: (idx / sw + nh) as usize,
            confidence: crate::matcher::CONFIDENCE_SCALE,
        };
        let prev = spec_pool(
            t,
            g,
            min_scale,
            max_scale,
            scale_steps,
            threshold,
            num_matches,
            (upto - 1) as nat,
        );
        let cur = spec_pool(t, g, min_scale, max_scale, scale_steps, threshold, num_matches, upto);
        let st = upto - 1;
        let sc2 = spec_scale_at(min_scale, max_scale, scale_steps, st);
        let nw2 = spec_scaled_dim(t.width as int, sc2);
        let nh2 = spec_scaled_dim(t.height as int, sc2);
        let sm = spec_scale_matches(
            t,
            g,
            min_scale,
            max_scale,
            scale_steps,
            threshold,
            num_matches,
            st,
        );
        if nw2 < 1 || nh2 < 1 || nw2 > g.width || nh2 > g.height {
        } else {
            let rv = spec_resize(t, nw2 as nat, nh2 as nat);
            let sv = spec_surface(rv, g);
            assert(sv == spec_scale_surface(t, g, min_scale, max_scale, scale_steps, st));
            assert(sv.wf());
            crate::suppress::lemma_extract_anchor_value(sv, nw2, nh2, threshold, num_matches);
            lemma_extract_props(sv, nw2, nh2, threshold, num_matches);
            crate::matcher::lemma_surface_bounds(rv, g);
            assert forall|j: int|
                0 <= j < sm.len() && (#[trigger] sm[j]).confidence
                    == crate::matcher::CONFIDENCE_SCALE implies sm[j] == planted by {
                let mt = sm[j];
                let anchor = mt.top_left_y * sv.width + mt.top_left_x;
                crate::image::lemma_grid_index(
                    sv.width as int,
                    sv.height as int,
                    mt.top_left_x as int,
                    mt.top_left_y as int,
                );
                assert(sv.data[anchor] >= mt.confidence);
                assert(sv.data[anchor] <= crate::matcher::CONFIDENCE_SCALE);
                assert(st == step && anchor == idx);
                crate::image::lemma_grid_index(
                    sw as int,
                    (g.height - nh + 1) as int,
                    idx % (sw as int),
                    idx / (sw as int),
                );
            }
        }
        assert forall|i: int|
            0 <= i < cur.len() && (#[trigger] cur[i]).confidence
                == crate::matcher::CONFIDENCE_SCALE implies cur[i] == planted by {
            if i < prev.len() {
                assert(cur[i] == prev[i]);
            } else {
                assert(cur[i] == sm[i - prev.len()]);
            }
        }
    }
}

/// Scale invariance, sharpened: when the planted rescaled copy is the
/// sole position at any sampled scale that reaches full confidence —
/// the otherwise-blank-canvas setting — the detector's top match is
/// exactly the planted copy's footprint: anchored at `(x, y)`, sized
/// `(nw, nh)` for that scale, at full confidence.
pub proof fn lemma_detect_top_match_is_planted_copy(
    t: ImageView,
    g: ImageView,
    num_matches: nat,
    min_scale: u64,
    max_scale: u64,
    scale_steps: int,
    threshold: u32,
    step: int,
    x: int,
    y: int,
)
    requires
        t.wf(),
        g.wf(),
        1 <= t.width,
        1 <= t.height,
        1 <= g.width,
        1 <= g.height,
        num_matches >= 1,
        threshold <= crate::matcher::CONFIDENCE_SCALE,
        0 <= step <= scale_steps,
        ({
            let sc = spec_scale_at(min_scale, max_scale, scale_steps, step);
            let nw = spec_scaled_dim(t.width as int, sc);
            let nh = spec_scaled_dim(t.height as int, sc);
            let rv = spec_resize(t, nw as nat, nh as nat);
            let sw = g.width - nw + 1;
            &&& 1 <= nw <= g.width
            &&& 1 <= nh <= g.height
            &&& 0 <= x <= g.width - nw
            &&& 0 <= y <= g.height - nh
            &&& crate::matcher::window_equals(rv, g, x, y)
            &&& crate::matcher::spec_den_t(rv) > 0
            &&& sole_full_confidence_cell(
                t,
                g,
                min_scale,
                max_scale,
                scale_steps,
                step,
                y * sw + x,
            )
        }),
    ensures
        ({
            let sc = spec_scale_at(min_scale, max_scale, scale_steps, step);
            let nw = spec_scaled_dim(t.width as int, sc);
            let nh = spec_scaled_dim(t.height as int, sc);
            let r = spec_detect(t, g, num_matches, min_scale, max_scale, scale_steps, threshold);
            &&& r.len() >= 1
            &&& r[0] == (Match {
                top_left_x: x as usize,
                top_left_y: y as usize,
                bottom_right_x: (x + nw) as usize,
                bottom_right_y: (y + nh) as usize,
                confidence: crate::matcher::CONFIDENCE_SCALE,
            })
        }),
{
    lemma_detect_finds_exact_copy(
        t,
        g,
        num_matches,
        min_scale,
        max_scale,
        scale_steps,
        threshold,
        step,
        x,
        y,
    );
    let sc = spec_scale_at(min_scale, max_scale, scale_steps, step);
    let nw = spec_scaled_dim(t.width as int, sc);
    let nh = spec_scaled_dim(t.height as int, sc);
    let rv = spec_resize(t, nw as nat, nh as nat);
    let sw = g.width - nw + 1;
    let sh = g.height - nh + 1;
    let idx = y * (sw as int) + x;
    assert(spec_scale_surface(t, g, min_scale, max_scale, scale_steps, step) == spec_surface(
        rv,
        g,
    ));
    crate::image::lemma_grid_index(sw as int, sh as int, x, y);
    assert(spec_surface(rv, g).data.len() == (sw as int) * (sh as int));
    let pool = spec_pool(
        t,
        g,
        min_scale,
        max_scale,
        scale_steps,
        threshold,
        num_matches,
        (scale_steps + 1) as nat,
    );
    lemma_pool_full_conf_is_planted(
        t,
        g,
        min_scale,
        max_scale,
        scale_steps,
        threshold,
        num_matches,
        step,
        idx,
        (scale_steps + 1) as nat,
    );
    lemma_sort_desc_props(pool);
    let srt = spec_sort_desc(pool);
    let r = spec_detect(t, g, num_matches, min_scale, max_scale, scale_steps, threshold);
    assert(r[0] == srt[0]);
    assert(pool.contains(srt[0]));
    let w = choose|w: int| 0 <= w < pool.len() && pool[w] == srt[0];
    assert(pool[w].confidence == crate::matcher::CONFIDENCE_SCALE);
    assert(idx % (sw as int) == x && idx / (sw as int) == y);
}

/// With every other sampled scale below the threshold, the pool holds
/// the active scale's matches and nothing else.
proof fn lemma_pool_single_active_scale(
    t: ImageView,
    g: ImageView,
    min_scale: u64,
    max_scale: u64,
    scale_steps: int,
    threshold: u32,
    num_matches: nat,
    step: int,
    upto: nat,
)
    requires
        t.wf(),
        g.wf(),
        1 <= t.width,
        1 <= t.height,
        1 <= g.width,
        1 <= g.height,
        scale_steps >= 0,
        upto <= scale_steps + 1,
        0 <= step <= scale_steps,
        forall|st: int, i: int|
            0 <= st <= scale_steps && st != step && spec_scale_feasible(
                t,
                g,
                min_scale,
                max_scale,
                scale_steps,
                st,
            ) && 0 <= i < spec_scale_surface(t, g, min_scale, max_scale, scale_steps, st).data.len()
                ==> #[trigger] spec_scale_surface(
                t,
                g,
                min_scale,
                max_scale,
                scale_steps,
                st,
            ).data[i] < threshold,
    ensures
        spec_pool(t, g, min_scale, max_scale, scale_steps, threshold, num_matches, upto) == (
        if step < upto {
            spec_scale_matches(
                t,
                g,
                min_scale,
                max_scale,
                scale_steps,
                threshold,
                num_matches,
                step,
            )
        } else {
            Seq::<Match>::empty()
        }),
    decreases upto,
{
    if upto > 0 {
        lemma_pool_single_active_scale(
            t,
            g,
            min_scale,
            max_scale,
            scale_steps,
            threshold,
            num_matches,
            step,
            (upto - 1) as nat,
        );
        let st = upto - 1;
        let sm_st = spec_scale_matches(
            t,
            g,
            min_scale,
            max_scale,
            scale_steps,
            threshold,
            num_matches,
            st,
        );
        let prev = spec_pool(
            t,
            g,
            min_scale,
            max_scale,
            scale_steps,
            threshold,
            num_matches,
            (upto - 1) as nat,
        );
        let cur = spec_pool(t, g, min_scale, max_scale, scale_steps, threshold, num_matches, upto);
        if st == step {
            assert(cur =~= prev + sm_st);
            assert(cur =~= sm_st);
        } else {
            let sc = spec_scale_at(min_scale, max_scale, scale_steps, st);
            let nw = spec_scaled_dim(t.width as int, sc);
            let nh = spec_scaled_dim(t.height as int, sc);
            if 1 <= nw <= g.width && 1 <= nh <= g.height {
                let sv = spec_scale_surface(t, g, min_scale, max_scale, scale_steps, st);
                assert(sv == spec_surface(spec_resize(t, nw as nat, nh as nat), g));
                assert(sv.wf());
                assert(sv.data.len() >= 1) by (nonlinear_arith)
                    requires
                        sv.data.len() == sv.width * sv.height,
                        sv.width >= 1,
                        sv.height >= 1,
                ;
                crate::suppress::lemma_seq_max(sv.data);
                assert(spec_scale_feasible(t, g, min_scale, max_scale, scale_steps, st));
                assert(crate::suppress::seq_max(sv.data)
                    == sv.data[crate::suppress::first_max_idx(sv.data)]);
                assert(crate::suppress::seq_max(sv.data) < threshold);
                assert(sm_st =~= Seq::<Match>::empty());
            } else {
                assert(sm_st =~= Seq::<Match>::empty());
            }
            assert(cur =~= prev);
        }
    }
}

/// Exactly one detection per well-separated instance. When the cells at
/// or above the threshold on one sampled scale's surface are exactly a
/// finite set `hot`, pairwise outside each other's suppression
/// rectangles; every other sampled scale stays below the threshold; and
/// the requested count covers them — then detection returns exactly
/// `hot.len()` matches, each anchored at a hot cell, and every hot cell
/// is claimed by some match.
pub proof fn lemma_detect_one_match_per_instance(
    t: ImageView,
    g: ImageView,
    num_matches: nat,
    min_scale: u64,
    max_scale: u64,
    scale_steps: int,
    threshold: u32,
    step: int,
    hot: Set<int>,
)
    requires
        t.wf(),
        g.wf(),
        1 <= t.width,
        1 <= t.height,
        1 <= g.width,
        1 <= g.height,
        scale_steps >= 0,
        0 <= step <= scale_steps,
        threshold >= 1,
        hot.finite(),
        num_matches >= hot.len(),
        spec_scale_feasible(t, g, min_scale, max_scale, scale_steps, step),
        forall|i: int|
            #[trigger] hot.contains(i) ==> 0 <= i < spec_scale_surface(
                t,
                g,
                min_scale,
                max_scale,
                scale_steps,
                step,
            ).data.len(),
        forall|i: int|
            0 <= i < spec_scale_surface(t, g, min_scale, max_scale, scale_steps, step).data.len()
                ==> ((spec_scale_surface(
                t,
                g,
                min_scale,
                max_scale,
                scale_steps,
                step,
            ).data[i] >= threshold) <==> #[trigger] hot.contains(i)),
        forall|a: int, b: int|
            #[trigger] hot.contains(a) && #[trigger] hot.contains(b) && a != b ==> {
                let sv = spec_scale_surface(t, g, min_scale, max_scale, scale_steps, step);
                let sc = spec_scale_at(min_scale, max_scale, scale_steps, step);
                let nw = spec_scaled_dim(t.width as int, sc);
                let nh = spec_scaled_dim(t.height as int, sc);
                let rect = crate::suppress::spec_rect(
                    sv,
                    a % (sv.width as int),
                    a / (sv.width as int),
                    nw,
                    nh,
                );
                !(rect.0 <= b % (sv.width as int) < rect.2 && rect.1 <= b / (sv.width as int)
                    < rect.3)
            },
        forall|st: int, i: int|
            0 <= st <= scale_steps && st != step && spec_scale_feasible(
                t,
                g,
                min_scale,
                max_scale,
                scale_steps,
                st,
            ) && 0 <= i < spec_scale_surface(t, g, min_scale, max_scale, scale_steps, st).data.len()
                ==> #[trigger] spec_scale_surface(
                t,
                g,
                min_scale,
                max_scale,
                scale_steps,
                st,
            ).data[i] < threshold,
    ensures
        ({
            let r = spec_detect(t, g, num_matches, min_scale, max_scale, scale_steps, threshold);
            let sv = spec_scale_surface(t, g, min_scale, max_scale, scale_steps, step);
            &&& r.len() == hot.len()
            &&& forall|j: int|
                0 <= j < r.len() ==> hot.contains(
                    crate::suppress::anchor_of(sv, #[trigger] r[j]),
                )
            &&& forall|c: int|
                #[trigger] hot.contains(c) ==> exists|j: int|
                    0 <= j < r.len() && crate::suppress::anchor_of(sv, r[j]) == c
        }),
{
    let sv = spec_scale_surface(t, g, min_scale, max_scale, scale_steps, step);
    let sc = spec_scale_at(min_scale, max_scale, scale_steps, step);
    let nw = spec_scaled_dim(t.width as int, sc);
    let nh = spec_scaled_dim(t.height as int, sc);
    assert(sv == spec_surface(spec_resize(t, nw as nat, nh as nat), g));
    assert(sv.wf());
    crate::suppress::lemma_extract_one_per_instance(sv, nw, nh, threshold, num_matches, hot);
    let sm = spec_scale_matches(
        t,
        g,
        min_scale,
        max_scale,
        scale_steps,
        threshold,
        num_matches,
        step,
    );
    assert(sm == spec_extract(sv, nw, nh, threshold, num_matches));
    lemma_pool_single_active_scale(
        t,
        g,
        min_scale,
        max_scale,
        scale_steps,
        threshold,
        num_matches,
        step,
        (scale_steps + 1) as nat,
    );
    let pool = spec_pool(
        t,
        g,
        min_scale,
        max_scale,
        scale_steps,
        threshold,
        num_matches,
        (scale_steps + 1) as nat,
    );
    assert(pool == sm);
    lemma_sort_desc_props(pool);
    let srt = spec_sort_desc(pool);
    let r = spec_detect(t, g, num_matches, min_scale, max_scale, scale_steps, threshold);
    assert(srt.len() == hot.len());
    assert(r == srt);
    assert forall|j: int|
        0 <= j < r.len() implies hot.contains(
        crate::suppress::anchor_of(sv, #[trigger] r[j]),
    ) by {
        assert(pool.contains(srt[j]));
        let w = choose|w: int| 0 <= w < pool.len() && pool[w] == srt[j];
        assert(sm[w] == r[j]);
        assert(hot.contains(crate::suppress::anchor_of(sv, sm[w])));
    }
    assert forall|c: int| #[trigger] hot.contains(c) implies exists|j: int|
        0 <= j < r.len() && crate::suppress::anchor_of(sv, r[j]) == c by {
        let j0 = choose|j0: int|
            0 <= j0 < spec_extract(sv, nw, nh, threshold, num_matches).len()
                && crate::suppress::anchor_of(
                sv,
                spec_extract(sv, nw, nh, threshold, num_matches)[j0],
            ) == c;
        assert(pool[j0] == sm[j0]);
        assert(pool.contains(sm[j0]));
        assert(srt.contains(sm[j0]));
        let j1 = choose|j1: int| 0 <= j1 < srt.len() && srt[j1] == sm[j0];
        assert(crate::suppress::anchor_of(sv, r[j1]) == c);
    }
}

/// Descending order by confidence.
pub open spec fn sorted_desc(s: Seq<Match>) -> bool {
    forall|i: int, j: int| 0 <= i < j < s.len() ==> s[i].confidence >= s[j].confidence
}

/// Inserts a match into a descending sequence, after every element of
/// equal or higher confidence (so equal confidences keep their order).
pub open spec fn spec_insert_desc(s: Seq<Match>, m: Match) -> Seq<Match>
    decreases s.len(),
{
    if s.len() == 0 {
        seq![m]
    } else if s[0].confidence >= m.confidence {
        seq![s[0]] + spec_insert_desc(s.drop_first(), m)
    } else {
        seq![m] + s
    }
}

/// The stable descending sort by confidence: elements are inserted in
/// their original order, each after all existing ties.
pub open spec fn spec_sort_desc(s: Seq<Match>) -> Seq<Match>
    decreases s.len(),
{
    if s.len() == 0 {
        Seq::<Match>::empty()
    } else {
        spec_insert_desc(spec_sort_desc(s.drop_last()), s.last())
    }
}

proof fn lemma_insert_desc_props(s: Seq<Match>, m: Match)
    requires
        sorted_desc(s),
    ensures
        spec_insert_desc(s, m).len() == s.len() + 1,
        sorted_desc(spec_insert_desc(s, m)),
        forall|i: int|
            0 <= i < spec_insert_desc(s, m).len() ==> (#[trigger] spec_insert_desc(s, m)[i]) == m
                || s.contains(spec_insert_desc(s, m)[i]),
        spec_insert_desc(s, m).contains(m),
        forall|z: Match| s.contains(z) ==> #[trigger] spec_insert_desc(s, m).contains(z),
    decreases s.len(),
{
    let r = spec_insert_desc(s, m);
    if s.len() == 0 {
        assert(r[0] == m);
    } else if s[0].confidence >= m.confidence {
        let tail = s.drop_first();
        assert(sorted_desc(tail)) by {
            assert(forall|i: int| 0 <= i < tail.len() ==> tail[i] == s[i + 1]);
        }
        lemma_insert_desc_props(tail, m);
        let rt = spec_insert_desc(tail, m);
        assert(r == seq![s[0]] + rt);
        assert(forall|i: int| 1 <= i < r.len() ==> r[i] == rt[i - 1]);
        assert forall|i: int, j: int|
            0 <= i < j < r.len() implies r[i].confidence >= r[j].confidence by {
            if i == 0 {
                if rt[j - 1] == m {
                } else {
                    assert(tail.contains(rt[j - 1]));
                    let w = choose|w: int| 0 <= w < tail.len() && tail[w] == rt[j - 1];
                    assert(s[w + 1] == rt[j - 1]);
                }
            }
        }
        assert forall|i: int|
            0 <= i < r.len() implies (#[trigger] r[i]) == m || s.contains(r[i]) by {
            if i == 0 {
                assert(s[0] == r[0]);
            } else if rt[i - 1] != m {
                assert(tail.contains(rt[i - 1]));
                let w = choose|w: int| 0 <= w < tail.len() && tail[w] == rt[i - 1];
                assert(s[w + 1] == r[i]);
            }
        }
        assert(rt.contains(m));
        let wm = choose|wm: int| 0 <= wm < rt.len() && rt[wm] == m;
        assert(r[wm + 1] == m);
        assert(r.contains(m));
        assert forall|z: Match| s.contains(z) implies #[trigger] r.contains(z) by {
            let v = choose|v: int| 0 <= v < s.len() && s[v] == z;
            if v == 0 {
                assert(r[0] == z);
            } else {
                assert(tail[v - 1] == z);
                assert(tail.contains(z));
                assert(rt.contains(z));
                let w2 = choose|w2: int| 0 <= w2 < rt.len() && rt[w2] == z;
                assert(r[w2 + 1] == z);
            }
        }
    } else {
        assert(forall|i: int| 1 <= i < r.len() ==> r[i] == s[i - 1]);
        assert forall|i: int|
            0 <= i < r.len() implies (#[trigger] r[i]) == m || s.contains(r[i]) by {
            if i >= 1 {
                assert(s[i - 1] == r[i]);
            }
        }
        assert(r[0] == m);
        assert forall|z: Match| s.contains(z) implies #[trigger] r.contains(z) by {
            let v = choose|v: int| 0 <= v < s.len() && s[v] == z;
            assert(r[v + 1] == z);
        }
    }
}

proof fn lemma_sort_desc_props(s: Seq<Match>)
    ensures
        spec_sort_desc(s).len() == s.len(),
        sorted_desc(spec_sort_desc(s)),
        forall|i: int|
            0 <= i < spec_sort_desc(s).len() ==> s.contains(#[trigger] spec_sort_desc(s)[i]),
        forall|z: Match| s.contains(z) ==> #[trigger] spec_sort_desc(s).contains(z),
    decreases s.len(),
{
    if s.len() > 0 {
        let head = s.drop_last();
        lemma_sort_desc_props(head);
        lemma_insert_desc_props(spec_sort_desc(head), s.last());
        let r = spec_sort_desc(s);
        assert forall|i: int| 0 <= i < r.len() implies s.contains(#[trigger] r[i]) by {
            if r[i] == s.last() {
                assert(s[s.len() - 1] == r[i]);
            } else {
                assert(spec_sort_desc(head).contains(r[i]));
                let w = choose|w: int|
                    0 <= w < spec_sort_desc(head).len() && spec_sort_desc(head)[w] == r[i];
                assert(head.contains(spec_sort_desc(head)[w]));
                let v = choose|v: int| 0 <= v < head.len() && head[v] == r[i];
                assert(s[v] == r[i]);
            }
        }
        assert forall|z: Match| s.contains(z) implies #[trigger] r.contains(z) by {
            let v = choose|v: int| 0 <= v < s.len() && s[v] == z;
            if v == s.len() - 1 {
                assert(r.contains(s.last()));
            } else {
                assert(head[v] == z);
                assert(head.contains(z));
                assert(spec_sort_desc(head).contains(z));
            }
        }
    }
}

/// When the scan stops at the first position of strictly lower
/// confidence, inserting there is the stable descending insertion.
proof fn lemma_insert_desc_at(s: Seq<Match>, m: Match, p: int)
    requires
        sorted_desc(s),
        0 <= p <= s.len(),
        forall|q: int| 0 <= q < p ==> s[q].confidence >= m.confidence,
        p < s.len() ==> s[p].confidence < m.confidence,
    ensures
        spec_insert_desc(s, m) == s.insert(p, m),
    decreases s.len(),
{
    if s.len() == 0 {
        assert(spec_insert_desc(s, m) =~= s.insert(0, m));
    } else if p == 0 {
        assert(s[0].confidence < m.confidence);
        assert(spec_insert_desc(s, m) =~= s.insert(0, m));
    } else {
        let tail = s.drop_first();
        assert(sorted_desc(tail)) by {
            assert(forall|i: int| 0 <= i < tail.len() ==> tail[i] == s[i + 1]);
        }
        assert(forall|q: int| 0 <= q < p - 1 ==> tail[q].confidence >= m.confidence) by {
            assert(forall|i: int| 0 <= i < tail.len() ==> tail[i] == s[i + 1]);
        }
        assert(p - 1 < tail.len() ==> tail[p - 1].confidence < m.confidence);
        lemma_insert_desc_at(tail, m, p - 1);
        assert(spec_insert_desc(s, m) =~= s.insert(p, m)) by {
            assert(spec_insert_desc(s, m) == seq![s[0]] + spec_insert_desc(tail, m));
            assert(spec_insert_desc(tail, m) == tail.insert(p - 1, m));
        }
    }
}

/// Sorts matches by descending confidence with a stable insertion sort.
fn sort_matches_desc(v: &Vec<Match>) -> (r: Vec<Match>)
    ensures
        r@ == spec_sort_desc(v@),
        sorted_desc(r@),
        r@.len() == v@.len(),
        forall|i: int| 0 <= i < r@.len() ==> v@.contains(#[trigger] r@[i]),
{
    proof {
        lemma_sort_desc_props(v@);
    }
    let n = v.len();
    let mut out: Vec<Match> = Vec::new();
    let mut i: usize = 0;
    proof {
        assert(v@.take(0) =~= Seq::<Match>::empty());
    }
    while i < n
        invariant
            n == v@.len(),
            0 <= i <= n,
            out@ == spec_sort_desc(v@.take(i as int)),
            sorted_desc(out@),
            out@.len() == i,
        decreases n - i,
    {
        let m = v[i];
        let mut p: usize = 0;
        while p < out.len() && out[p].confidence >= m.confidence
            invariant
                0 <= p <= out@.len(),
                forall|q: int| 0 <= q < p ==> (#[trigger] out@[q]).confidence >= m.confidence,
            decreases out@.len() - p,
        {
            p = p + 1;
        }
        let ghost pre = out@;
        out.insert(p, m);
        proof {
            lemma_insert_desc_at(pre, m, p as int);
            lemma_insert_desc_props(pre, m);
            assert(v@.take(i as int + 1).drop_last() =~= v@.take(i as int));
            assert(v@.take(i as int + 1).last() == v@[i as int]);
            assert(out@ == spec_insert_desc(pre, m));
            assert(out@ == spec_sort_desc(v@.take(i as int + 1)));
        }
        i = i + 1;
    }
    proof {
        assert(v@.take(n as int) =~= v@);
        lemma_sort_desc_props(v@);
    }
    out
}

/// The full detection result: the pooled matches of every sampled scale,
/// sorted by descending confidence (stable on ties) and truncated to
/// `num_matches`.
pub open spec fn spec_detect(
    t: ImageView,
    g: ImageView,
    num_matches: nat,
    min_scale: u64,
    max_scale: u64,
    scale_steps: int,
    threshold: u32,
) -> Seq<Match> {
    let sorted = spec_sort_desc(
        spec_pool(
            t,
            g,
            min_scale,
            max_scale,
            scale_steps,
            threshold,
            num_matches,
            (scale_steps + 1) as nat,
        ),
    );
    if sorted.len() > num_matches {
        sorted.take(num_matches as int)
    } else {
        sorted
    }
}

/// Finds up to `num_matches` instances of `needle` in `haystack`,
/// sampling `scale_steps + 1` scale factors from `min_scale` to
/// `max_scale` (fixed-point thousandths) and keeping only matches whose
/// confidence is at least `threshold` (fixed-point thousandths).
///
/// The result is exactly [`spec_detect`]; in particular it never holds
/// more than `num_matches` matches, none below the threshold, in
/// non-increasing confidence order, each with the footprint of the
/// template at one of the sampled scales. A zero-sized needle or
/// haystack is rejected, never searched.
pub fn detect_needle_in_haystack(
    needle: &Image,
    haystack: &Image,
    num_matches: usize,
    min_scale: u64,
    max_scale: u64,
    scale_steps: usize,
    threshold: u32,
) -> (r: Result<Vec<Match>, DetectError>)
    requires
        needle@.wf(),
        haystack@.wf(),
        min_scale <= max_scale,
        max_scale <= MAX_SCALE_FACTOR,
        scale_steps <= MAX_SCALE_STEPS,
    ensures
        r is Err <==> (needle@.width == 0 || needle@.height == 0 || haystack@.width == 0
            || haystack@.height == 0),
        r is Err ==> r == Result::<Vec<Match>, DetectError>::Err(DetectError::EmptyImage),
        r matches Ok(v) ==> {
            &&& v@ == spec_detect(
                needle@,
                haystack@,
                num_matches as nat,
                min_scale,
                max_scale,
                scale_steps as int,
                threshold,
            )
            &&& v@.len() <= num_matches
            &&& forall|i: int| 0 <= i < v@.len() ==> (#[trigger] v@[i]).confidence >= threshold
            &&& sorted_desc(v@)
            &&& all_matches_at_some_scale(
                needle@,
                haystack@,
                min_scale,
                max_scale,
                scale_steps as int,
                v@,
            )
        },
{
    if needle.width == 0 || needle.height == 0 || haystack.width == 0 || haystack.height == 0 {
        return Err(DetectError::EmptyImage);
    }
    let ghost t = needle@;
    let ghost g = haystack@;
    let mut pooled: Vec<Match> = Vec::new();
    let mut step: usize = 0;
    while step <= scale_steps
        invariant
            needle@ == t,
            haystack@ == g,
            t.wf(),
            g.wf(),
            1 <= t.width,
            1 <= t.height,
            1 <= g.width,
            1 <= g.height,
            min_scale <= max_scale <= MAX_SCALE_FACTOR,
            scale_steps <= MAX_SCALE_STEPS,
            0 <= step <= scale_steps + 1,
            pooled@ == spec_pool(
                t,
                g,
                min_scale,
                max_scale,
                scale_steps as int,
                threshold,
                num_matches as nat,
                step as nat,
            ),
        decreases scale_steps + 1 - step,
    {
        let sc = scale_at(min_scale, max_scale, scale_steps, step);
        let nw = scaled_dim(needle.width, sc);
        let nh = scaled_dim(needle.height, sc);
        let ghost pre = pooled@;
        if nw >= 1 && nh >= 1 && nw <= haystack.width && nh <= haystack.height {
            let resized = needle.resize_nearest(nw, nh);
            let surface_opt = match_surface(&resized, haystack);
            match surface_opt {
                Some(surface) => {
                    let mut found = extract_matches(surface, nw, nh, threshold, num_matches);
                    proof {
                        assert(found@ == spec_scale_matches(
                            t,
                            g,
                            min_scale,
                            max_scale,
                            scale_steps as int,
                            threshold,
                            num_matches as nat,
                            step as int,
                        ));
                    }
                    pooled.append(&mut found);
                },
                None => {
                    proof {
                        assert(false);
                    }
                },
            }
        } else {
            proof {
                assert(spec_scale_matches(
                    t,
                    g,
                    min_scale,
                    max_scale,
                    scale_steps as int,
                    threshold,
                    num_matches as nat,
                    step as int,
                ) =~= Seq::<Match>::empty());
                assert(pooled@ =~= pre + Seq::<Match>::empty());
            }
        }
        step = step + 1;
    }
    proof {
        lemma_pool_props(
            t,
            g,
            min_scale,
            max_scale,
            scale_steps as int,
            threshold,
            num_matches as nat,
            (scale_steps + 1) as nat,
        );
    }
    let sorted = sort_matches_desc(&pooled);
    let mut result = sorted;
    result.truncate(num_matches);
    proof {
        let pool = pooled@;
        let srt = spec_sort_desc(pool);
        if num_matches < srt.len() {
            assert(result@ == srt.subrange(0, num_matches as int));
            assert(result@ =~= srt.take(num_matches as int));
        }
        assert(result@ == spec_detect(
            t,
            g,
            num_matches as nat,
            min_scale,
            max_scale,
            scale_steps as int,
            threshold,
        ));
        assert forall|i: int| 0 <= i < result@.len() implies (#[trigger] result@[i]).confidence
            >= threshold && exists|step2: int|
            0 <= step2 <= scale_steps && match_at_scale(
                t,
                g,
                min_scale,
                max_scale,
                scale_steps as int,
                result@[i],
                step2,
            ) by {
            assert(result@[i] == srt[i]);
            assert(pool.contains(srt[i]));
            let w = choose|w: int| 0 <= w < pool.len() && pool[w] == srt[i];
            assert(pool[w].confidence >= threshold);
            let s0 = choose|s0: int|
                0 <= s0 < scale_steps + 1 && match_at_scale(
                    t,
                    g,
                    min_scale,
                    max_scale,
                    scale_steps as int,
                    pool[w],
                    s0,
                );
            assert(match_at_scale(
                t,
                g,
                min_scale,
                max_scale,
                scale_steps as int,
                result@[i],
                s0,
            ));
        }
        assert forall|i: int| 0 <= i < result@.len() implies match_at_some_scale(
            t,
            g,
            min_scale,
            max_scale,
            scale_steps as int,
            #[trigger] result@[i],
        ) by {
            assert(pool.contains(srt[i]));
            let w = choose|w: int| 0 <= w < pool.len() && pool[w] == srt[i];
            let s0 = choose|s0: int|
                0 <= s0 < scale_steps + 1 && match_at_scale(
                    t,
                    g,
                    min_scale,
                    max_scale,
                    scale_steps as int,
                    pool[w],
                    s0,
                );
            assert(0 <= s0 <= scale_steps && match_at_scale(
                t,
                g,
                min_scale,
                max_scale,
                scale_steps as int,
                result@[i],
                s0,
            ));
        }
        assert(all_matches_at_some_scale(t, g, min_scale, max_scale, scale_steps as int, result@));
    }
    Ok(result)
}

} // verus!
