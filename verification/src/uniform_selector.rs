//! Duration-only timestamp selection.
//!
//! The fast mode of the pipeline: no scene detection, just `count` sample
//! points placed at the middles of equal slices of the video, leaving a
//! margin at both ends.  All positions are in milliseconds; margins are
//! in thousandths of the duration.

use vstd::prelude::*;

verus! {

/// The default margin kept at each end of the video, in thousandths of
/// the duration (two percent).
pub const UNIFORM_MARGIN_PERMILLE: u64 = 20;

/// Clamps a computed sample position into the video's usable range:
/// raised to a tenth of a second, then capped a tenth of a second short
/// of the end (the cap wins when the two conflict).
pub open spec fn spec_clamp_sample(t: int, duration: u64) -> u64 {
    let lo = if t < 100 {
        100int
    } else {
        t
    };
    let hi = if duration >= 100 {
        duration - 100
    } else {
        0int
    };
    if lo > hi {
        hi as u64
    } else {
        lo as u64
    }
}

/// The `i`-th of `count` mid-slice sample positions over `[start, end]`.
pub open spec fn spec_mid_slice(start: int, end: int, count: int, i: int) -> int {
    start + (end - start) * (2 * i + 1) / (2 * count)
}

/// Uniform selection with explicit start and end margins (thousandths of
/// the duration).  A margin pair that leaves no usable span yields the
/// single midpoint of the whole video.
pub open spec fn spec_uniform_with_margin(
    duration: u64,
    count: int,
    start_margin: u64,
    end_margin: u64,
) -> Seq<u64> {
    if count <= 0 || duration == 0 {
        Seq::empty()
    } else {
        let start = duration as int * start_margin / 1000;
        let end = duration as int * (1000 - end_margin) / 1000;
        if end - start <= 0 {
            seq![(duration / 2) as u64]
        } else {
            Seq::new(count as nat, |i: int| spec_clamp_sample(
                spec_mid_slice(start, end, count, i),
                duration,
            ))
        }
    }
}

/// Uniform selection with the default two-percent margins.  Unlike the
/// explicit-margin variant there is no midpoint fallback: the default
/// margins always leave the span in range.
pub open spec fn spec_uniform_timestamps(duration: u64, count: int) -> Seq<u64> {
    if count <= 0 || duration == 0 {
        Seq::empty()
    } else {
        let start = duration as int * UNIFORM_MARGIN_PERMILLE / 1000;
        let end = duration as int * (1000 - UNIFORM_MARGIN_PERMILLE) / 1000;
        Seq::new(count as nat, |i: int| spec_clamp_sample(
            spec_mid_slice(start, end, count, i),
            duration,
        ))
    }
}

/// Uniform selection is well spread: given at least a second of video
/// per requested sample, the selected positions are exactly `count`
/// many, strictly increasing, and all inside `[0, duration)` — the
/// margins and clamps never collapse two samples.
pub proof fn lemma_uniform_timestamps_spread(duration_ms: u64, count: int)
    requires
        1 <= count,
        duration_ms >= 1000 * count,
    ensures
        ({
            let r = spec_uniform_timestamps(duration_ms, count);
            &&& r.len() == count
            &&& forall|a: int, b: int| 0 <= a < b < count ==> r[a] < r[b]
            &&& forall|k: int| 0 <= k < count ==> r[k] < duration_ms
        }),
{
    let d = duration_ms as int;
    let start = d * UNIFORM_MARGIN_PERMILLE / 1000;
    let end = d * (1000 - UNIFORM_MARGIN_PERMILLE) / 1000;
    let eff = end - start;
    let c2 = 2 * count;
    assert(d >= 1000) by (nonlinear_arith)
        requires
            d >= 1000 * count,
            count >= 1,
    ;
    vstd::arithmetic::div_mod::lemma_fundamental_div_mod(d * 20, 1000);
    vstd::arithmetic::div_mod::lemma_fundamental_div_mod(d * 980, 1000);
    let rs = d * 20 % 1000;
    let re = d * 980 % 1000;
    assert(d * 20 >= 0 && d * 980 <= d * 1000 && d * 980 >= d * 20) by (nonlinear_arith)
        requires
            d >= 0,
    ;
    assert(0 <= start) by {
        vstd::arithmetic::div_mod::lemma_div_is_ordered(0, d * 20, 1000);
        assert(0int / 1000 == 0) by {
            vstd::arithmetic::div_mod::lemma_fundamental_div_mod_converse(0, 1000, 0, 0);
        }
    }
    assert(end <= d) by {
        vstd::arithmetic::div_mod::lemma_div_is_ordered(d * 980, d * 1000, 1000);
        vstd::arithmetic::div_mod::lemma_div_multiples_vanish(d, 1000);
        assert(d * 1000 == 1000 * d) by (nonlinear_arith);
    }
    assert(1000 * start == d * 20 - rs);
    assert(1000 * end == d * 980 - re);
    assert(1000 * eff == d * 960 - re + rs) by (nonlinear_arith)
        requires
            1000 * start == d * 20 - rs,
            1000 * end == d * 980 - re,
            eff == end - start,
    ;
    assert(1000 * eff >= 959000 * count) by (nonlinear_arith)
        requires
            1000 * eff == d * 960 - re + rs,
            0 <= re < 1000,
            0 <= rs,
            d >= 1000 * count,
            count >= 1,
    ;
    assert(eff >= 959 * count) by (nonlinear_arith)
        requires
            1000 * eff >= 959000 * count,
    ;
    let base = eff / c2;
    assert(base >= 479) by {
        assert(959 * count == 479 * c2 + count) by (nonlinear_arith)
            requires
                c2 == 2 * count,
        ;
        assert((479 * c2 + count) / c2 == 479) by {
            vstd::arithmetic::div_mod::lemma_fundamental_div_mod_converse(
                479 * c2 + count,
                c2,
                479,
                count,
            );
        }
        vstd::arithmetic::div_mod::lemma_div_is_ordered(959 * count, eff, c2);
    }
    assert forall|k: int|
        0 <= k < count implies #[trigger] spec_uniform_timestamps(duration_ms, count)[k]
        < duration_ms by {
        lemma_mid_slice_bounds(start, end, count, k);
        let t = spec_mid_slice(start, end, count, k);
        assert(t >= start + 479);
        assert(t <= end - 479);
        assert(spec_clamp_sample(t, duration_ms) == t as u64);
    }
    assert forall|a: int, b: int|
        0 <= a < b < count implies #[trigger] spec_uniform_timestamps(duration_ms, count)[a]
        < #[trigger] spec_uniform_timestamps(duration_ms, count)[b] by {
        lemma_mid_slice_bounds(start, end, count, a);
        lemma_mid_slice_bounds(start, end, count, b);
        lemma_mid_slice_monotone(start, end, count, a, b);
        let ta = spec_mid_slice(start, end, count, a);
        let tb = spec_mid_slice(start, end, count, b);
        assert(spec_clamp_sample(ta, duration_ms) == ta as u64);
        assert(spec_clamp_sample(tb, duration_ms) == tb as u64);
    }
}

/// Every mid-slice sample keeps at least one floor-quotient of margin to
/// both ends of the effective span.
proof fn lemma_mid_slice_bounds(start: int, end: int, count: int, i: int)
    requires
        1 <= count,
        0 <= i < count,
        start <= end,
        2 * count <= end - start,
    ensures
        start + (end - start) / (2 * count) <= spec_mid_slice(start, end, count, i),
        spec_mid_slice(start, end, count, i) <= end - (end - start) / (2 * count),
{
    let eff = end - start;
    let c2 = 2 * count;
    let a = eff * (2 * i + 1);
    assert(eff * 1 <= a <= eff * (2 * count - 1)) by (nonlinear_arith)
        requires
            a == eff * (2 * i + 1),
            0 <= i < count,
            eff >= 0,
    ;
    assert(eff * 1 == eff) by (nonlinear_arith);
    vstd::arithmetic::div_mod::lemma_div_is_ordered(eff, a, c2);
    vstd::arithmetic::div_mod::lemma_div_is_ordered(a, eff * (2 * count - 1), c2);
    let base = eff / c2;
    let rho = eff % c2;
    vstd::arithmetic::div_mod::lemma_fundamental_div_mod(eff, c2);
    assert(eff == c2 * base + rho);
    assert(eff * (2 * count - 1) == c2 * (eff - base - 1) + (c2 - rho)) by (nonlinear_arith)
        requires
            eff == c2 * base + rho,
            c2 == 2 * count,
    ;
    if rho == 0 {
        assert(eff * (2 * count - 1) == c2 * (eff - base) + 0) by (nonlinear_arith)
            requires
                eff == c2 * base,
                c2 == 2 * count,
        ;
        assert(eff * (2 * count - 1) / c2 == eff - base) by {
            vstd::arithmetic::div_mod::lemma_fundamental_div_mod_converse(
                eff * (2 * count - 1),
                c2,
                eff - base,
                0,
            );
        }
    } else {
        assert(eff * (2 * count - 1) / c2 == eff - base - 1) by {
            vstd::arithmetic::div_mod::lemma_fundamental_div_mod_converse(
                eff * (2 * count - 1),
                c2,
                eff - base - 1,
                c2 - rho,
            );
        }
    }
    assert(a / c2 <= eff - base);
    assert(a / c2 >= base);
}

/// Mid-slice samples grow strictly with the sample ordinal when the span
/// holds at least one unit per sample.
proof fn lemma_mid_slice_monotone(start: int, end: int, count: int, a: int, b: int)
    requires
        1 <= count,
        0 <= a < b < count,
        2 * count <= end - start,
    ensures
        spec_mid_slice(start, end, count, a) < spec_mid_slice(start, end, count, b),
    decreases b - a,
{
    if b > a + 1 {
        lemma_mid_slice_monotone(start, end, count, a, b - 1);
        lemma_mid_slice_monotone(start, end, count, b - 1, b);
    } else {
        let eff = end - start;
        let c2 = 2 * count;
        let na = eff * (2 * a + 1);
        let nb = eff * (2 * b + 1);
        assert(nb == na + 2 * eff) by (nonlinear_arith)
            requires
                na == eff * (2 * a + 1),
                nb == eff * (2 * b + 1),
                b == a + 1,
        ;
        let q = na / c2;
        let r = na % c2;
        vstd::arithmetic::div_mod::lemma_fundamental_div_mod(na, c2);
        assert((na + c2) / c2 == q + 1) by {
            assert(na + c2 == c2 * (q + 1) + r) by (nonlinear_arith)
                requires
                    na == c2 * q + r,
            ;
            vstd::arithmetic::div_mod::lemma_fundamental_div_mod_converse(na + c2, c2, q + 1, r);
        }
        assert(na + c2 <= nb);
        vstd::arithmetic::div_mod::lemma_div_is_ordered(na + c2, nb, c2);
    }
}

/// Clamps a sample position into the usable range.
fn clamp_sample(t: u128, duration: u64) -> (r: u64)
    requires
        t <= u64::MAX,
    ensures
        r == spec_clamp_sample(t as int, duration),
{
    let lo: u64 = if t < 100 {
        100
    } else {
        t as u64
    };
    let hi: u64 = if duration >= 100 {
        duration - 100
    } else {
        0
    };
    if lo > hi {
        hi
    } else {
        lo
    }
}

/// Selects `count` evenly distributed sample positions for a video of
/// the given length, keeping the default two-percent margin at each end.
/// Returns [`spec_uniform_timestamps`]; empty exactly when `count` is
/// zero or the video has no length.
pub fn select_uniform_timestamps(duration_ms: u64, count: usize) -> (r: Vec<u64>)
    requires
        count <= 0xFFFF_FFFFusize,
    ensures
        r@ == spec_uniform_timestamps(duration_ms, count as int),
{
    let mut r: Vec<u64> = Vec::new();
    if count == 0 || duration_ms == 0 {
        proof {
            assert(r@ =~= spec_uniform_timestamps(duration_ms, count as int));
        }
        return r;
    }
    let d = duration_ms as u128;
    proof {
        assert(d * (UNIFORM_MARGIN_PERMILLE as u128) <= 0xFFFF_FFFF_FFFF_FFFF * 1000)
            by (nonlinear_arith)
            requires
                0 <= d <= 0xFFFF_FFFF_FFFF_FFFF,
                UNIFORM_MARGIN_PERMILLE == 20,
        ;
        assert(d * ((1000 - UNIFORM_MARGIN_PERMILLE) as u128) <= 0xFFFF_FFFF_FFFF_FFFF * 1000)
            by (nonlinear_arith)
            requires
                0 <= d <= 0xFFFF_FFFF_FFFF_FFFF,
                UNIFORM_MARGIN_PERMILLE == 20,
        ;
        assert(d * ((1000 - UNIFORM_MARGIN_PERMILLE) as u128) / 1000 <= d) by (nonlinear_arith)
            requires
                0 <= d,
                UNIFORM_MARGIN_PERMILLE == 20,
        ;
        assert(d * (UNIFORM_MARGIN_PERMILLE as u128) <= d * ((1000 - UNIFORM_MARGIN_PERMILLE)
            as u128)) by (nonlinear_arith)
            requires
                0 <= d,
                UNIFORM_MARGIN_PERMILLE == 20,
        ;
    }
    let start: u128 = d * (UNIFORM_MARGIN_PERMILLE as u128) / 1000;
    let end: u128 = d * ((1000 - UNIFORM_MARGIN_PERMILLE) as u128) / 1000;
    let ghost gstart = duration_ms as int * UNIFORM_MARGIN_PERMILLE / 1000;
    let ghost gend = duration_ms as int * (1000 - UNIFORM_MARGIN_PERMILLE) / 1000;
    assert(start as int == gstart && end as int == gend);
    assert(start <= end <= duration_ms) by {
        vstd::arithmetic::div_mod::lemma_div_is_ordered(
            (d * (UNIFORM_MARGIN_PERMILLE as u128)) as int,
            (d * ((1000 - UNIFORM_MARGIN_PERMILLE) as u128)) as int,
            1000,
        );
    }
    let mut i: usize = 0;
    while i < count
        invariant
            i <= count,
            count <= 0xFFFF_FFFFusize,
            0 < duration_ms,
            start as int == gstart,
            end as int == gend,
            start <= end <= duration_ms,
            r@ =~= Seq::new(
                i as nat,
                |k: int| spec_clamp_sample(
                    spec_mid_slice(gstart, gend, count as int, k),
                    duration_ms,
                ),
            ),
        decreases count - i,
    {
        let span: u128 = end - start;
        proof {
            assert(span * (2 * (i as int) + 1) <= 0xFFFF_FFFF_FFFF_FFFF * (2 * 0xFFFF_FFFF + 1))
                by (nonlinear_arith)
                requires
                    0 <= span as int <= 0xFFFF_FFFF_FFFF_FFFF,
                    0 <= i as int <= 0xFFFF_FFFF,
            ;
            assert(span * (2 * (i as int) + 1) / (2 * (count as int)) <= span as int)
                by (nonlinear_arith)
                requires
                    0 <= span as int,
                    0 <= i as int,
                    (i as int) < (count as int),
            ;
        }
        let t: u128 = start + span * (2 * (i as u128) + 1) / (2 * (count as u128));
        proof {
            assert(t as int == spec_mid_slice(gstart, gend, count as int, i as int));
        }
        let v = clamp_sample(t, duration_ms);
        r.push(v);
        proof {
            assert(r@ =~= Seq::new(
                (i + 1) as nat,
                |k: int| spec_clamp_sample(
                    spec_mid_slice(gstart, gend, count as int, k),
                    duration_ms,
                ),
            ));
        }
        i += 1;
    }
    proof {
        assert(r@ =~= spec_uniform_timestamps(duration_ms, count as int));
    }
    r
}

/// Selects `count` evenly distributed sample positions with explicit
/// margins, in thousandths of the duration.  When the margins leave no
/// usable span, the single midpoint of the whole video is returned.
pub fn select_uniform_timestamps_with_margin(
    duration_ms: u64,
    count: usize,
    start_margin_permille: u64,
    end_margin_permille: u64,
) -> (r: Vec<u64>)
    requires
        count <= 0xFFFF_FFFFusize,
    ensures
        r@ == spec_uniform_with_margin(
            duration_ms,
            count as int,
            start_margin_permille,
            end_margin_permille,
        ),
{
    let mut r: Vec<u64> = Vec::new();
    if count == 0 || duration_ms == 0 {
        proof {
            assert(r@ =~= spec_uniform_with_margin(
                duration_ms,
                count as int,
                start_margin_permille,
                end_margin_permille,
            ));
        }
        return r;
    }
    let d = duration_ms as u128;
    if start_margin_permille >= 1000 || end_margin_permille >= 1000 {
        r.push(duration_ms / 2);
        proof {
            let di = duration_ms as int;
            let gstart = di * start_margin_permille / 1000;
            let gend = di * (1000 - end_margin_permille) / 1000;
            vstd::arithmetic::div_mod::lemma_div_multiples_vanish(di, 1000);
            assert(1000 * di / 1000 == di);
            if start_margin_permille >= 1000 {
                assert(di * 1000 <= di * start_margin_permille) by (nonlinear_arith)
                    requires
                        1000 <= start_margin_permille as int,
                        0 <= di,
                ;
                assert(di * (1000 - end_margin_permille) <= di * 1000) by (nonlinear_arith)
                    requires
                        (1000 - end_margin_permille as int) <= 1000,
                        0 <= di,
                ;
                vstd::arithmetic::div_mod::lemma_div_is_ordered(di * 1000, di
                    * start_margin_permille, 1000);
                vstd::arithmetic::div_mod::lemma_div_is_ordered(di * (1000 - end_margin_permille),
                    di * 1000, 1000);
                assert(di * 1000 == 1000 * di);
                assert(gend <= di <= gstart);
            } else {
                assert(di * (1000 - end_margin_permille) <= 0) by (nonlinear_arith)
                    requires
                        (1000 - end_margin_permille as int) <= 0,
                        0 <= di,
                ;
                assert(0 <= di * start_margin_permille) by (nonlinear_arith)
                    requires
                        0 <= start_margin_permille as int,
                        0 <= di,
                ;
                vstd::arithmetic::div_mod::lemma_div_is_ordered(di * (1000 - end_margin_permille),
                    0, 1000);
                vstd::arithmetic::div_mod::lemma_div_is_ordered(0, di * start_margin_permille,
                    1000);
                assert(gend <= 0 <= gstart);
            }
            assert(r@ =~= spec_uniform_with_margin(
                duration_ms,
                count as int,
                start_margin_permille,
                end_margin_permille,
            ));
        }
        return r;
    }
    let ghost gstart = duration_ms as int * start_margin_permille / 1000;
    let ghost gend = duration_ms as int * (1000 - end_margin_permille) / 1000;
    proof {
        let ghost di1000 = duration_ms as int * 1000;
        assert(d * (start_margin_permille as u128) <= 0xFFFF_FFFF_FFFF_FFFF * 1000)
            by (nonlinear_arith)
            requires
                0 <= d <= 0xFFFF_FFFF_FFFF_FFFF,
                0 <= (start_margin_permille as int) < 1000,
        ;
        assert(d * ((1000 - end_margin_permille) as u128) <= 0xFFFF_FFFF_FFFF_FFFF * 1000)
            by (nonlinear_arith)
            requires
                0 <= d <= 0xFFFF_FFFF_FFFF_FFFF,
                0 < (1000 - end_margin_permille) as int <= 1000,
        ;
        assert(di1000 / 1000 == duration_ms as int) by {
            vstd::arithmetic::div_mod::lemma_div_multiples_vanish(duration_ms as int, 1000);
        }
        assert(duration_ms as int * (1000 - end_margin_permille) <= di1000) by (nonlinear_arith)
            requires
                di1000 == duration_ms as int * 1000,
                (1000 - end_margin_permille as int) <= 1000,
                0 <= duration_ms as int,
        ;
        vstd::arithmetic::div_mod::lemma_div_is_ordered(duration_ms as int * (1000
            - end_margin_permille), di1000, 1000);
        assert(gend <= duration_ms);
    }
    let start: u128 = d * (start_margin_permille as u128) / 1000;
    let end: u128 = d * ((1000 - end_margin_permille) as u128) / 1000;
    if end <= start {
        r.push(duration_ms / 2);
        proof {
            assert(r@ =~= spec_uniform_with_margin(
                duration_ms,
                count as int,
                start_margin_permille,
                end_margin_permille,
            ));
        }
        return r;
    }
    let mut i: usize = 0;
    while i < count
        invariant
            i <= count,
            count <= 0xFFFF_FFFFusize,
            0 < duration_ms,
            start as int == gstart,
            end as int == gend,
            start < end,
            end <= duration_ms,
            r@ =~= Seq::new(
                i as nat,
                |k: int| spec_clamp_sample(
                    spec_mid_slice(gstart, gend, count as int, k),
                    duration_ms,
                ),
            ),
        decreases count - i,
    {
        let span: u128 = end - start;
        proof {
            assert(span * (2 * (i as int) + 1) <= 0xFFFF_FFFF_FFFF_FFFF * (2 * 0xFFFF_FFFF + 1))
                by (nonlinear_arith)
                requires
                    0 <= span as int <= 0xFFFF_FFFF_FFFF_FFFF,
                    0 <= i as int <= 0xFFFF_FFFF,
            ;
            assert(span * (2 * (i as int) + 1) / (2 * (count as int)) <= span as int)
                by (nonlinear_arith)
                requires
                    0 <= span as int,
                    0 <= i as int,
                    (i as int) < (count as int),
            ;
        }
        let t: u128 = start + span * (2 * (i as u128) + 1) / (2 * (count as u128));
        proof {
            assert(t as int == spec_mid_slice(gstart, gend, count as int, i as int));
        }
        let v = clamp_sample(t, duration_ms);
        r.push(v);
        proof {
            assert(r@ =~= Seq::new(
                (i + 1) as nat,
                |k: int| spec_clamp_sample(
                    spec_mid_slice(gstart, gend, count as int, k),
                    duration_ms,
                ),
            ));
        }
        i += 1;
    }
    proof {
        assert(r@ =~= spec_uniform_with_margin(
            duration_ms,
            count as int,
            start_margin_permille,
            end_margin_permille,
        ));
    }
    r
}

} // verus!

