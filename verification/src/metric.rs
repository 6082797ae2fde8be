//! The metric engine: error-rate counting and exact areas under the sweep.
//!
//! Counts and areas are computed exactly over the integers; a caller turns
//! them into floating-point ratios.  The ROC area comes back as one exact
//! fraction, since recall of false and true positives share the fixed
//! denominators given by the totals.

use vstd::prelude::*;
use vstd::multiset::Multiset;

use crate::MetricError;
use crate::sweep::Observation;
use crate::sweep::Sweep;
use crate::sweep::count_neg;
use crate::sweep::count_pos;
use crate::sweep::get_fps_tps;
use crate::sweep::lemma_count_bounds;
use crate::sweep::lemma_sweep_counts_nondecreasing;
use crate::sweep::lemma_sweep_final_totals;
use crate::sweep::spec_sweep;
use crate::sweep::sweep_models;

verus! {

/// An exact non-negative rational; the value is `num / den`.
pub struct Fraction {
    pub num: u128,
    pub den: u128,
}

/// How many entries of `s` are set: the number of observations the scores
/// got wrong, once the caller has decided each with the sign primitive.
pub open spec fn count_misses(s: Seq<bool>) -> int
    decreases s.len(),
{
    if s.len() == 0 {
        0
    } else {
        count_misses(s.drop_last()) + if s.last() {
            1int
        } else {
            0int
        }
    }
}

/// Counts the missed observations.  `misses[i]` says whether observation `i`
/// disagrees with its label (score times label at most epsilon); the error
/// rate is the returned count over the number of observations.  An empty
/// input is refused.
pub fn get_error_count(misses: &Vec<bool>) -> (r: Result<usize, MetricError>)
    ensures
        match r {
            Ok(c) => misses@.len() > 0 && c as int == count_misses(misses@),
            Err(e) => misses@.len() == 0 && e == MetricError::InvalidInput,
        },
{
    if misses.len() == 0 {
        return Err(MetricError::InvalidInput);
    }
    let mut c: usize = 0;
    let mut i: usize = 0;
    while i < misses.len()
        invariant
            0 <= i <= misses@.len(),
            c as int == count_misses(misses@.take(i as int)),
            c <= i,
        decreases misses@.len() - i,
    {
        proof {
            assert(misses@.take(i as int + 1).drop_last() =~= misses@.take(i as int));
            assert(misses@.take(i as int + 1).last() == misses@[i as int]);
        }
        if misses[i] {
            c = c + 1;
        }
        i = i + 1;
    }
    proof {
        assert(misses@.take(misses@.len() as int) =~= misses@);
    }
    Ok(c)
}

/// The miss count equals the multiplicity of `true` in the sequence seen as
/// a multiset, so it cannot depend on the order of the observations.
proof fn lemma_count_misses_multiset(s: Seq<bool>)
    ensures
        count_misses(s) == s.to_multiset().count(true),
    decreases s.len(),
{
    broadcast use vstd::seq_lib::group_to_multiset_ensures;

    if s.len() == 0 {
        assert(s.to_multiset() =~= Multiset::<bool>::empty());
    } else {
        lemma_count_misses_multiset(s.drop_last());
        assert(s =~= s.drop_last().push(s.last()));
        assert(s.drop_last().push(s.last()).to_multiset() =~= s.drop_last().to_multiset().insert(
            s.last(),
        ));
    }
}

/// The error rate is invariant under any permutation of the observations:
/// two miss sequences holding the same flags in any order, stated as equal
/// multisets, have the same miss count.
pub proof fn lemma_error_count_permutation(a: Seq<bool>, b: Seq<bool>)
    requires
        a.to_multiset() == b.to_multiset(),
    ensures
        count_misses(a) == count_misses(b),
{
    lemma_count_misses_multiset(a);
    lemma_count_misses_multiset(b);
}

/// Twice the trapezoidal area under the polyline through `pts`, taken in the
/// order given: the sum over consecutive pairs of
/// `(x_next - x_prev) * (y_prev + y_next)`.  A single point spans no area.
pub open spec fn spec_double_area(pts: Seq<(int, int)>) -> int
    decreases pts.len(),
{
    if pts.len() < 2 {
        0
    } else {
        spec_double_area(pts.drop_last()) + (pts.last().0 - pts[pts.len() - 2].0) * (pts[pts.len()
            - 2].1 + pts.last().1)
    }
}

/// The trapezoidal integrator on exact curve points: accumulates
/// `(x_next - x_prev) * (y_prev + y_next)` over consecutive pairs, that is
/// twice the area under the curve; the caller halves it inside its final
/// ratio.  The points must come with non-decreasing `x`, which the sweep's
/// cumulative counts provide.
pub fn get_double_area(points: &Vec<(u64, u64)>) -> (r: u128)
    requires
        points@.len() > 0,
        forall|j: int|
            0 <= j < points@.len() ==> (#[trigger] points@[j]).0 < 0x1_0000_0000 && points@[j].1
                < 0x1_0000_0000,
        forall|j: int| 0 <= j < points@.len() - 1 ==> (#[trigger] points@[j]).0 <= points@[j + 1].0,
    ensures
        r as int == spec_double_area(points@.map_values(|p: (u64, u64)| (p.0 as int, p.1 as int))),
        r as int <= 0x2_0000_0000 * (points@.last().0 - points@[0].0),
{
    let ghost m = points@.map_values(|p: (u64, u64)| (p.0 as int, p.1 as int));
    let mut area: u128 = 0;
    let mut k: usize = 1;
    proof {
        assert(m.take(1).len() == 1);
        assert(spec_double_area(m.take(1)) == 0);
    }
    while k < points.len()
        invariant
            1 <= k <= points@.len(),
            m == points@.map_values(|p: (u64, u64)| (p.0 as int, p.1 as int)),
            m.len() == points@.len(),
            forall|j: int|
                0 <= j < points@.len() ==> (#[trigger] points@[j]).0 < 0x1_0000_0000
                    && points@[j].1 < 0x1_0000_0000,
            forall|j: int|
                0 <= j < points@.len() - 1 ==> (#[trigger] points@[j]).0 <= points@[j + 1].0,
            area as int == spec_double_area(m.take(k as int)),
            area as int <= 0x2_0000_0000 * (points@[k - 1].0 - points@[0].0),
        decreases points@.len() - k,
    {
        proof {
            lemma_x_sorted(m, 0, k - 1);
            lemma_x_sorted(m, k - 1, k as int);
            assert(m.take(k as int + 1).drop_last() =~= m.take(k as int));
            assert(m.take(k as int + 1).last() == m[k as int]);
            assert(m.take(k as int + 1)[k as int - 1] == m[k as int - 1]);
            let dx = m[k as int].0 - m[k as int - 1].0;
            let sy = m[k as int - 1].1 + m[k as int].1;
            assert(dx * sy <= dx * 0x2_0000_0000 && 0 <= dx * sy) by (nonlinear_arith)
                requires
                    0 <= dx,
                    0 <= sy <= 0x2_0000_0000,
            ;
            assert(0x2_0000_0000 * (m[k as int - 1].0 - m[0].0) + dx * 0x2_0000_0000
                == 0x2_0000_0000 * (m[k as int].0 - m[0].0));
        }
        let (x1, y1) = points[k];
        let (x0, y0) = points[k - 1];
        area = area + ((x1 - x0) as u128) * ((y0 + y1) as u128);
        k = k + 1;
    }
    proof {
        assert(m.take(points@.len() as int) =~= m);
    }
    area
}

/// `x` coordinates are non-decreasing between any two positions, not only
/// adjacent ones.
proof fn lemma_x_sorted(m: Seq<(int, int)>, i: int, j: int)
    requires
        0 <= i <= j < m.len(),
        forall|l: int| 0 <= l < m.len() - 1 ==> (#[trigger] m[l]).0 <= m[l + 1].0,
    ensures
        m[i].0 <= m[j].0,
    decreases j - i,
{
    if i < j {
        lemma_x_sorted(m, i, j - 1);
    }
}

/// A sweep of a single point spans no trapezoidal area: the scaled ROC area
/// reduces to its first-segment term alone.
pub proof fn lemma_single_point_first_segment_only(pts: Seq<(int, int, int)>)
    requires
        pts.len() == 1,
    ensures
        spec_auroc_num(pts) == pts[0].0 * pts[0].1,
{
    assert(pts.map_values(|t: (int, int, int)| (t.0, t.1)).len() == 1);
}

/// When all scores tie, the whole sweep is one point holding the totals, so
/// the scaled ROC area is exactly the product of the two totals: half of the
/// denominator, an area of one half.
pub proof fn lemma_all_tied_first_segment_only(s: Seq<Observation>)
    requires
        s.len() > 0,
        forall|i: int| 1 <= i < s.len() ==> (#[trigger] s[i]).tied,
    ensures
        spec_auroc_num(spec_sweep(s)) == count_neg(s) * count_pos(s),
{
    crate::sweep::lemma_sweep_all_tied(s);
    lemma_single_point_first_segment_only(spec_sweep(s));
}

/// The exact precision-recall curve: the ratio numerators and denominators
/// at each sweep point, before any floating-point division.
pub struct PrcCurve {
    pub points: Vec<(u64, u64)>,
    pub num_positive: u64,
}

/// The exact precision-recall curve of `obs`: for each sweep point, the
/// true positive count and its support (true plus false positives), beside
/// the positive total.  Precision at point `j` is exactly
/// `points[j].0 / points[j].1` and recall exactly
/// `points[j].0 / num_positive`; the caller forms those ratios.  An empty
/// input is refused as invalid; one without a single positive label leaves
/// both ratios undefined and is refused as degenerate.
pub fn get_prc_curve(obs: &Vec<Observation>) -> (r: Result<PrcCurve, MetricError>)
    requires
        obs@.len() < 0x1_0000_0000,
    ensures
        match r {
            Ok(c) => {
                &&& obs@.len() > 0
                &&& count_pos(obs@) > 0
                &&& c.num_positive as int == count_pos(obs@)
                &&& c.points@.len() == spec_sweep(obs@).len()
                &&& forall|j: int|
                    0 <= j < c.points@.len() ==> (#[trigger] c.points@[j]).0 as int == spec_sweep(
                        obs@,
                    )[j].1 && c.points@[j].1 as int == spec_sweep(obs@)[j].0 + spec_sweep(
                        obs@,
                    )[j].1
            },
            Err(e) => {
                &&& obs@.len() > 0 ==> e == MetricError::DegenerateInput
                &&& obs@.len() == 0 ==> e == MetricError::InvalidInput
                &&& obs@.len() > 0 ==> count_pos(obs@) == 0
            },
        },
{
    let sw = match get_fps_tps(obs) {
        Ok(sw) => sw,
        Err(e) => {
            return Err(e);
        },
    };
    proof {
        lemma_sweep_final_totals(obs@);
        lemma_sweep_counts_nondecreasing(obs@);
        lemma_count_bounds(obs@);
    }
    let len = sw.tps.len();
    let num_tp = sw.tps[len - 1];
    if num_tp == 0 {
        return Err(MetricError::DegenerateInput);
    }
    let mut points: Vec<(u64, u64)> = Vec::new();
    let mut j: usize = 0;
    while j < len
        invariant
            0 <= j <= len,
            len == spec_sweep(obs@).len(),
            sweep_models(sw, spec_sweep(obs@)),
            obs@.len() < 0x1_0000_0000,
            forall|a: int, b: int|
                0 <= a <= b < spec_sweep(obs@).len() ==> (#[trigger] spec_sweep(obs@)[a]).0
                    <= (#[trigger] spec_sweep(obs@)[b]).0 && spec_sweep(obs@)[a].1 <= spec_sweep(
                    obs@,
                )[b].1,
            spec_sweep(obs@).last().0 == count_neg(obs@),
            spec_sweep(obs@).last().1 == count_pos(obs@),
            count_pos(obs@) + count_neg(obs@) == obs@.len(),
            points@.len() == j,
            forall|a: int|
                0 <= a < j ==> (#[trigger] points@[a]).0 as int == spec_sweep(obs@)[a].1
                    && points@[a].1 as int == spec_sweep(obs@)[a].0 + spec_sweep(obs@)[a].1,
        decreases len - j,
    {
        proof {
            assert(spec_sweep(obs@)[j as int].0 <= count_neg(obs@));
            assert(spec_sweep(obs@)[j as int].1 <= count_pos(obs@));
        }
        let tp = sw.tps[j] as u64;
        let fp = sw.fps[j] as u64;
        points.push((tp, tp + fp));
        j = j + 1;
    }
    Ok(PrcCurve { points, num_positive: num_tp as u64 })
}

/// Twice the area under the ROC curve scaled by the two totals: the first
/// segment `fp_0 * tp_0` (the triangle from the origin, doubled) plus the
/// full trapezoidal sum over the sweep points.  The trapezoidal sum starts
/// again from the first point, so the span up to it is weighted twice: that
/// composition is deliberate and is the metric's definition here.
pub open spec fn spec_auroc_num(pts: Seq<(int, int, int)>) -> int {
    pts[0].0 * pts[0].1 + spec_double_area(pts.map_values(|t: (int, int, int)| (t.0, t.1)))
}

/// The exact area under the ROC curve of `obs` as a fraction: the numerator
/// is the first-segment triangle plus the full trapezoidal sum over the
/// sweep's count points, the denominator twice the product of the negative
/// and positive totals.  An empty input is refused as invalid; an input
/// whose labels are all of one class leaves a ratio denominator zero and is
/// refused as degenerate.
pub fn get_auroc_fraction(obs: &Vec<Observation>) -> (r: Result<Fraction, MetricError>)
    requires
        obs@.len() < 0x1_0000_0000,
    ensures
        match r {
            Ok(f) => {
                &&& obs@.len() > 0
                &&& count_pos(obs@) > 0
                &&& count_neg(obs@) > 0
                &&& f.num as int == spec_auroc_num(spec_sweep(obs@))
                &&& f.den as int == 2 * count_neg(obs@) * count_pos(obs@)
                &&& f.den > 0
            },
            Err(e) => {
                &&& obs@.len() > 0 ==> e == MetricError::DegenerateInput
                &&& obs@.len() == 0 ==> e == MetricError::InvalidInput
                &&& obs@.len() > 0 ==> (count_pos(obs@) == 0 || count_neg(obs@) == 0)
            },
        },
{
    let sw = match get_fps_tps(obs) {
        Ok(sw) => sw,
        Err(e) => {
            return Err(e);
        },
    };
    proof {
        lemma_sweep_final_totals(obs@);
        lemma_sweep_counts_nondecreasing(obs@);
        lemma_count_bounds(obs@);
    }
    let len = sw.fps.len();
    let num_fp = sw.fps[len - 1];
    let num_tp = sw.tps[len - 1];
    if num_fp == 0 || num_tp == 0 {
        return Err(MetricError::DegenerateInput);
    }
    let mut points: Vec<(u64, u64)> = Vec::new();
    let mut j: usize = 0;
    while j < len
        invariant
            0 <= j <= len,
            len == spec_sweep(obs@).len(),
            sweep_models(sw, spec_sweep(obs@)),
            obs@.len() < 0x1_0000_0000,
            forall|a: int, b: int|
                0 <= a <= b < spec_sweep(obs@).len() ==> (#[trigger] spec_sweep(obs@)[a]).0
                    <= (#[trigger] spec_sweep(obs@)[b]).0 && spec_sweep(obs@)[a].1 <= spec_sweep(
                    obs@,
                )[b].1,
            spec_sweep(obs@).last().0 == count_neg(obs@),
            spec_sweep(obs@).last().1 == count_pos(obs@),
            count_pos(obs@) + count_neg(obs@) == obs@.len(),
            points@.len() == j,
            forall|a: int|
                0 <= a < j ==> (#[trigger] points@[a]).0 as int == spec_sweep(obs@)[a].0
                    && points@[a].1 as int == spec_sweep(obs@)[a].1,
        decreases len - j,
    {
        let x = sw.fps[j];
        let y = sw.tps[j];
        points.push((x as u64, y as u64));
        j = j + 1;
    }
    proof {
        assert forall|a: int| 0 <= a < points@.len() implies (#[trigger] points@[a]).0
            < 0x1_0000_0000 && points@[a].1 < 0x1_0000_0000 by {
            assert(spec_sweep(obs@)[a].0 <= count_neg(obs@));
            assert(spec_sweep(obs@)[a].1 <= count_pos(obs@));
        }
        assert forall|a: int| 0 <= a < points@.len() - 1 implies (#[trigger] points@[a]).0
            <= points@[a + 1].0 by {
            assert(spec_sweep(obs@)[a].0 <= spec_sweep(obs@)[a + 1].0);
        }
    }
    let double_trap = get_double_area(&points);
    proof {
        assert(points@.map_values(|p: (u64, u64)| (p.0 as int, p.1 as int)) =~= spec_sweep(
            obs@,
        ).map_values(|t: (int, int, int)| (t.0, t.1)));
        let fp0 = spec_sweep(obs@)[0].0;
        let tp0 = spec_sweep(obs@)[0].1;
        assert(fp0 * tp0 < 0x1_0000_0000 * 0x1_0000_0000 && 0 <= fp0 * tp0) by (nonlinear_arith)
            requires
                0 <= fp0 < 0x1_0000_0000,
                0 <= tp0 < 0x1_0000_0000,
        ;
        assert(double_trap as int <= 0x2_0000_0000 * (points@.last().0 - points@[0].0));
        let xl = points@.last().0 as int;
        let x0 = points@[0].0 as int;
        assert(0x2_0000_0000 * (xl - x0) <= 0x2_0000_0000 * 0x1_0000_0000) by (nonlinear_arith)
            requires
                xl - x0 <= 0x1_0000_0000,
        ;
        let cn = count_neg(obs@);
        let cp = count_pos(obs@);
        assert(0 < cn * cp < 0x1_0000_0000 * 0x1_0000_0000 && 2 * cn * cp == 2 * (cn * cp))
            by (nonlinear_arith)
            requires
                0 < cn < 0x1_0000_0000,
                0 < cp < 0x1_0000_0000,
        ;
    }
    let first_seg = (points[0].0 as u128) * (points[0].1 as u128);
    let num = first_seg + double_trap;
    let den = 2 * (num_fp as u128) * (num_tp as u128);
    Ok(Fraction { num, den })
}

} // verus!
