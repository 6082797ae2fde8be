//! The threshold-sweep builder.
//!
//! Given observations sorted by non-increasing score, the sweep records, for
//! each distinct score value from highest to lowest, the cumulative false
//! positive and true positive counts over all observations at or above that
//! score, together with the index of the observation whose score is the
//! threshold reached.

use vstd::prelude::*;

use crate::MetricError;

verus! {

/// One scored example, reduced to what the sweep reads of it: whether its
/// label is the positive class (within the epsilon band around +1) and
/// whether its score ties the previous observation's score (within the
/// epsilon band).  The caller orders observations by non-increasing score and
/// decides both flags with the shared sign primitive; `tied` is never read at
/// index 0.
#[derive(Clone, Copy, PartialEq, Eq, Debug, Structural)]
pub struct Observation {
    pub pos: bool,
    pub tied: bool,
}

/// The sweep: three aligned vectors, one entry per distinct score, highest
/// threshold first.  `fps[j]` and `tps[j]` count the negative and positive
/// observations whose scores are at or above threshold `j`;
/// `threshold_idxs[j]` is the index (into the input) of the observation
/// whose score is threshold `j`.
pub struct Sweep {
    pub fps: Vec<usize>,
    pub tps: Vec<usize>,
    pub threshold_idxs: Vec<usize>,
}

/// How many observations of `s` carry the positive label.
pub open spec fn count_pos(s: Seq<Observation>) -> int
    decreases s.len(),
{
    if s.len() == 0 {
        0
    } else {
        count_pos(s.drop_last()) + if s.last().pos {
            1int
        } else {
            0int
        }
    }
}

/// How many observations of `s` carry the negative label.
pub open spec fn count_neg(s: Seq<Observation>) -> int
    decreases s.len(),
{
    if s.len() == 0 {
        0
    } else {
        count_neg(s.drop_last()) + if s.last().pos {
            0int
        } else {
            1int
        }
    }
}

/// The sweep points emitted at group boundaries strictly before index `k`:
/// one triple `(fp, tp, threshold index)` for each `i` in `[1, k)` whose
/// score does not tie the previous observation's, carrying the counts over
/// the prefix `[0, i)` and threshold index `i - 1`.
pub open spec fn boundary_points(s: Seq<Observation>, k: int) -> Seq<(int, int, int)>
    decreases k,
{
    if k <= 1 {
        Seq::empty()
    } else {
        boundary_points(s, k - 1) + if !s[k - 1].tied {
            seq![(count_neg(s.take(k - 1)), count_pos(s.take(k - 1)), k - 2)]
        } else {
            Seq::empty()
        }
    }
}

/// The whole sweep of a non-empty sequence: the boundary points, then one
/// final point flushing the last threshold group with the totals.
pub open spec fn spec_sweep(s: Seq<Observation>) -> Seq<(int, int, int)> {
    boundary_points(s, s.len() as int) + seq![(count_neg(s), count_pos(s), s.len() - 1)]
}

/// The number of distinct score values of a non-empty sequence: one group,
/// plus one more for each observation after the first whose score does not
/// tie the previous observation's.
pub open spec fn num_groups(s: Seq<Observation>, k: int) -> int
    decreases k,
{
    if k <= 1 {
        1
    } else {
        num_groups(s, k - 1) + if !s[k - 1].tied {
            1int
        } else {
            0int
        }
    }
}

/// The three vectors of `sw` spell out exactly the points `pts`.
pub open spec fn sweep_models(sw: Sweep, pts: Seq<(int, int, int)>) -> bool {
    &&& sw.fps@.len() == pts.len()
    &&& sw.tps@.len() == pts.len()
    &&& sw.threshold_idxs@.len() == pts.len()
    &&& forall|j: int| 0 <= j < pts.len() ==> (#[trigger] sw.fps@[j]) as int == pts[j].0
    &&& forall|j: int| 0 <= j < pts.len() ==> (#[trigger] sw.tps@[j]) as int == pts[j].1
    &&& forall|j: int| 0 <= j < pts.len() ==> (#[trigger] sw.threshold_idxs@[j]) as int == pts[j].2
}

/// Both label counts are non-negative and sum to the sequence's length.
pub proof fn lemma_count_bounds(s: Seq<Observation>)
    ensures
        0 <= count_pos(s),
        0 <= count_neg(s),
        count_pos(s) + count_neg(s) == s.len(),
    decreases s.len(),
{
    if s.len() > 0 {
        lemma_count_bounds(s.drop_last());
    }
}

/// A longer prefix holds at least as many observations of either label.
pub proof fn lemma_count_prefix_monotone(s: Seq<Observation>, a: int, b: int)
    requires
        0 <= a <= b <= s.len(),
    ensures
        count_pos(s.take(a)) <= count_pos(s.take(b)),
        count_neg(s.take(a)) <= count_neg(s.take(b)),
    decreases b - a,
{
    if a < b {
        lemma_count_prefix_monotone(s, a, b - 1);
        assert(s.take(b).drop_last() =~= s.take(b - 1));
    }
}

/// Every boundary point before index `k` carries the label counts of the
/// prefix ending just before some non-tied index, its threshold index names
/// that boundary, and threshold indices strictly increase across the points.
proof fn lemma_boundary_points_shape(s: Seq<Observation>, k: int)
    requires
        1 <= k <= s.len(),
    ensures
        forall|j: int|
            0 <= j < boundary_points(s, k).len() ==> {
                let p = #[trigger] boundary_points(s, k)[j];
                &&& 1 <= p.2 + 1 < k
                &&& !s[p.2 + 1].tied
                &&& p.0 == count_neg(s.take(p.2 + 1))
                &&& p.1 == count_pos(s.take(p.2 + 1))
                &&& (j > 0 ==> boundary_points(s, k)[j - 1].2 < p.2)
            },
    decreases k,
{
    if k > 1 {
        lemma_boundary_points_shape(s, k - 1);
        assert forall|j: int| 0 <= j < boundary_points(s, k - 1).len() implies (#[trigger] boundary_points(
            s,
            k,
        )[j]) == boundary_points(s, k - 1)[j] by {}
    }
}

/// Cumulative counts are non-decreasing across the sweep.
pub proof fn lemma_sweep_counts_nondecreasing(s: Seq<Observation>)
    requires
        s.len() > 0,
    ensures
        forall|i: int, j: int|
            0 <= i <= j < spec_sweep(s).len() ==> (#[trigger] spec_sweep(s)[i]).0
                <= (#[trigger] spec_sweep(s)[j]).0 && spec_sweep(s)[i].1 <= spec_sweep(s)[j].1,
{
    let n = s.len() as int;
    lemma_boundary_points_shape(s, n);
    let bp = boundary_points(s, n);
    assert forall|i: int, j: int|
        0 <= i <= j < spec_sweep(s).len() implies (#[trigger] spec_sweep(s)[i]).0
        <= (#[trigger] spec_sweep(s)[j]).0 && spec_sweep(s)[i].1 <= spec_sweep(s)[j].1 by {
        if j < bp.len() {
            lemma_boundary_thresholds_sorted(s, n, i, j);
        }
        let ei = if i < bp.len() {
            bp[i].2 + 1
        } else {
            n
        };
        let ej = if j < bp.len() {
            bp[j].2 + 1
        } else {
            n
        };
        assert(s.take(n) =~= s);
        lemma_count_prefix_monotone(s, ei, ej);
    }
}

/// Threshold indices strictly increase across the boundary points: between
/// any two positions, not only adjacent ones.
proof fn lemma_boundary_thresholds_sorted(s: Seq<Observation>, k: int, i: int, j: int)
    requires
        1 <= k <= s.len(),
        0 <= i <= j < boundary_points(s, k).len(),
    ensures
        boundary_points(s, k)[i].2 <= boundary_points(s, k)[j].2,
    decreases j - i,
{
    lemma_boundary_points_shape(s, k);
    if i < j {
        lemma_boundary_thresholds_sorted(s, k, i, j - 1);
    }
}

/// The sweep's final point carries the totals: its true positive count is
/// the number of positive labels and its false positive count the number of
/// negative labels over the whole input.
pub proof fn lemma_sweep_final_totals(s: Seq<Observation>)
    requires
        s.len() > 0,
    ensures
        spec_sweep(s).len() > 0,
        spec_sweep(s).last().0 == count_neg(s),
        spec_sweep(s).last().1 == count_pos(s),
        spec_sweep(s).last().2 == s.len() - 1,
{
}

/// The sweep holds one point per distinct score value.
pub proof fn lemma_sweep_len(s: Seq<Observation>)
    requires
        s.len() > 0,
    ensures
        spec_sweep(s).len() == num_groups(s, s.len() as int),
{
    lemma_boundary_points_len(s, s.len() as int);
}

proof fn lemma_boundary_points_len(s: Seq<Observation>, k: int)
    requires
        1 <= k <= s.len(),
    ensures
        boundary_points(s, k).len() + 1 == num_groups(s, k),
    decreases k,
{
    if k > 1 {
        lemma_boundary_points_len(s, k - 1);
    }
}

/// When every observation ties the previous one -- all scores equal within
/// epsilon -- the sweep is a single point holding the totals.
pub proof fn lemma_sweep_all_tied(s: Seq<Observation>)
    requires
        s.len() > 0,
        forall|i: int| 1 <= i < s.len() ==> (#[trigger] s[i]).tied,
    ensures
        spec_sweep(s).len() == 1,
        spec_sweep(s)[0] == (count_neg(s), count_pos(s), s.len() - 1),
{
    lemma_sweep_len(s);
    lemma_num_groups_all_tied(s, s.len() as int);
}

proof fn lemma_num_groups_all_tied(s: Seq<Observation>, k: int)
    requires
        1 <= k <= s.len(),
        forall|i: int| 1 <= i < s.len() ==> (#[trigger] s[i]).tied,
    ensures
        num_groups(s, k) == 1,
    decreases k,
{
    if k > 1 {
        lemma_num_groups_all_tied(s, k - 1);
    }
}

/// A sequence whose labels are all positive has no negatives at all: the
/// very situation in which the ROC ratios lose their denominator.
pub proof fn lemma_all_positive_no_negatives(s: Seq<Observation>)
    requires
        forall|i: int| 0 <= i < s.len() ==> (#[trigger] s[i]).pos,
    ensures
        count_neg(s) == 0,
        count_pos(s) == s.len(),
    decreases s.len(),
{
    if s.len() > 0 {
        lemma_all_positive_no_negatives(s.drop_last());
    }
}

/// Builds the threshold sweep of `obs`, which must be sorted by
/// non-increasing score (reflected in the `tied` flags).  A single pass keeps
/// running counts and, at each observation whose score breaks the tie with
/// the previous one, emits the counts gathered so far with the previous
/// observation's index as threshold; a final point always flushes the last
/// group.  An empty input is refused.
pub fn get_fps_tps(obs: &Vec<Observation>) -> (r: Result<Sweep, MetricError>)
    ensures
        match r {
            Ok(sw) => obs@.len() > 0 && sweep_models(sw, spec_sweep(obs@)),
            Err(e) => obs@.len() == 0 && e == MetricError::InvalidInput,
        },
{
    let n = obs.len();
    if n == 0 {
        return Err(MetricError::InvalidInput);
    }
    let mut fps: Vec<usize> = Vec::new();
    let mut tps: Vec<usize> = Vec::new();
    let mut threshold_idxs: Vec<usize> = Vec::new();
    let mut tp: usize = if obs[0].pos {
        1
    } else {
        0
    };
    let mut fp: usize = 1 - tp;
    proof {
        assert(obs@.take(1).drop_last() =~= Seq::<Observation>::empty());
        assert(obs@.take(1).last() == obs@[0]);
        assert(count_pos(Seq::<Observation>::empty()) == 0);
        assert(count_neg(Seq::<Observation>::empty()) == 0);
        assert(count_pos(obs@.take(1)) == if obs@[0].pos {
            1int
        } else {
            0int
        });
        assert(count_neg(obs@.take(1)) == if obs@[0].pos {
            0int
        } else {
            1int
        });
    }
    let mut k: usize = 1;
    while k < n
        invariant
            1 <= k <= n,
            n == obs@.len(),
            tp as int == count_pos(obs@.take(k as int)),
            fp as int == count_neg(obs@.take(k as int)),
            fps@.len() == boundary_points(obs@, k as int).len(),
            tps@.len() == fps@.len(),
            threshold_idxs@.len() == fps@.len(),
            forall|j: int|
                0 <= j < fps@.len() ==> (#[trigger] fps@[j]) as int == boundary_points(
                    obs@,
                    k as int,
                )[j].0,
            forall|j: int|
                0 <= j < fps@.len() ==> (#[trigger] tps@[j]) as int == boundary_points(
                    obs@,
                    k as int,
                )[j].1,
            forall|j: int|
                0 <= j < fps@.len() ==> (#[trigger] threshold_idxs@[j]) as int == boundary_points(
                    obs@,
                    k as int,
                )[j].2,
        decreases n - k,
    {
        proof {
            lemma_count_bounds(obs@.take(k as int));
            assert(obs@.take(k as int).len() == k);
            assert(obs@.take(k as int + 1).drop_last() =~= obs@.take(k as int));
            assert(obs@.take(k as int + 1).last() == obs@[k as int]);
        }
        if !obs[k].tied {
            fps.push(fp);
            tps.push(tp);
            threshold_idxs.push(k - 1);
        }
        if obs[k].pos {
            tp = tp + 1;
        } else {
            fp = fp + 1;
        }
        k = k + 1;
    }
    proof {
        assert(obs@.take(n as int) =~= obs@);
    }
    fps.push(fp);
    tps.push(tp);
    threshold_idxs.push(n - 1);
    Ok(Sweep { fps, tps, threshold_idxs })
}

} // verus!
