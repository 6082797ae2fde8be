use metricslib::MetricError;
use metricslib::metric::get_auroc_fraction;
use metricslib::metric::get_double_area;
use metricslib::metric::get_error_count;
use metricslib::metric::get_prc_curve;
use metricslib::sweep::Observation;
use metricslib::sweep::get_fps_tps;

const EPSILON: f32 = 1e-8;

fn is_zero(a: f32) -> bool {
    -EPSILON <= a && a <= EPSILON
}

fn sorted_scores_labels() -> Vec<(f32, f32)> {
    let scores = vec![
        -0.20078777, 0.30424058, 0.20106318, 0.27524034, 0.42593626, -0.15043766, -0.08794325,
        -0.127333, 0.22931613, -0.23913315, -0.06385956, -0.14958104, -0.04914672, 0.09898447,
        0.05156366, -0.11429083, 0.18900161, 0.04871914, -0.08257976, -0.2610529, 0.24693203,
        -0.18318166, -0.38384888, 0.26336977, 0.12585524, -0.03990992, 0.39424863, 0.42411777,
        -0.47904305, -0.30528804, -0.09281708, 0.01213704, -0.20204097, 0.401491, -0.0453569,
        0.12179294, 0.06494036, -0.07007126, 0.00329292, -0.39635519, 0.02619553, 0.20018893,
        0.06502325, 0.49589744, -0.28221727, 0.31364864, 0.19062428, 0.11549715, 0.031461,
        0.22408891,
    ];
    let labels: Vec<f32> = vec![
        1.0, 1.0, 1.0, 1.0, 1.0, 0.0, 1.0, 0.0, 1.0, 0.0, 0.0, 1.0, 0.0, 0.0, 1.0, 0.0, 0.0, 0.0,
        1.0, 0.0, 1.0, 0.0, 0.0, 1.0, 1.0, 1.0, 1.0, 1.0, 0.0, 0.0, 0.0, 1.0, 0.0, 1.0, 0.0, 1.0,
        0.0, 0.0, 0.0, 0.0, 1.0, 1.0, 1.0, 1.0, 0.0, 1.0, 1.0, 0.0, 1.0, 0.0,
    ];
    let labels: Vec<f32> = labels.into_iter().map(|t| 2.0 * t - 1.0).collect();
    let mut scores_labels: Vec<(f32, f32)> = scores.into_iter().zip(labels.into_iter()).collect();
    scores_labels.sort_by(|a, b| a.0.partial_cmp(&b.0).unwrap().reverse());
    scores_labels
}

fn observations(sorted: &[(f32, f32)]) -> Vec<Observation> {
    let mut obs = Vec::new();
    let mut last_score = 0.0f32;
    for (i, &(score, label)) in sorted.iter().enumerate() {
        let pos = is_zero(label - 1.0);
        let tied = i > 0 && is_zero(score - last_score);
        obs.push(Observation { pos, tied });
        last_score = score;
    }
    obs
}

#[test]
fn test_error_rate() {
    let data = sorted_scores_labels();
    let misses: Vec<bool> = data.iter().map(|&(s, l)| s * l <= 1e-8).collect();
    let count = get_error_count(&misses).unwrap();
    assert_eq!(count, 12);
    let rate = (count as f32) / (data.len() as f32);
    assert!(is_zero(rate - 0.24));
}

#[test]
fn test_auroc() {
    let data = sorted_scores_labels();
    let obs = observations(&data);
    let f = get_auroc_fraction(&obs).unwrap();
    let value = (f.num as f64) / (f.den as f64);
    assert!((value - 0.8509615384615384).abs() < 1e-6);
}

#[test]
fn test_auprc() {
    let data = sorted_scores_labels();
    let obs = observations(&data);
    let curve = get_prc_curve(&obs).unwrap();
    let num_positive = curve.num_positive as f64;
    let precision: Vec<f64> =
        curve.points.iter().map(|&(tp, support)| (tp as f64) / (support as f64)).collect();
    let recall: Vec<f64> =
        curve.points.iter().map(|&(tp, _)| (tp as f64) / num_positive).collect();
    let mut area = precision[0] * recall[0];
    let mut trapezoid = 0.0;
    for k in 1..precision.len() {
        trapezoid += (recall[k] - recall[k - 1]) * (precision[k - 1] + precision[k]);
    }
    area += trapezoid / 2.0;
    assert!((area - 0.8759296479267399).abs() < 1e-6);
}

#[test]
fn test_sweep_fixture_counts() {
    let data = sorted_scores_labels();
    let obs = observations(&data);
    let total_pos = obs.iter().filter(|o| o.pos).count();
    let total_neg = obs.len() - total_pos;
    let sw = get_fps_tps(&obs).unwrap();
    // all 50 scores are distinct: one sweep point per observation
    assert_eq!(sw.fps.len(), 50);
    assert_eq!(sw.tps.len(), 50);
    assert_eq!(sw.threshold_idxs.len(), 50);
    for j in 1..sw.fps.len() {
        assert!(sw.fps[j - 1] <= sw.fps[j]);
        assert!(sw.tps[j - 1] <= sw.tps[j]);
    }
    assert_eq!(*sw.fps.last().unwrap(), total_neg);
    assert_eq!(*sw.tps.last().unwrap(), total_pos);
}

#[test]
fn test_sweep_small_exact() {
    // scores 3, 2, 2, 1 with labels +1, -1, +1, +1
    let obs = vec![
        Observation { pos: true, tied: false },
        Observation { pos: false, tied: false },
        Observation { pos: true, tied: true },
        Observation { pos: true, tied: false },
    ];
    let sw = get_fps_tps(&obs).unwrap();
    assert_eq!(sw.fps, vec![0, 1, 1]);
    assert_eq!(sw.tps, vec![1, 2, 3]);
    assert_eq!(sw.threshold_idxs, vec![0, 2, 3]);
}

#[test]
fn test_single_observation() {
    let obs = vec![Observation { pos: true, tied: false }];
    let sw = get_fps_tps(&obs).unwrap();
    assert_eq!(sw.fps, vec![0]);
    assert_eq!(sw.tps, vec![1]);
    assert_eq!(sw.threshold_idxs, vec![0]);
    // a one-point curve spans no trapezoidal area: only the first segment is left
    assert_eq!(get_double_area(&vec![(0, 1)]), 0);
}

#[test]
fn test_all_tied_scores() {
    // four observations sharing one score: a single sweep point with the totals
    let obs = vec![
        Observation { pos: true, tied: false },
        Observation { pos: false, tied: true },
        Observation { pos: true, tied: true },
        Observation { pos: false, tied: true },
    ];
    let sw = get_fps_tps(&obs).unwrap();
    assert_eq!(sw.fps, vec![2]);
    assert_eq!(sw.tps, vec![2]);
    assert_eq!(sw.threshold_idxs, vec![3]);
    // the ROC area reduces to its first-segment triangle: exactly one half
    let f = get_auroc_fraction(&obs).unwrap();
    assert_eq!(f.num, 2 * 2);
    assert_eq!(f.den, 2 * 2 * 2);
    assert_eq!(2 * f.num, f.den);
}

#[test]
fn test_rescaling_scores() {
    // ranking metrics do not move when every score is scaled by a positive factor
    let data = sorted_scores_labels();
    let scaled: Vec<(f32, f32)> = data.iter().map(|&(s, l)| (3.0 * s, l)).collect();
    let f1 = get_auroc_fraction(&observations(&data)).unwrap();
    let f2 = get_auroc_fraction(&observations(&scaled)).unwrap();
    assert_eq!(f1.num, f2.num);
    assert_eq!(f1.den, f2.den);
}

#[test]
fn test_permutation_invariance() {
    // error counting ignores the order of the observations
    let data = sorted_scores_labels();
    let misses: Vec<bool> = data.iter().map(|&(s, l)| s * l <= 1e-8).collect();
    let mut reversed = misses.clone();
    reversed.reverse();
    assert_eq!(get_error_count(&misses).unwrap(), get_error_count(&reversed).unwrap());
}

#[test]
fn test_empty_input_refused() {
    assert!(matches!(get_fps_tps(&vec![]), Err(MetricError::InvalidInput)));
    assert!(matches!(get_error_count(&vec![]), Err(MetricError::InvalidInput)));
    assert!(matches!(get_auroc_fraction(&vec![]), Err(MetricError::InvalidInput)));
}

#[test]
fn test_degenerate_all_negative() {
    let obs = vec![
        Observation { pos: false, tied: false },
        Observation { pos: false, tied: false },
    ];
    assert!(matches!(get_auroc_fraction(&obs), Err(MetricError::DegenerateInput)));
    assert!(matches!(get_prc_curve(&obs), Err(MetricError::DegenerateInput)));
}

#[test]
fn test_degenerate_all_positive() {
    let obs = vec![
        Observation { pos: true, tied: false },
        Observation { pos: true, tied: false },
        Observation { pos: true, tied: false },
    ];
    assert!(matches!(get_auroc_fraction(&obs), Err(MetricError::DegenerateInput)));
}

#[test]
fn test_double_area_exact() {
    // (1 - 0) * (0 + 2) + (3 - 1) * (2 + 4) = 14
    let points = vec![(0, 0), (1, 2), (3, 4)];
    assert_eq!(get_double_area(&points), 14);
}
