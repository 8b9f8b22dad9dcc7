use portfolio_optimizer::covariance::CovarianceMatrix;
use portfolio_optimizer::errors::OptimizerError;
use portfolio_optimizer::frontier::calculate_efficient_frontier;
use portfolio_optimizer::mvp::calcalate_mvp;
use portfolio_optimizer::optimize::optimize_portfolio;
use portfolio_optimizer::rational::Ratio;

fn r(n: i128, d: i128) -> Ratio {
    Ratio::new(n, d).unwrap()
}

fn same(a: &Ratio, b: &Ratio) -> bool {
    a.same_value(b).unwrap()
}

fn matrix(rows: &[&[(i128, i128)]]) -> CovarianceMatrix {
    let entries: Vec<Vec<Ratio>> = rows
        .iter()
        .map(|row| row.iter().map(|&(n, d)| r(n, d)).collect())
        .collect();
    CovarianceMatrix::from_entries(entries).unwrap()
}

fn as_f64(x: &Ratio) -> f64 {
    x.num() as f64 / x.den() as f64
}

#[test]
fn mvp_weights_sum_to_one() {
    let cov = matrix(&[&[(1, 1), (0, 1)], &[(0, 1), (2, 1)]]);
    let w = calcalate_mvp(&cov).unwrap();
    assert_eq!(w.len(), 2);
    let mut sum = Ratio::zero();
    for x in &w {
        sum = sum.add(x).unwrap();
    }
    assert!(same(&sum, &Ratio::one()));
    // inv(C) 1 = [1, 1/2], normalized to [2/3, 1/3].
    assert!(same(&w[0], &r(2, 3)));
    assert!(same(&w[1], &r(1, 3)));
}

#[test]
fn mvp_on_scaled_identity_is_uniform() {
    let z = (0, 1);
    let s = (2, 1);
    let cov = matrix(&[&[s, z, z], &[z, s, z], &[z, z, s]]);
    let w = calcalate_mvp(&cov).unwrap();
    assert_eq!(w.len(), 3);
    for x in &w {
        assert!(same(x, &r(1, 3)));
    }
}

#[test]
fn mvp_rejects_a_singular_matrix() {
    let cov = matrix(&[&[(1, 1), (1, 1)], &[(1, 1), (1, 1)]]);
    let e = calcalate_mvp(&cov).unwrap_err();
    assert!(matches!(e, OptimizerError::SingularCovariance));
}

#[test]
fn optimizer_overflow_is_reported() {
    // Entries with huge, nearly coprime denominators: elimination's exact
    // cross-multiplications leave the 128-bit range.
    let q0 = 1_000_000_000_000_000_003i128;
    let q1 = 1_000_000_000_000_000_009i128;
    let q2 = 1_000_000_000_000_000_031i128;
    let cov = matrix(&[&[(1, q0), (1, q1)], &[(1, q1), (1, q2)]]);
    let e = calcalate_mvp(&cov).unwrap_err();
    assert!(matches!(e, OptimizerError::ArithmeticOverflow));
}

#[test]
fn target_above_every_return_is_infeasible() {
    let cov = matrix(&[&[(1, 100), (0, 1)], &[(0, 1), (1, 100)]]);
    let mu = vec![r(1, 10), r(2, 10)];
    let e = optimize_portfolio(&mu, &cov, &r(1, 1)).unwrap_err();
    assert!(matches!(e, OptimizerError::OptimizationInfeasible));
}

#[test]
fn optimizing_a_singular_matrix_fails() {
    let cov = matrix(&[&[(0, 1), (0, 1)], &[(0, 1), (0, 1)]]);
    let mu = vec![r(1, 10), r(2, 10)];
    let e = optimize_portfolio(&mu, &cov, &r(1, 10)).unwrap_err();
    assert!(matches!(e, OptimizerError::OptimizationFailed));
}

#[test]
fn optimized_point_is_certified() {
    let cov = matrix(&[&[(1, 100), (0, 1)], &[(0, 1), (4, 100)]]);
    let mu = vec![r(5, 100), r(10, 100)];
    let target = r(8, 100);
    let p = optimize_portfolio(&mu, &cov, &target).unwrap();
    // Fully invested.
    let mut sum = Ratio::zero();
    for x in &p.weights {
        sum = sum.add(x).unwrap();
    }
    assert!(same(&sum, &Ratio::one()));
    // Meets the target exactly or better.
    assert!(target.le(&p.achieved_return).unwrap());
    // Return is mu' w.
    let mut ret = Ratio::zero();
    for (x, m) in p.weights.iter().zip(mu.iter()) {
        ret = ret.add(&x.mul(m).unwrap()).unwrap();
    }
    assert!(same(&ret, &p.achieved_return));
    assert!(p.variance.num() >= 0);
}

#[test]
fn low_target_falls_back_to_minimum_variance() {
    let cov = matrix(&[&[(1, 100), (0, 1)], &[(0, 1), (1, 100)]]);
    let mu = vec![r(5, 100), r(10, 100)];
    // The minimum-variance portfolio returns 7.5%, above this target.
    let p = optimize_portfolio(&mu, &cov, &r(1, 100)).unwrap();
    assert!(same(&p.weights[0], &r(1, 2)));
    assert!(same(&p.weights[1], &r(1, 2)));
}

#[test]
fn frontier_sweep_is_monotone_with_nonnegative_risk() {
    let cov = matrix(&[&[(1, 100), (0, 1)], &[(0, 1), (4, 100)]]);
    let mu = vec![r(5, 100), r(10, 100)];
    let frontier = calculate_efficient_frontier(&mu, &cov, 10).unwrap();
    assert_eq!(frontier.len(), 10);
    for k in 1..frontier.len() {
        let prev = &frontier[k - 1].achieved_return;
        let cur = &frontier[k].achieved_return;
        assert!(prev.le(cur).unwrap());
    }
    for p in &frontier {
        // Risk is sqrt(variance); nonnegative exactly when variance is.
        assert!(p.variance.num() >= 0);
        assert!((as_f64(&p.variance)).sqrt() >= 0.0);
    }
    // The last target is the highest expected return and is met exactly.
    assert!(same(&frontier[9].achieved_return, &r(10, 100)));
}

#[test]
fn frontier_endpoints_span_the_expected_returns() {
    let cov = matrix(&[&[(1, 100), (0, 1)], &[(0, 1), (4, 100)]]);
    let mu = vec![r(5, 100), r(10, 100)];
    let frontier = calculate_efficient_frontier(&mu, &cov, 2).unwrap();
    assert_eq!(frontier.len(), 2);
    // Both endpoints meet their targets: min(mu) and max(mu).
    assert!(r(5, 100).le(&frontier[0].achieved_return).unwrap());
    assert!(r(10, 100).le(&frontier[1].achieved_return).unwrap());
}
