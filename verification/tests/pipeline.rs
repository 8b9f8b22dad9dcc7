use portfolio_optimizer::covariance::{calculate_covariance_matrix, Engine};
use portfolio_optimizer::errors::CovarianceError;
use portfolio_optimizer::filter::filter_price_map;
use portfolio_optimizer::rational::Ratio;
use portfolio_optimizer::series::{
    calculate_expected_returns, calculate_simple_returns, PriceSeries,
};

fn r(n: i128, d: i128) -> Ratio {
    Ratio::new(n, d).unwrap()
}

fn same(a: &Ratio, b: &Ratio) -> bool {
    a.same_value(b).unwrap()
}

fn series(symbol: &str, prices: &[(i128, i128)]) -> PriceSeries {
    PriceSeries {
        symbol: symbol.to_string(),
        prices: prices.iter().map(|&(n, d)| r(n, d)).collect(),
    }
}

fn as_f64(x: &Ratio) -> f64 {
    x.num() as f64 / x.den() as f64
}

#[test]
fn simple_returns_match_the_formula() {
    let batch = vec![series("A", &[(100, 1), (110, 1), (121, 1)])];
    let rs = calculate_simple_returns(&batch).unwrap();
    assert_eq!(rs.len(), 1);
    assert_eq!(rs[0].symbol, "A");
    assert_eq!(rs[0].returns.len(), 2);
    assert!(same(&rs[0].returns[0], &r(1, 10)));
    assert!(same(&rs[0].returns[1], &r(1, 10)));
    assert!((as_f64(&rs[0].returns[0]) - 0.1).abs() < 1e-12);
}

#[test]
fn short_series_yield_no_returns() {
    let batch = vec![
        series("A", &[(5, 1)]),
        series("B", &[]),
        series("C", &[(1, 1), (2, 1), (3, 1), (4, 1), (5, 1)]),
    ];
    let rs = calculate_simple_returns(&batch).unwrap();
    assert_eq!(rs.len(), 1);
    assert_eq!(rs[0].symbol, "C");
    assert_eq!(rs[0].returns.len(), 4);
}

#[test]
fn zero_price_is_rejected() {
    let batch = vec![series("A", &[(0, 1), (1, 1), (2, 1)])];
    let e = calculate_simple_returns(&batch).unwrap_err();
    assert!(matches!(e, CovarianceError::ZeroPrice));
}

#[test]
fn expected_returns_are_means() {
    let batch = vec![series("A", &[(100, 1), (110, 1), (121, 1)])];
    let m = calculate_expected_returns(&batch).unwrap();
    assert_eq!(m.len(), 1);
    assert_eq!(m[0].0, "A");
    assert!(same(&m[0].1, &r(1, 10)));
}

#[test]
fn expected_returns_overflow_is_reported() {
    let huge = i128::MAX - 1;
    let batch = vec![series("A", &[(1, 1), (huge, 1), (1, 1)])];
    let e = calculate_expected_returns(&batch).unwrap_err();
    assert!(matches!(e, CovarianceError::ArithmeticOverflow));
}

#[test]
fn single_asset_fails_covariance() {
    let batch = vec![series("A", &[(1, 1), (2, 1), (3, 1)])];
    let e = calculate_covariance_matrix(&batch, Engine::Reference).unwrap_err();
    assert!(matches!(e, CovarianceError::InsufficientObservations));
}

#[test]
fn uneven_series_fail_covariance() {
    let batch = vec![
        series("A", &[(1, 1), (2, 1), (3, 1)]),
        series("B", &[(1, 1), (2, 1), (3, 1), (4, 1)]),
    ];
    let e = calculate_covariance_matrix(&batch, Engine::Parallel).unwrap_err();
    assert!(matches!(e, CovarianceError::UnevenSampleLength));
}

#[test]
fn one_return_per_asset_is_too_few_samples() {
    let batch = vec![
        series("A", &[(1, 1), (2, 1)]),
        series("B", &[(2, 1), (3, 1)]),
    ];
    let e = calculate_covariance_matrix(&batch, Engine::Reference).unwrap_err();
    assert!(matches!(e, CovarianceError::InsufficientSamples));
}

#[test]
fn covariance_has_the_textbook_values() {
    // Returns: A -> [1, 1] (deviations zero), B -> [2, -1/2] from prices.
    let batch = vec![
        series("A", &[(1, 1), (2, 1), (4, 1)]),
        series("B", &[(1, 1), (3, 1), (3, 2)]),
    ];
    let c = calculate_covariance_matrix(&batch, Engine::Reference).unwrap();
    assert_eq!(c.n_assets, 2);
    // A's returns are constant, so every covariance with A is zero.
    assert!(same(&c.entry(0, 0), &Ratio::zero()));
    assert!(same(&c.entry(0, 1), &Ratio::zero()));
    // B's returns are [2, -1/2]: mean 3/4, deviations [5/4, -5/4],
    // unbiased variance (25/16 + 25/16) / 1 = 25/8.
    assert!(same(&c.entry(1, 1), &r(25, 8)));
}

#[test]
fn backends_agree_exactly() {
    let batch = vec![
        series("A", &[(100, 1), (110, 1), (121, 1), (133, 1)]),
        series("B", &[(50, 1), (55, 1), (52, 1), (61, 1)]),
        series("C", &[(10, 1), (9, 1), (11, 1), (12, 1)]),
    ];
    let a = calculate_covariance_matrix(&batch, Engine::Reference).unwrap();
    let b = calculate_covariance_matrix(&batch, Engine::Parallel).unwrap();
    assert_eq!(a.n_assets, b.n_assets);
    for i in 0..a.n_assets {
        for j in 0..a.n_assets {
            assert!(same(&a.entry(i, j), &b.entry(i, j)));
        }
    }
}

#[test]
fn covariance_is_bit_for_bit_symmetric() {
    let batch = vec![
        series("A", &[(100, 1), (110, 1), (121, 1), (133, 1)]),
        series("B", &[(50, 1), (55, 1), (52, 1), (61, 1)]),
        series("C", &[(10, 1), (9, 1), (11, 1), (12, 1)]),
    ];
    for engine in [Engine::Reference, Engine::Parallel] {
        let c = calculate_covariance_matrix(&batch, engine).unwrap();
        for i in 0..c.n_assets {
            for j in 0..c.n_assets {
                // Derived structural equality: identical fractions, not
                // merely equal values.
                assert_eq!(c.entry(i, j), c.entry(j, i));
            }
        }
    }
}

#[test]
fn duplicate_symbols_collapse_to_one_asset() {
    let batch = vec![
        series("A", &[(100, 1), (110, 1), (121, 1)]),
        series("B", &[(50, 1), (55, 1), (60, 1)]),
        series("A", &[(10, 1), (20, 1), (40, 1)]),
    ];
    let rs = calculate_simple_returns(&batch).unwrap();
    // One series per distinct symbol, at the first occurrence's position,
    // with the last occurrence's prices.
    assert_eq!(rs.len(), 2);
    assert_eq!(rs[0].symbol, "A");
    assert_eq!(rs[1].symbol, "B");
    assert!(same(&rs[0].returns[0], &r(1, 1)));
    assert!(same(&rs[0].returns[1], &r(1, 1)));
}

#[test]
fn later_occurrence_overrides_a_zero_price() {
    let batch = vec![
        series("A", &[(0, 1), (1, 1), (2, 1)]),
        series("A", &[(1, 1), (2, 1), (4, 1)]),
    ];
    let rs = calculate_simple_returns(&batch).unwrap();
    assert_eq!(rs.len(), 1);
    assert!(same(&rs[0].returns[0], &r(1, 1)));
    assert!(same(&rs[0].returns[1], &r(1, 1)));
}

#[test]
fn duplicate_symbols_count_as_one_asset_for_covariance() {
    let batch = vec![
        series("A", &[(1, 1), (2, 1), (3, 1)]),
        series("A", &[(2, 1), (3, 1), (4, 1)]),
    ];
    let e = calculate_covariance_matrix(&batch, Engine::Reference).unwrap_err();
    assert!(matches!(e, CovarianceError::InsufficientObservations));
}

#[test]
fn filtering_keeps_only_named_symbols() {
    let batch = vec![
        series("A", &[(1, 1), (2, 1)]),
        series("B", &[(3, 1), (4, 1)]),
        series("C", &[(5, 1), (6, 1)]),
    ];
    let symbols = vec!["C".to_string(), "A".to_string()];
    let kept = filter_price_map(&symbols, batch);
    assert_eq!(kept.len(), 2);
    assert_eq!(kept[0].symbol, "A");
    assert_eq!(kept[1].symbol, "C");
}
