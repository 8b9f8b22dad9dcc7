use portfolio_optimizer::rational::Ratio;

fn r(n: i128, d: i128) -> Ratio {
    Ratio::new(n, d).unwrap()
}

fn same(a: &Ratio, b: &Ratio) -> bool {
    a.same_value(b).unwrap()
}

#[test]
fn construction_reduces_fractions() {
    let half = r(2, 4);
    assert_eq!(half.num(), 1);
    assert_eq!(half.den(), 2);
    assert!(same(&half, &r(1, 2)));
}

#[test]
fn denominators_stay_positive() {
    let q = r(3, -6);
    assert_eq!(q.num(), -1);
    assert_eq!(q.den(), 2);
}

#[test]
fn zero_denominator_is_rejected() {
    assert!(Ratio::new(1, 0).is_none());
}

#[test]
fn arithmetic_is_exact() {
    let a = r(1, 3);
    let b = r(1, 6);
    let sum = a.add(&b).unwrap();
    assert!(same(&sum, &r(1, 2)));
    let diff = a.sub(&b).unwrap();
    assert!(same(&diff, &r(1, 6)));
    let prod = a.mul(&b).unwrap();
    assert!(same(&prod, &r(1, 18)));
    let quot = a.div(&b).unwrap();
    assert!(same(&quot, &r(2, 1)));
}

#[test]
fn division_by_zero_is_rejected() {
    let a = r(1, 3);
    assert!(a.div(&Ratio::zero()).is_none());
}

#[test]
fn ordering_is_exact() {
    assert!(r(1, 3).lt(&r(1, 2)).unwrap());
    assert!(!r(1, 2).lt(&r(1, 2)).unwrap());
    assert!(r(1, 2).le(&r(1, 2)).unwrap());
    assert!(r(-1, 2).le(&r(1, 1000000)).unwrap());
}

#[test]
fn overflow_is_reported_not_wrapped() {
    let big = Ratio::new(i128::MAX - 1, 1).unwrap();
    assert!(big.add(&big).is_none());
    assert!(big.mul(&big).is_none());
}
