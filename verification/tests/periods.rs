use portfolio_optimizer::periods::{Interval, PeriodError, Range};

#[test]
fn test_range_validation() {
    assert!(Range::Year5.is_valid_interval(Interval::Day1));
    assert!(!Range::Year5.is_valid_interval(Interval::Minute1));
}

#[test]
fn test_string_conversion() {
    assert_eq!(Range::Year5.as_str(), "5y");
    assert_eq!(Interval::Minute15.as_str(), "15m");
    assert_eq!(Range::from_str("1mo"), Ok(Range::Month1));
    assert_eq!(Interval::from_str("1h"), Ok(Interval::Hour1));
}

#[test]
fn unknown_range_string_is_reported() {
    assert_eq!(
        Range::from_str("fortnight"),
        Err(PeriodError::UnknownRange("fortnight".to_string()))
    );
}

#[test]
fn unknown_interval_string_is_reported() {
    assert_eq!(
        Interval::from_str("7m"),
        Err(PeriodError::UnknownInterval("7m".to_string()))
    );
}

#[test]
fn every_range_string_round_trips() {
    let ranges = [
        Range::Day1,
        Range::Month1,
        Range::Month3,
        Range::Month6,
        Range::Year1,
        Range::Year2,
        Range::Year5,
        Range::Year10,
        Range::YearToDate,
        Range::Max,
    ];
    for r in ranges {
        assert_eq!(Range::from_str(r.as_str()), Ok(r));
    }
}

#[test]
fn every_interval_string_round_trips() {
    let intervals = [
        Interval::Minute1,
        Interval::Minute2,
        Interval::Minute3,
        Interval::Minute5,
        Interval::Minute15,
        Interval::Minute30,
        Interval::Minute90,
        Interval::Hour1,
        Interval::Day1,
        Interval::Day5,
        Interval::Week1,
        Interval::Month1,
        Interval::Month3,
    ];
    for i in intervals {
        assert_eq!(Interval::from_str(i.as_str()), Ok(i));
    }
}

#[test]
fn day_range_admits_minute_intervals() {
    assert!(Range::Day1.is_valid_interval(Interval::Minute1));
    assert!(Range::Month1.is_valid_interval(Interval::Minute3));
    assert!(!Range::Month1.is_valid_interval(Interval::Minute1));
}
