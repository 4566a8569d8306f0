use minesweeper::time_span::TimeSpan;
use std::time::Duration;

#[test]
fn duration_to_time_span() {
    let value1 = TimeSpan { duration: 1000000 }; // 100 ms
    let value2 = TimeSpan::from(Duration::from_millis(100));
    assert_eq!(value1, value2);

    let value1 = TimeSpan { duration: 50000000 }; // 5 seconds
    let value2 = TimeSpan::from(Duration::from_secs(5));
    assert_eq!(value1, value2);
}

#[test]
fn whole_milliseconds_only() {
    assert_eq!(TimeSpan::from(Duration::from_micros(1999)), TimeSpan { duration: 10000 });
    assert_eq!(TimeSpan::from(Duration::from_nanos(999_999)), TimeSpan { duration: 0 });
}

#[test]
fn checked_conversion_agrees_where_it_fits() {
    assert_eq!(
        TimeSpan::checked_from(Duration::from_millis(600)),
        Some(TimeSpan { duration: 6_000_000 })
    );
    assert_eq!(TimeSpan::checked_from(Duration::from_millis(0)), Some(TimeSpan { duration: 0 }));
}

#[test]
fn checked_conversion_at_the_limit() {
    let most = 922_337_203_685_477u64;
    assert_eq!(
        TimeSpan::checked_from(Duration::from_millis(most)),
        Some(TimeSpan { duration: 9_223_372_036_854_770_000 })
    );
    assert_eq!(TimeSpan::checked_from(Duration::from_millis(most + 1)), None);
    assert_eq!(TimeSpan::checked_from(Duration::from_secs(u64::MAX)), None);
}
