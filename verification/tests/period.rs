use ci_report::period::{choose_second, period_day, range, DAYS, DEFAULT_PERIOD, HOUR, MINUTE};

#[test]
fn a_given_day_is_kept() {
    assert_eq!(period_day(Some("2025-04-01"), 0), Some("2025-04-01".to_string()));
    assert_eq!(period_day(Some("2024-02-29"), 0), Some("2024-02-29".to_string()));
    assert_eq!(period_day(Some("1969-12-31"), 0), Some("1969-12-31".to_string()));
}

#[test]
fn without_a_day_the_fallback_decides() {
    assert_eq!(period_day(None, 0), Some("1970-01-01".to_string()));
    assert_eq!(period_day(None, 86_399), Some("1970-01-01".to_string()));
    assert_eq!(period_day(None, 86_400), Some("1970-01-02".to_string()));
    assert_eq!(period_day(None, 1_746_057_600), Some("2025-05-01".to_string()));
    assert_eq!(period_day(None, -1), Some("1969-12-31".to_string()));
}

#[test]
fn what_is_no_day_gives_way_to_the_fallback() {
    assert_eq!(period_day(Some("yesterday"), 86_400), Some("1970-01-02".to_string()));
    assert_eq!(period_day(Some("2025-02-30"), 86_400), Some("1970-01-02".to_string()));
    assert_eq!(period_day(Some("2025-04-01T00:00:00"), 86_400), Some("1970-01-02".to_string()));
    assert_eq!(period_day(Some(""), 86_400), Some("1970-01-02".to_string()));
}

#[test]
fn an_instant_out_of_range_has_no_day() {
    assert_eq!(period_day(None, i64::MAX), None);
    assert_eq!(period_day(None, i64::MIN), None);
    assert_eq!(period_day(Some("2025-04-01"), i64::MAX), Some("2025-04-01".to_string()));
}

#[test]
fn the_instant_that_was_read_is_chosen() {
    assert_eq!(choose_second(Some(5), 7), 5);
    assert_eq!(choose_second(None, 7), 7);
}

#[test]
fn the_range_joins_the_days_with_two_dots() {
    assert_eq!(range("2025-04-01", "2025-05-01"), "2025-04-01..2025-05-01");
    assert_eq!(range("", ""), "..");
}

#[test]
fn the_default_period_is_thirty_days() {
    assert_eq!(MINUTE, 60);
    assert_eq!(HOUR, 3_600);
    assert_eq!(DAYS, 86_400);
    assert_eq!(DEFAULT_PERIOD, 2_592_000);
}
