use ingest_csv::dates::{parse_date_field, Timestamp};
use ingest_csv::errors::LoadError;

#[test]
fn blank_date_falls_back_to_epoch_sentinel() {
    let t = parse_date_field("").unwrap();
    assert_eq!(
        t,
        Timestamp { year: 1970, month: 1, day: 1, hour: 19, minute: 0, second: 0 }
    );
}

#[test]
fn valid_date_parses_at_nineteen_hundred_hours() {
    let t = parse_date_field("2020-07-04").unwrap();
    assert_eq!(
        t,
        Timestamp { year: 2020, month: 7, day: 4, hour: 19, minute: 0, second: 0 }
    );
}

#[test]
fn leap_day_rules_are_checked() {
    assert!(parse_date_field("2020-02-29").is_ok());
    assert_eq!(parse_date_field("2019-02-29").unwrap_err(), LoadError::FieldParse);
    assert!(parse_date_field("2000-02-29").is_ok());
    assert_eq!(parse_date_field("1900-02-29").unwrap_err(), LoadError::FieldParse);
}

#[test]
fn malformed_dates_fail_the_field() {
    assert!(parse_date_field("not-a-date").is_err());
    assert!(parse_date_field("2020-13-01").is_err());
    assert!(parse_date_field("2020-00-10").is_err());
    assert!(parse_date_field("2020-04-31").is_err());
    assert!(parse_date_field("2020-1-01").is_err());
    assert!(parse_date_field("2020-01-01 ").is_err());
}
