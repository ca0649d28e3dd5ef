use countrs::types::Duration;
use countrs::InvalidDirection;
use countrs::MalformedData;
use countrs::TimeOverflow;
use countrs::TimeParserError;
use countrs::TimeUnits;

#[test]
fn spans_convert_units_to_seconds() {
    assert_eq!(Duration::seconds(5).num_seconds(), 5);
    assert_eq!(Duration::seconds(-5).num_seconds(), -5);
    assert_eq!(Duration::minutes(2).num_seconds(), 120);
    assert_eq!(Duration::hours(3).num_seconds(), 10800);
    assert_eq!(Duration::days(20).num_seconds(), 1728000);
    assert_eq!(Duration::weeks(1).num_seconds(), 604800);
}

#[test]
fn spans_are_lossless_over_seconds() {
    for n in [i64::MIN, -1, 0, 1, 86400, i64::MAX] {
        assert_eq!(Duration::seconds(n).num_seconds(), n);
    }
}

#[test]
fn spans_convert_from_bare_integers() {
    let span: Duration = 90.into();
    assert_eq!(span.num_seconds(), 90);
    assert_eq!(Duration::from(-90), Duration::seconds(-90));
}

#[test]
fn error_messages_name_the_failure() {
    assert_eq!(InvalidDirection.message(), "InvalidDirection");
    assert_eq!(TimeParserError.message(), "Tried to parse invalid time string");
    assert_eq!(TimeOverflow.message(), "Time could not be added due to an overflow");
    assert_eq!(MalformedData::MissingFields.message(), "File does not contain valid counter data");
    assert_eq!(MalformedData::InvalidStart.message(), "File does not contain valid start data");
    assert_eq!(MalformedData::InvalidEnd.message(), "File does not contain valid end data");
    assert_eq!(
        MalformedData::InvalidDirection.message(),
        "File does not contain valid direction data"
    );
}
