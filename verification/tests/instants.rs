use countrs::times::render_parse_round_trip;
use countrs::types::Duration;
use countrs::types::Seconds;
use countrs::types::TimeStamp;
use countrs::types::SECONDS_MAX;
use countrs::types::TIMESTAMP_MAX;
use countrs::types::TIMESTAMP_MIN;
use countrs::Counter;
use countrs::Time;
use countrs::TimeOverflow;
use countrs::TimeParserError;
use countrs::TimeUnits;

#[test]
fn timestamp_renders_calendar_text() {
    let epoch = TimeStamp::from_unix_seconds(0);
    assert_eq!(epoch.render(), "1970-01-01T00:00:00+00:00");
    let sample = TimeStamp::from_unix_seconds(1431648000);
    assert_eq!(sample.render(), "2015-05-15T00:00:00+00:00");
}

#[test]
fn timestamp_parses_calendar_text() {
    let parsed = TimeStamp::parse("2015-05-15T00:00:00+00:00").unwrap();
    assert_eq!(parsed.unix_seconds(), 1431648000);
    let epoch = TimeStamp::parse("1970-01-01T00:00:00+00:00").unwrap();
    assert_eq!(epoch.unix_seconds(), 0);
}

#[test]
fn timestamp_rejects_malformed_text() {
    assert_eq!(TimeStamp::parse("yesterday"), Err(TimeParserError));
    assert_eq!(TimeStamp::parse("2015-13-40T00:00:00+00:00"), Err(TimeParserError));
    assert_eq!(TimeStamp::parse(""), Err(TimeParserError));
}

#[test]
fn timestamp_round_trips_at_the_range_edges() {
    for secs in [TIMESTAMP_MIN, -1, 0, 1, 951786245, TIMESTAMP_MAX] {
        let stamp = TimeStamp::from_unix_seconds(secs);
        let reread = TimeStamp::parse(&stamp.render()).unwrap();
        assert_eq!(reread, stamp);
    }
}

#[test]
fn timestamp_now_round_trips() {
    let now = TimeStamp::now();
    let reread = TimeStamp::parse(&now.render()).unwrap();
    assert_eq!(reread, now);
}

#[test]
fn timestamp_overflow_leaves_start_untouched() {
    let start = TimeStamp::from_unix_seconds(0);
    let mut counter = Counter::up(Some(start), None);
    let moved = counter.try_move_start(Duration::seconds(i64::MAX));
    assert_eq!(moved, Err(TimeOverflow));
    assert_eq!(counter.start, start);
    assert_eq!(counter.start.unix_seconds(), 0);
}

#[test]
fn timestamp_move_past_final_year_overflows() {
    let mut counter = Counter::down(None, Some(TimeStamp::from_unix_seconds(TIMESTAMP_MAX)));
    let moved = counter.try_move_end(Duration::seconds(1));
    assert_eq!(moved, Err(TimeOverflow));
    assert_eq!(counter.end.unix_seconds(), TIMESTAMP_MAX);
    counter.try_move_end(Duration::seconds(-1)).unwrap();
    assert_eq!(counter.end.unix_seconds(), TIMESTAMP_MAX - 1);
}

#[test]
fn seconds_render_is_decimal() {
    assert_eq!(Seconds::new(-10).render(), "-10");
    assert_eq!(Seconds::new(0).render(), "0");
    assert_eq!(Seconds::new(86400).render(), "86400");
}

#[test]
fn seconds_parse_is_decimal() {
    assert_eq!(Seconds::parse("-10").unwrap(), Seconds::new(-10));
    assert_eq!(Seconds::parse("007").unwrap(), Seconds::new(7));
    assert_eq!(Seconds::parse("+5").unwrap(), Seconds::new(5));
    assert_eq!(Seconds::parse("ten"), Err(TimeParserError));
    assert_eq!(Seconds::parse(""), Err(TimeParserError));
    assert_eq!(Seconds::parse("-"), Err(TimeParserError));
    assert_eq!(Seconds::parse("12 "), Err(TimeParserError));
    assert_eq!(Seconds::parse("9223372036854775807"), Err(TimeParserError));
}

#[test]
fn seconds_overflow_leaves_start_untouched() {
    let mut counter = Counter::up(Some(Seconds::new(5)), None);
    let moved = counter.try_move_start(Duration::seconds(SECONDS_MAX));
    assert_eq!(moved, Err(TimeOverflow));
    assert_eq!(counter.start.value(), 5);
}

#[test]
fn render_parse_round_trip_law_holds() {
    assert_eq!(render_parse_round_trip(&Seconds::new(42)), Ok(Seconds::new(42)));
    let stamp = TimeStamp::from_unix_seconds(-62135596800);
    assert_eq!(render_parse_round_trip(&stamp), Ok(stamp));
}

#[test]
fn default_instants_are_the_origin() {
    assert_eq!(Seconds::default_value(), Seconds::new(0));
    assert_eq!(TimeStamp::default_value(), TimeStamp::from_unix_seconds(0));
    let counter = Counter::<Seconds>::down(None, None);
    assert_eq!(counter.start, Seconds::new(0));
    assert_eq!(counter.end, Seconds::new(0));
}
