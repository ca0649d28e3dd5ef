use countrs::types::Seconds;
use countrs::types::TimeStamp;
use countrs::Counter;
use countrs::Direction;
use countrs::InvalidDirection;
use countrs::MalformedData;

#[test]
fn text_round_trip_down() {
    let start = 0;
    let end = start + 86400 * 3;

    let counter = Counter::down(Some(Seconds::new(start)), Some(Seconds::new(end)));
    let text = counter.to_text();
    let read_counter = Counter::from_text(&text).unwrap();

    assert_eq!(counter, read_counter)
}

#[test]
fn text_round_trip_up() {
    let start = 0;
    let end = start + 86400 * 3;

    let counter = Counter::up(Some(Seconds::new(start)), Some(Seconds::new(end)));
    let text = counter.to_text();
    let read_counter = Counter::from_text(&text).unwrap();

    assert_eq!(counter, read_counter)
}

#[test]
fn text_round_trip_law_holds_for_timestamps() {
    let counter = Counter::down(
        Some(TimeStamp::from_unix_seconds(1431648000)),
        Some(TimeStamp::from_unix_seconds(1431648000 + 600)),
    );
    assert_eq!(counter.text_round_trip().unwrap(), counter);
}

#[test]
fn to_text_is_three_lines() {
    let counter = Counter::up(Some(Seconds::new(-3)), Some(Seconds::new(8)));
    assert_eq!(counter.to_text(), "-3\n8\nUp");
}

#[test]
fn corrupted_direction_is_rejected() {
    let read = Counter::<Seconds>::from_text("1\n2\nSideways");
    assert_eq!(read, Err(MalformedData::InvalidDirection));
}

#[test]
fn lowercase_direction_is_rejected() {
    let read = Counter::<Seconds>::from_text("1\n2\nup");
    assert_eq!(read, Err(MalformedData::InvalidDirection));
}

#[test]
fn missing_fields_are_rejected() {
    assert_eq!(Counter::<Seconds>::from_text(""), Err(MalformedData::MissingFields));
    assert_eq!(Counter::<Seconds>::from_text("10"), Err(MalformedData::MissingFields));
    assert_eq!(Counter::<Seconds>::from_text("10\n20"), Err(MalformedData::MissingFields));
}

#[test]
fn malformed_start_is_rejected() {
    assert_eq!(Counter::<Seconds>::from_text("ten\n20\nUp"), Err(MalformedData::InvalidStart));
}

#[test]
fn malformed_end_is_rejected() {
    assert_eq!(Counter::<Seconds>::from_text("10\n\nUp"), Err(MalformedData::InvalidEnd));
}

#[test]
fn extra_trailing_fields_are_ignored() {
    let read = Counter::<Seconds>::from_text("10\n20\nUp\nleftover\nlines").unwrap();
    let expected = Counter::up(Some(Seconds::new(10)), Some(Seconds::new(20)));
    assert_eq!(read, expected);
}

#[test]
fn direction_tokens_are_exact() {
    assert_eq!(Direction::from_str("Up"), Ok(Direction::Up));
    assert_eq!(Direction::from_str("Down"), Ok(Direction::Down));
    assert_eq!(Direction::from_str("UP"), Err(InvalidDirection));
    assert_eq!(Direction::from_str("down"), Err(InvalidDirection));
    assert_eq!(Direction::from_str(""), Err(InvalidDirection));
    assert_eq!(Direction::Up.as_str(), "Up");
    assert_eq!(Direction::Down.as_str(), "Down");
}
