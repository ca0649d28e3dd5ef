use countrs::types::Duration;
use countrs::types::Seconds;
use countrs::Counter;
use countrs::Time;
use countrs::TimeUnits;

#[test]
fn seconds_since() {
    let counter = Counter::up(Some(Seconds::new(-10)), None);
    assert_eq!(counter.clock_string(), "00:00:10")
}

#[test]
fn seconds_until() {
    let counter = Counter::down(None, Some(Seconds::new(10)));
    assert_eq!(counter.clock_string(), "00:00:10")
}

#[test]
fn minutes_since() {
    let counter = Counter::up(Some(Seconds::new(-60 * 10)), None);
    assert_eq!(counter.clock_string(), "00:10:00")
}

#[test]
fn minutes_until() {
    let counter = Counter::down(None, Some(Seconds::new(60 * 10)));
    assert_eq!(counter.clock_string(), "00:10:00")
}

#[test]
fn hours_since() {
    let counter = Counter::up(Some(Seconds::new(-3600 * 10)), None);
    assert_eq!(counter.clock_string(), "10:00:00")
}

#[test]
fn hours_until() {
    let counter = Counter::down(None, Some(Seconds::new(3600 * 10)));
    assert_eq!(counter.clock_string(), "10:00:00")
}

#[test]
fn days_since() {
    let counter = Counter::up(Some(Seconds::new(-86400 * 10)), None);
    assert_eq!(counter.clock_string(), "240:00:00")
}

#[test]
fn days_until() {
    let counter = Counter::down(None, Some(Seconds::new(86400 * 10)));
    assert_eq!(counter.clock_string(), "240:00:00")
}

#[test]
fn hours_minutes_seconds() {
    let counter = Counter::down(None, Some(Seconds::new(100)));
    assert_eq!(
        counter.clock_string(),
        format!(
            "{:0>2}:{:0>2}:{:0>2}",
            counter.hours(),
            counter.minutes() % 60,
            counter.seconds() % 60,
        )
    )
}

#[test]
fn add_time_to_down() {
    let mut counter = Counter::down(None, Some(Seconds::new(0)));
    counter.try_move_end(Duration::seconds(10)).unwrap();
    assert_eq!(counter.clock_string(), "00:00:10")
}

#[test]
fn remove_time_from_down() {
    let mut counter = Counter::down(None, Some(Seconds::new(20)));
    counter.try_move_end(Duration::seconds(-10)).unwrap();
    assert_eq!(counter.clock_string(), "00:00:10")
}

#[test]
fn remove_time_from_down_past_zero() {
    let mut counter = Counter::down(None, Some(Seconds::new(0)));
    counter.try_move_end(Duration::seconds(-10)).unwrap();
    assert_eq!(counter.clock_string(), "00:00:00")
}

#[test]
fn add_time_to_up() {
    let mut counter = Counter::up(Some(Seconds::new(0)), None);
    counter.try_move_start(Duration::seconds(-10)).unwrap();
    assert_eq!(counter.clock_string(), "00:00:10")
}

#[test]
fn remove_time_from_up() {
    let mut counter = Counter::up(Some(Seconds::new(-20)), None);
    counter.try_move_start(Duration::seconds(10)).unwrap();
    assert_eq!(counter.clock_string(), "00:00:10")
}

#[test]
fn add_time_to_up_past_zero() {
    let mut counter = Counter::up(Some(Seconds::new(0)), None);
    counter.try_move_start(Duration::seconds(10)).unwrap();
    assert_eq!(counter.clock_string(), "00:00:00")
}

#[test]
#[should_panic]
fn too_much_time_causes_overflow() {
    let mut counter = Counter::<Seconds>::up(None, None);
    counter.try_move_start(Duration::seconds(i64::MAX)).unwrap();
    counter.try_move_start(Duration::seconds(1)).unwrap();
}

#[test]
fn flip_up_and_down() {
    let start = -10;
    let end = start + 20;
    let mut counter = Counter::down(Some(Seconds::new(start)), Some(Seconds::new(end)));
    assert_eq!(counter.clock_string(), "00:00:10");
    counter.flip();
    assert_eq!(counter.clock_string(), "00:00:10");
    counter.flip();
    assert_eq!(counter.clock_string(), "00:00:10");
}

#[test]
fn down_to_near_end_shows_full_remainder() {
    let now = Seconds::now();
    let counter = Counter::down(None, Some(Seconds::new(now.value() + 10)));
    assert_eq!(counter.clock_string(), "00:00:10")
}

#[test]
fn up_from_ten_minutes_ago() {
    let now = Seconds::now();
    let counter = Counter::up(Some(Seconds::new(now.value() - 600)), None);
    assert_eq!(counter.clock_string(), "00:10:00")
}

#[test]
fn up_from_ten_days_ago_keeps_wide_hours() {
    let now = Seconds::now();
    let counter = Counter::up(Some(Seconds::new(now.value() - 864000)), None);
    assert_eq!(counter.clock_string(), "240:00:00")
}

#[test]
fn counter_components_are_split_out() {
    let counter = Counter::up(Some(Seconds::new(-3661)), None);
    assert_eq!(counter.counter(), (1, 1, 1));
    assert_eq!(counter.clock_string(), "01:01:01");
}

#[test]
fn counter_clamps_negative_totals_to_zero() {
    let counter = Counter::down(None, Some(Seconds::new(-5)));
    assert_eq!(counter.counter(), (0, 0, 0));
    assert_eq!(counter.hours(), 0);
    assert_eq!(counter.minutes(), 0);
    assert_eq!(counter.seconds(), 0);
    assert_eq!(counter.clock_string(), "00:00:00");
}

#[test]
fn cumulative_totals_include_lower_units() {
    let counter = Counter::up(Some(Seconds::new(-7384)), None);
    assert_eq!(counter.hours(), 2);
    assert_eq!(counter.minutes(), 123);
    assert_eq!(counter.seconds(), 7384);
    assert_eq!(counter.counter(), (2, 3, 4));
}

#[test]
fn counter_at_reads_the_given_instant() {
    let counter = Counter::up(Some(Seconds::new(0)), None);
    assert_eq!(counter.counter_at(&Seconds::new(59)), (0, 0, 59));
    assert_eq!(counter.counter_at(&Seconds::new(60)), (0, 1, 0));
    assert_eq!(counter.counter_at(&Seconds::new(3600)), (1, 0, 0));
}

#[test]
fn flip_swaps_the_reported_interval() {
    let mut counter = Counter::down(Some(Seconds::new(-30)), Some(Seconds::new(45)));
    assert_eq!(counter.clock_string(), "00:00:45");
    counter.flip();
    assert_eq!(counter.clock_string(), "00:00:30");
}
