use cyd_player::sdcard::{DummyTimesource, Timestamp};

#[test]
fn the_clock_always_shows_the_start_of_1970() {
    let expected = Timestamp {
        year_since_1970: 0,
        zero_indexed_month: 0,
        zero_indexed_day: 0,
        hours: 0,
        minutes: 0,
        seconds: 0,
    };
    assert_eq!(DummyTimesource.get_timestamp(), expected);
    assert_eq!(DummyTimesource.get_timestamp(), DummyTimesource.get_timestamp());
}
