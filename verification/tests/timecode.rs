use ferricast::timecode::{timecode, timecode_label};
use ferricast::video::Fraction;

const SEC: u64 = 1_000_000_000;

fn rate(numer: i32, denom: i32) -> Option<Fraction> {
    Some(Fraction { numer, denom })
}

#[test]
fn times_have_hours_minutes_and_seconds() {
    assert_eq!(timecode(0, None), "00:00:00");
    assert_eq!(timecode(59 * SEC + 999_999_999, None), "00:00:59");
    assert_eq!(timecode(3_661 * SEC, None), "01:01:01");
    assert_eq!(timecode(360_000 * SEC, None), "100:00:00");
}

#[test]
fn frames_are_counted_within_the_second() {
    assert_eq!(timecode(0, rate(30, 1)), "00:00:00:00");
    assert_eq!(timecode(SEC / 2, rate(30, 1)), "00:00:00:15");
    assert_eq!(timecode(3_661 * SEC + 500_000_000, rate(30, 1)), "01:01:01:15");
    assert_eq!(timecode(SEC - 1, rate(30, 1)), "00:00:00:29");
    assert_eq!(timecode(SEC, rate(30000, 1001)), "00:00:01:29");
    assert_eq!(timecode(0, rate(-5, 1)), "00:00:00:00");
}

#[test]
fn the_label_shows_position_and_length() {
    assert_eq!(
        timecode_label(0, 0, rate(60, 1)),
        "00:00:00:00 / 00:00:00:00"
    );
    assert_eq!(timecode_label(SEC, 90 * SEC, None), "00:00:01 / 00:01:30");
}

#[test]
fn timecodes_have_one_length() {
    for ns in [0, SEC / 3, 61 * SEC, 359_999 * SEC] {
        assert_eq!(timecode(ns, rate(100, 1)).len(), 11);
        assert_eq!(timecode(ns, None).len(), 8);
    }
}
