use fake::Fake;
use n2p::order::bytes_equal;
use n2p::order::bytes_less;
use n2p::timestamp::is_valid_time_key;
use n2p::timestamp::Timestamp;
use n2p::timestamp::TIME_FIELD_LEN;
use rand::SeedableRng;

fn moment_of(at: time::PrimitiveDateTime) -> Timestamp {
    Timestamp::new(at.year(), at.ordinal(), at.hour(), at.minute(), at.second(), at.nanosecond())
        .expect("a moment of the calendar")
}

#[test]
fn a_timestamp_keeps_its_fields() {
    let at = Timestamp::new(2024, 61, 12, 30, 15, 250_000_000).expect("a moment");
    assert_eq!(at.year(), 2024);
    assert_eq!(at.ordinal(), 61);
    assert_eq!(at.hour(), 12);
    assert_eq!(at.minute(), 30);
    assert_eq!(at.second(), 15);
    assert_eq!(at.nanosecond(), 250_000_000);
    assert_eq!(at.key(), (2024, 61, 12, 30, 15, 250_000_000));
    assert_eq!(Timestamp::from_key(at.key()), Some(at));
    assert!(at.same_as(&at));
    assert_eq!(TIME_FIELD_LEN, 13);
}

#[test]
fn a_timestamp_names_a_moment_of_the_calendar() {
    assert!(Timestamp::new(2024, 366, 0, 0, 0, 0).is_some());
    assert!(Timestamp::new(2023, 366, 0, 0, 0, 0).is_none());
    assert!(Timestamp::new(2023, 365, 0, 0, 0, 0).is_some());
    assert!(Timestamp::new(1900, 366, 0, 0, 0, 0).is_none());
    assert!(Timestamp::new(2000, 366, 0, 0, 0, 0).is_some());
    assert!(Timestamp::new(0, 366, 0, 0, 0, 0).is_some());
    assert!(Timestamp::new(-4, 366, 0, 0, 0, 0).is_some());
    assert!(Timestamp::new(-100, 366, 0, 0, 0, 0).is_none());
    assert!(Timestamp::new(-400, 366, 0, 0, 0, 0).is_some());
    assert!(Timestamp::new(2024, 0, 0, 0, 0, 0).is_none());
    assert!(Timestamp::new(2024, 367, 0, 0, 0, 0).is_none());
    assert!(Timestamp::new(9999, 365, 23, 59, 59, 999_999_999).is_some());
    assert!(Timestamp::new(10_000, 1, 0, 0, 0, 0).is_none());
    assert!(Timestamp::new(-9999, 1, 0, 0, 0, 0).is_some());
    assert!(Timestamp::new(-10_000, 1, 0, 0, 0, 0).is_none());
    assert!(Timestamp::new(i32::MAX, 1, 0, 0, 0, 0).is_none());
    assert!(Timestamp::new(i32::MIN, 1, 0, 0, 0, 0).is_none());
    assert!(Timestamp::new(2024, 1, 24, 0, 0, 0).is_none());
    assert!(Timestamp::new(2024, 1, 23, 60, 0, 0).is_none());
    assert!(Timestamp::new(2024, 1, 23, 59, 60, 0).is_none());
    assert!(Timestamp::new(2024, 1, 23, 59, 59, 1_000_000_000).is_none());
    assert!(!is_valid_time_key((2024, 1, 23, 59, 59, u32::MAX)));
    assert!(is_valid_time_key((2024, 1, 23, 59, 59, 0)));
}

#[test]
fn the_calendar_is_the_one_of_the_time_crate() {
    for year in -10_001..=10_001 {
        for ordinal in [0u16, 1, 59, 60, 365, 366, 367] {
            let here = Timestamp::new(year, ordinal, 0, 0, 0, 0).is_some();
            let there = time::Date::from_ordinal_date(year, ordinal).is_ok();
            assert_eq!(here, there, "year {} day {}", year, ordinal);
        }
    }
    for hour in 0..=255u8 {
        let here = Timestamp::new(2024, 1, hour, 0, 0, 0).is_some();
        assert_eq!(here, time::Time::from_hms_nano(hour, 0, 0, 0).is_ok());
        let here = Timestamp::new(2024, 1, 0, hour, 0, 0).is_some();
        assert_eq!(here, time::Time::from_hms_nano(0, hour, 0, 0).is_ok());
        let here = Timestamp::new(2024, 1, 0, 0, hour, 0).is_some();
        assert_eq!(here, time::Time::from_hms_nano(0, 0, hour, 0).is_ok());
    }
    for nanosecond in [0, 1, 999_999_999, 1_000_000_000, u32::MAX] {
        let here = Timestamp::new(2024, 1, 0, 0, 0, nanosecond).is_some();
        assert_eq!(here, time::Time::from_hms_nano(0, 0, 0, nanosecond).is_ok());
    }
}

#[test]
fn the_order_of_timestamps_is_the_order_of_time() {
    let mut rng = rand::rngs::StdRng::seed_from_u64(8);
    for _ in 0..500 {
        let a: time::PrimitiveDateTime = fake::Faker.fake_with_rng(&mut rng);
        let b: time::PrimitiveDateTime = fake::Faker.fake_with_rng(&mut rng);
        assert_eq!(moment_of(a).is_before(&moment_of(b)), a < b);
        assert_eq!(moment_of(a) < moment_of(b), a < b);
        assert_eq!(moment_of(a).same_as(&moment_of(b)), a == b);
        assert!(!moment_of(a).is_before(&moment_of(a)));
    }
    let base = Timestamp::new(2024, 61, 12, 30, 15, 7).expect("a moment");
    let later = [
        Timestamp::new(2025, 1, 0, 0, 0, 0).expect("a moment"),
        Timestamp::new(2024, 62, 0, 0, 0, 0).expect("a moment"),
        Timestamp::new(2024, 61, 13, 0, 0, 0).expect("a moment"),
        Timestamp::new(2024, 61, 12, 31, 0, 0).expect("a moment"),
        Timestamp::new(2024, 61, 12, 30, 16, 0).expect("a moment"),
        Timestamp::new(2024, 61, 12, 30, 15, 8).expect("a moment"),
    ];
    for other in later {
        assert!(base.is_before(&other));
        assert!(!other.is_before(&base));
        assert!(!base.same_as(&other));
    }
}

#[test]
fn byte_strings_are_ordered_from_the_front() {
    assert!(bytes_less(b"", b"a"));
    assert!(!bytes_less(b"", b""));
    assert!(!bytes_less(b"a", b""));
    assert!(bytes_less(b"a", b"b"));
    assert!(!bytes_less(b"b", b"a"));
    assert!(bytes_less(b"a", b"ab"));
    assert!(!bytes_less(b"ab", b"a"));
    assert!(bytes_less(b"ab", b"b"));
    assert!(bytes_less(&[0x7F], &[0x80]));
    assert!(!bytes_less(b"abc", b"abc"));
    assert!(bytes_less(b"abc", b"abd"));
    assert!(bytes_equal(b"", b""));
    assert!(bytes_equal(b"abc", b"abc"));
    assert!(!bytes_equal(b"abc", b"abd"));
    assert!(!bytes_equal(b"abc", b"ab"));
    let words: [&[u8]; 6] = [b"", b"a", b"ab", b"b", b"ba", b"\xff"];
    for a in words {
        for b in words {
            assert_eq!(bytes_less(a, b), a < b);
            assert_eq!(bytes_equal(a, b), a == b);
        }
    }
}
