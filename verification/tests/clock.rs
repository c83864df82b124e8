use skills_manager::clock::{now_iso, timestamp};

#[test]
fn timestamp_is_written_in_utc_to_the_second() {
    assert_eq!(timestamp(0, 0), "1970-01-01T00:00:00Z");
    assert_eq!(timestamp(1769134534, 0), "2026-01-23T02:15:34Z");
    assert_eq!(timestamp(1769134534, 999_999_999), "2026-01-23T02:15:34Z");
    assert_eq!(timestamp(253402300799, 0), "9999-12-31T23:59:59Z");
}

#[test]
fn timestamp_beyond_the_calendar_is_the_epoch() {
    assert_eq!(timestamp(u64::MAX, 0), "1970-01-01T00:00:00Z");
    assert_eq!(timestamp(0, 3_000_000_000), "1970-01-01T00:00:00Z");
}

#[test]
fn now_is_written_like_a_timestamp() {
    let now = now_iso();
    assert_eq!(now.len(), 20);
    assert!(now.ends_with('Z'));
    assert_eq!(&now[4..5], "-");
    assert_eq!(&now[10..11], "T");
    assert!(now.as_str() >= "2024");
}
