use factory_droid::clock::{clamp_millis, epoch_ms, now_ms, parse_iso_ms};

#[test]
fn parse_iso_ms_accepts_rfc3339_zulu() {
    assert_eq!(
        parse_iso_ms("2026-06-24T00:31:45.533Z"),
        Some(1_782_261_105_533)
    );
}

#[test]
fn timestamps_may_have_offsets_and_are_cut_at_the_epoch() {
    assert_eq!(parse_iso_ms("1970-01-01T01:00:00+01:00"), Some(0));
    assert_eq!(parse_iso_ms("1970-01-01T00:00:00.0019Z"), Some(1));
    assert_eq!(parse_iso_ms("1969-12-31T23:59:59Z"), Some(0));
    assert_eq!(parse_iso_ms("2026-06-24"), None);
    assert_eq!(parse_iso_ms(""), None);
}

#[test]
fn milliseconds_before_the_epoch_are_cut_to_zero() {
    assert_eq!(clamp_millis(None), None);
    assert_eq!(clamp_millis(Some(-1)), Some(0));
    assert_eq!(clamp_millis(Some(i64::MAX)), Some(i64::MAX as u64));
}

#[test]
fn elapsed_milliseconds_keep_their_low_bits() {
    assert_eq!(epoch_ms(None), 0);
    assert_eq!(epoch_ms(Some(5)), 5);
    assert_eq!(epoch_ms(Some(u64::MAX as u128)), u64::MAX);
    assert_eq!(epoch_ms(Some((1u128 << 64) + 7)), 7);
}

#[test]
fn the_clock_shows_a_plausible_time() {
    let now = now_ms();
    assert!(now > 1_600_000_000_000);
    assert!(now < 32_000_000_000_000);
}
