use limitr::clock::epoch_nanos;
use limitr::clock::epoch_seconds;

#[test]
fn epoch_nanos_joins_seconds_and_nanoseconds() {
    assert_eq!(epoch_nanos(Some((3, 250_000_000))), 3_250_000_000);
    assert_eq!(epoch_nanos(Some((0, 999_999_999))), 999_999_999);
    assert_eq!(
        epoch_nanos(Some((u64::MAX, 999_999_999))),
        u64::MAX as u128 * 1_000_000_000 + 999_999_999
    );
}

#[test]
fn epoch_reading_before_epoch_is_zero() {
    assert_eq!(epoch_nanos(None), 0);
    assert_eq!(epoch_seconds(None), 0);
}

#[test]
fn epoch_seconds_drops_the_fraction() {
    assert_eq!(epoch_seconds(Some((1_700_000_000, 999_999_999))), 1_700_000_000);
}
