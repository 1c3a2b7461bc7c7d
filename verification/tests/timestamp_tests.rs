use grit::errors::Error;
use grit::timestamp::{Timestamp, EPOCH_MAX, EPOCH_MIN};

#[test]
fn epoch_zero_renders_as_unix_reference() {
    let t = Timestamp::from_native(0, 0).unwrap();
    assert_eq!(t.epoch(), 0);
    assert_eq!(t.display_string(), "01/01/1970 00:00:00");
}

#[test]
fn small_epoch_renders_minutes_and_seconds() {
    let t = Timestamp::from_native(1000, 0).unwrap();
    assert_eq!(t.display_string(), "01/01/1970 00:16:40");
}

#[test]
fn modern_epoch_renders_full_date() {
    let t = Timestamp::from_native(1_700_000_000, 0).unwrap();
    assert_eq!(t.display_string(), "11/14/2023 22:13:20");
}

#[test]
fn negative_epoch_renders_before_reference() {
    let t = Timestamp::from_native(-1, 0).unwrap();
    assert_eq!(t.display_string(), "12/31/1969 23:59:59");
}

#[test]
fn early_year_is_zero_padded() {
    // 00:00:00 on January 1 of year 1.
    let t = Timestamp::from_native(-62_135_596_800, 0).unwrap();
    assert_eq!(t.display_string(), "01/01/0001 00:00:00");
}

#[test]
fn offset_is_not_applied_to_calendar_value() {
    let plain = Timestamp::from_native(1_700_000_000, 0).unwrap();
    let offset = Timestamp::from_native(1_700_000_000, 330).unwrap();
    assert_eq!(plain.display_string(), offset.display_string());
    assert_eq!(plain.epoch(), offset.epoch());
}

#[test]
fn boundary_epochs_decode() {
    let lo = Timestamp::from_native(EPOCH_MIN, 0).unwrap();
    assert_eq!(lo.epoch(), EPOCH_MIN);
    let hi = Timestamp::from_native(EPOCH_MAX, 0).unwrap();
    assert_eq!(hi.epoch(), EPOCH_MAX);
    assert_eq!(hi.display_string(), "12/31/262142 23:59:59");
}

#[test]
fn out_of_range_epochs_fail_with_invalid_epoch() {
    assert_eq!(
        Timestamp::from_native(EPOCH_MIN - 1, 0).unwrap_err(),
        Error::InvalidEpoch
    );
    assert_eq!(
        Timestamp::from_native(EPOCH_MAX + 1, 0).unwrap_err(),
        Error::InvalidEpoch
    );
    assert_eq!(
        Timestamp::from_native(i64::MAX, 0).unwrap_err(),
        Error::InvalidEpoch
    );
    assert_eq!(
        Timestamp::from_native(i64::MIN, 0).unwrap_err(),
        Error::InvalidEpoch
    );
}

#[test]
fn error_messages_are_displayable() {
    assert_eq!(Error::NotARepository.message(), "not a repository");
    assert_eq!(
        Error::EnumerationFailed.message(),
        "could not enumerate branches"
    );
    assert_eq!(Error::BranchNotFound.message(), "branch not found");
    assert_eq!(
        Error::HistoryUnreadable.message(),
        "could not read branch history"
    );
    assert_eq!(
        Error::InvalidEpoch.message(),
        "commit timestamp out of range"
    );
}
