use nautilus_history::error::SourceError;
use nautilus_history::time::{
    canonical_close_ns, close_window, NANOSECONDS_IN_MICROSECOND, NANOSECONDS_IN_MILLISECOND,
    NANOSECONDS_IN_MINUTE,
};

const START_NS: u64 = 1_735_689_600_000_000_000;

#[test]
fn test_time_constants() {
    assert_eq!(NANOSECONDS_IN_MICROSECOND, 1_000);
    assert_eq!(NANOSECONDS_IN_MILLISECOND, 1_000_000);
    assert_eq!(NANOSECONDS_IN_MINUTE, 60_000_000_000);
}

#[test]
fn test_canonical_close_of_an_exact_close_time_is_itself() {
    let close = START_NS - NANOSECONDS_IN_MILLISECOND;
    assert_eq!(canonical_close_ns(close), Ok(close));
    assert_eq!(canonical_close_ns(NANOSECONDS_IN_MINUTE - NANOSECONDS_IN_MILLISECOND), Ok(59_999_000_000));
}

#[test]
fn test_canonical_close_tolerates_one_microsecond_either_way() {
    let close = START_NS + 5 * NANOSECONDS_IN_MINUTE - NANOSECONDS_IN_MILLISECOND;
    assert_eq!(canonical_close_ns(close - 1_000), Ok(close));
    assert_eq!(canonical_close_ns(close + 1_000), Ok(close));
    assert_eq!(canonical_close_ns(close + 128), Ok(close));
    assert_eq!(canonical_close_ns(close - 1_001), Err(SourceError::NotClosedMinutePhase));
    assert_eq!(canonical_close_ns(close + 1_001), Err(SourceError::NotClosedMinutePhase));
}

#[test]
fn test_canonical_close_refuses_a_minute_boundary_and_the_epoch() {
    assert_eq!(canonical_close_ns(START_NS), Err(SourceError::NotClosedMinutePhase));
    assert_eq!(canonical_close_ns(0), Err(SourceError::NotClosedMinutePhase));
}

#[test]
fn test_canonical_close_overflow() {
    assert_eq!(canonical_close_ns(u64::MAX), Err(SourceError::TimestampOverflows));
    assert_eq!(
        canonical_close_ns(u64::MAX - NANOSECONDS_IN_MILLISECOND + 1),
        Err(SourceError::TimestampOverflows)
    );
    assert_eq!(
        canonical_close_ns(u64::MAX - NANOSECONDS_IN_MILLISECOND),
        Err(SourceError::NotClosedMinutePhase)
    );
}

#[test]
fn test_close_window_of_the_original_request() {
    let start = START_NS - NANOSECONDS_IN_MINUTE;
    let end = START_NS + 6 * NANOSECONDS_IN_MINUTE - NANOSECONDS_IN_MILLISECOND;
    assert_eq!(
        close_window(start, end),
        Ok((START_NS - NANOSECONDS_IN_MILLISECOND, end))
    );
}

#[test]
fn test_close_window_bounds_are_inclusive() {
    let close = START_NS - NANOSECONDS_IN_MILLISECOND;
    assert_eq!(close_window(close, close), Ok((close, close)));
    assert_eq!(
        close_window(close + 1, close + NANOSECONDS_IN_MINUTE),
        Ok((close + NANOSECONDS_IN_MINUTE, close + NANOSECONDS_IN_MINUTE))
    );
    assert_eq!(
        close_window(close + 1, close + NANOSECONDS_IN_MINUTE - 1),
        Ok((close + NANOSECONDS_IN_MINUTE, close))
    );
}

#[test]
fn test_close_window_before_the_first_close() {
    assert_eq!(close_window(0, 0), Ok((59_999_000_000, 0)));
}

#[test]
fn test_close_window_overflow() {
    assert_eq!(close_window(u64::MAX, u64::MAX), Err(SourceError::StartOverflows));
    assert_eq!(
        close_window(u64::MAX - NANOSECONDS_IN_MILLISECOND, u64::MAX - NANOSECONDS_IN_MILLISECOND),
        Err(SourceError::FirstCloseOverflows)
    );
    assert_eq!(close_window(0, u64::MAX), Err(SourceError::EndOverflows));
}
