//! The progress of an update.

use wifi_display::ota::state::{OtaProgress, OtaState};

#[test]
fn test_progress_percent() {
    let mut p = OtaProgress::new(1000);
    assert_eq!(p.percent(), 0);

    p.bytes_written = 500;
    assert_eq!(p.percent(), 50);

    p.bytes_written = 1000;
    assert_eq!(p.percent(), 100);
}

#[test]
fn test_progress_percent_zero_total() {
    let p = OtaProgress::new(0);
    assert_eq!(p.percent(), 0);
}

#[test]
fn test_progress_percent_overflow_clamped() {
    let mut p = OtaProgress::new(100);
    p.bytes_written = 200; // more than total
    assert_eq!(p.percent(), 100);
}

#[test]
fn test_initial_state() {
    let p = OtaProgress::new(5000);
    assert_eq!(p.state, OtaState::Idle);
    assert_eq!(p.bytes_written, 0);
    assert_eq!(p.total_bytes, 5000);
}
