//! Progress of an update.

use super::update::OtaError;
use vstd::prelude::*;

verus! {

/// Where an update stands.
#[derive(Debug, Clone, Copy, PartialEq, Eq, Structural)]
pub enum OtaState {
    /// No update in progress.
    Idle,
    /// The image is being downloaded.
    Downloading,
    /// The download is complete; the image is being checked and selected.
    Finalizing,
    /// The image is written and boots next.
    Complete,
    /// The update failed.
    Failed,
}

/// Progress of a download.
#[derive(Debug, Clone, Copy)]
pub struct OtaProgress {
    /// Bytes written to flash so far.
    pub bytes_written: u32,
    /// Bytes expected in all.
    pub total_bytes: u32,
    /// Where the update stands.
    pub state: OtaState,
}

/// The share of `whole` that `part` is, in percent, rounded down, and 100 at
/// most; 0 of nothing.
pub open spec fn percentage(part: int, whole: int) -> int {
    if whole == 0 {
        0
    } else if part * 100 / whole > 100 {
        100
    } else {
        part * 100 / whole
    }
}

impl OtaProgress {
    /// The progress of an update of `total_bytes` that has not begun.
    pub fn new(total_bytes: u32) -> (r: Self)
        ensures
            r == (OtaProgress { bytes_written: 0, total_bytes, state: OtaState::Idle }),
    {
        Self { bytes_written: 0, total_bytes, state: OtaState::Idle }
    }

    /// Percentage complete, from 0 to 100.
    pub fn percent(&self) -> (r: u8)
        ensures
            r == percentage(self.bytes_written as int, self.total_bytes as int),
            r <= 100,
    {
        if self.total_bytes == 0 {
            return 0;
        }
        let pct: u64 = (self.bytes_written as u64 * 100) / self.total_bytes as u64;
        if pct > 100 {
            100
        } else {
            pct as u8
        }
    }

    /// Marks the update as failed if a step of it did.
    pub fn settle(&mut self, outcome: Result<(), OtaError>) -> (r: Result<(), OtaError>)
        ensures
            r == outcome,
            *final(self) == (if outcome is Err {
                OtaProgress { state: OtaState::Failed, ..*old(self) }
            } else {
                *old(self)
            }),
    {
        if outcome.is_err() {
            self.state = OtaState::Failed;
        }
        outcome
    }
}

/// An update is at 100 percent exactly when as many bytes as expected, or
/// more, have been written.
pub proof fn law_hundred_percent(part: int, whole: int)
    requires
        0 <= part,
        0 < whole,
    ensures
        percentage(part, whole) == 100 <==> part >= whole,
        0 <= percentage(part, whole) <= 100,
{
    let q = part * 100 / whole;
    vstd::arithmetic::div_mod::lemma_fundamental_div_mod(part * 100, whole);
    let r = (part * 100) % whole;
    assert(0 <= r < whole) by (nonlinear_arith)
        requires
            r == (part * 100) % whole,
            whole > 0,
    ;
    if part >= whole {
        assert(q >= 100) by (nonlinear_arith)
            requires
                part * 100 == whole * q + r,
                r < whole,
                part >= whole,
                whole > 0,
        ;
    } else {
        assert(q < 100) by (nonlinear_arith)
            requires
                part * 100 == whole * q + r,
                0 <= r,
                part < whole,
                whole > 0,
        ;
    }
    assert(q >= 0) by (nonlinear_arith)
        requires
            part * 100 == whole * q + r,
            r < whole,
            part >= 0,
            whole > 0,
    ;
}

/// Progress never goes back as bytes are written.
pub proof fn law_percent_grows(before: int, after: int, whole: int)
    requires
        0 <= before <= after,
        0 <= whole,
    ensures
        percentage(before, whole) <= percentage(after, whole),
{
    if whole > 0 {
        vstd::arithmetic::div_mod::lemma_div_is_ordered(before * 100, after * 100, whole);
    }
}

/// The percentage is the largest whole number of hundredths that have been
/// written, and never more than 100.
pub proof fn law_percent(progress: &OtaProgress, r: u8)
    requires
        call_ensures(OtaProgress::percent, (progress,), r),
    ensures
        progress.total_bytes == 0 ==> r == 0,
        progress.total_bytes > 0 ==> {
            &&& r <= 100
            &&& r * progress.total_bytes <= progress.bytes_written * 100
            &&& r < 100 ==> (r + 1) * progress.total_bytes > progress.bytes_written * 100
        },
{
    let part = progress.bytes_written as int;
    let whole = progress.total_bytes as int;
    if whole > 0 {
        let q = part * 100 / whole;
        let rest = (part * 100) % whole;
        vstd::arithmetic::div_mod::lemma_fundamental_div_mod(part * 100, whole);
        assert(0 <= rest < whole) by (nonlinear_arith)
            requires
                rest == (part * 100) % whole,
                whole > 0,
        ;
        assert(q * whole <= part * 100 && (q + 1) * whole > part * 100) by (nonlinear_arith)
            requires
                part * 100 == whole * q + rest,
                0 <= rest < whole,
        ;
        if q > 100 {
            assert(100 * whole <= q * whole) by (nonlinear_arith)
                requires
                    q > 100,
                    whole > 0,
            ;
        }
    }
}

/// An update begins at nothing. A step that fails, and only such a step, marks
/// it as failed; what has been written stays.
pub proof fn law_failure_is_remembered(
    total: u32,
    start: OtaProgress,
    progress: &mut OtaProgress,
    outcome: Result<(), OtaError>,
    r: Result<(), OtaError>,
)
    requires
        call_ensures(OtaProgress::new, (total,), start),
        call_ensures(OtaProgress::settle, (progress, outcome), r),
    ensures
        start.bytes_written == 0 && start.total_bytes == total && start.state == OtaState::Idle,
        r == outcome,
        outcome is Err ==> final(progress).state == OtaState::Failed,
        outcome is Ok ==> final(progress).state == old(progress).state,
        final(progress).bytes_written == old(progress).bytes_written,
        final(progress).total_bytes == old(progress).total_bytes,
{
}

} // verus!
