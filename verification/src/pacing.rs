//! When the PTY owner captures the engine into a render frame. Reads that
//! drain or saturate the pipe share a minimum capture interval, while view
//! commands and shutdown capture at once; a synchronized update
//! (`DECSET 2026`) defers capture until it ends or times out, and its end
//! commits the frame even when the last one was recent. A deferred capture
//! is retried on a poll deadline. Instants are milliseconds on a monotonic
//! clock.

use vstd::prelude::*;

verus! {

/// The shortest gap between captures of draining or saturated reads, in
/// milliseconds.
pub const SNAPSHOT_MIN_INTERVAL: u64 = 5;

/// How long a synchronized update may hold the frame back, in
/// milliseconds.
pub const SYNC_OUTPUT_TIMEOUT: u64 = 100;

/// Why the engine's state is being flushed.
#[derive(Clone, Copy, Debug, PartialEq, Eq, Structural)]
pub enum FlushReason {
    /// A read left the pipe empty.
    Drained,
    /// A read stopped at its size limit with more input pending.
    Saturated,
    /// A view command needs the current frame.
    Command,
    /// The session is shutting down.
    Exit,
}

/// The capture timing state.
pub struct PacingModel {
    pub last_snapshot_at: Option<u64>,
    pub sync_output_started_at: Option<u64>,
    pub snapshot_pending: bool,
}

pub struct FramePacing {
    last_snapshot_at: Option<u64>,
    sync_output_started_at: Option<u64>,
    snapshot_pending: bool,
}

impl View for FramePacing {
    type V = PacingModel;

    closed spec fn view(&self) -> PacingModel {
        PacingModel {
            last_snapshot_at: self.last_snapshot_at,
            sync_output_started_at: self.sync_output_started_at,
            snapshot_pending: self.snapshot_pending,
        }
    }
}

/// Milliseconds from `at` to `now` (none when the clock reads earlier).
pub open spec fn elapsed(at: u64, now: u64) -> int {
    if now >= at {
        now - at
    } else {
        0
    }
}

/// Whether a synchronized update has held the frame back for too long.
pub open spec fn sync_timed_out_spec(m: PacingModel, now: u64) -> bool {
    m.sync_output_started_at matches Some(s) && elapsed(s, now) >= SYNC_OUTPUT_TIMEOUT
}

/// Whether the flush for `reason` captures a frame, given whether the
/// engine is (still) inside a synchronized update.
pub open spec fn capture_spec(m: PacingModel, reason: FlushReason, sync_output: bool, now: u64) -> bool {
    let due = match reason {
        FlushReason::Command | FlushReason::Exit => true,
        FlushReason::Drained | FlushReason::Saturated => match m.last_snapshot_at {
            None => true,
            Some(at) => elapsed(at, now) >= SNAPSHOT_MIN_INTERVAL,
        },
    };
    let sync_finished = m.sync_output_started_at is Some && !sync_output;
    (due || sync_finished) && !sync_output
}

/// How long until a deferred capture is retried, or `None` when none is
/// pending: the rest of the synchronized update's allowance, else the rest
/// of the capture interval.
pub open spec fn pending_timeout_spec(m: PacingModel, now: u64) -> Option<u64> {
    if !m.snapshot_pending {
        None
    } else {
        Some(
            match m.sync_output_started_at {
                Some(s) => if elapsed(s, now) >= SYNC_OUTPUT_TIMEOUT {
                    0
                } else {
                    (SYNC_OUTPUT_TIMEOUT - elapsed(s, now)) as u64
                },
                None => match m.last_snapshot_at {
                    None => 0,
                    Some(at) => if elapsed(at, now) >= SNAPSHOT_MIN_INTERVAL {
                        0
                    } else {
                        (SNAPSHOT_MIN_INTERVAL - elapsed(at, now)) as u64
                    },
                },
            },
        )
    }
}

fn elapsed_ms(at: u64, now: u64) -> (r: u64)
    ensures
        r == elapsed(at, now),
{
    if now >= at {
        now - at
    } else {
        0
    }
}

impl FramePacing {
    pub fn new() -> (p: Self)
        ensures
            p@ == (PacingModel {
                last_snapshot_at: None,
                sync_output_started_at: None,
                snapshot_pending: false,
            }),
    {
        FramePacing { last_snapshot_at: None, sync_output_started_at: None, snapshot_pending: false }
    }

    /// Whether the caller should end a synchronized update that has held
    /// the frame back too long, before reading the engine's modes.
    pub fn sync_output_timed_out(&self, now: u64) -> (r: bool)
        ensures
            r == sync_timed_out_spec(self@, now),
    {
        match self.sync_output_started_at {
            Some(s) => elapsed_ms(s, now) >= SYNC_OUTPUT_TIMEOUT,
            None => false,
        }
    }

    /// Decide whether this flush captures a frame, once the engine reports
    /// whether it is inside a synchronized update, and record the outcome:
    /// a capture resets the interval, a skipped one stays pending; the
    /// update's start time is kept while it lasts.
    pub fn on_flush(&mut self, reason: FlushReason, sync_output: bool, now: u64) -> (capture: bool)
        ensures
            capture == capture_spec(old(self)@, reason, sync_output, now),
            final(self)@.sync_output_started_at == (if sync_output {
                match old(self)@.sync_output_started_at {
                    Some(s) => Some(s),
                    None => Some(now),
                }
            } else {
                None
            }),
            capture ==> final(self)@.last_snapshot_at == Some(now) && !final(self)@.snapshot_pending,
            !capture ==> final(self)@.last_snapshot_at == old(self)@.last_snapshot_at
                && final(self)@.snapshot_pending,
    {
        let due = match reason {
            FlushReason::Command | FlushReason::Exit => true,
            FlushReason::Drained | FlushReason::Saturated => match self.last_snapshot_at {
                None => true,
                Some(at) => elapsed_ms(at, now) >= SNAPSHOT_MIN_INTERVAL,
            },
        };
        let sync_finished = self.sync_output_started_at.is_some() && !sync_output;
        let capture = (due || sync_finished) && !sync_output;
        if sync_output {
            if self.sync_output_started_at.is_none() {
                self.sync_output_started_at = Some(now);
            }
        } else {
            self.sync_output_started_at = None;
        }
        if capture {
            self.last_snapshot_at = Some(now);
            self.snapshot_pending = false;
        } else {
            self.snapshot_pending = true;
        }
        capture
    }

    /// How long the event loop may sleep before retrying a deferred
    /// capture; `None` when no capture is pending.
    pub fn pending_timeout(&self, now: u64) -> (r: Option<u64>)
        ensures
            r == pending_timeout_spec(self@, now),
            r matches Some(t) ==> t <= SYNC_OUTPUT_TIMEOUT,
    {
        if !self.snapshot_pending {
            return None;
        }
        Some(
            match self.sync_output_started_at {
                Some(s) => {
                    let e = elapsed_ms(s, now);
                    if e >= SYNC_OUTPUT_TIMEOUT {
                        0
                    } else {
                        SYNC_OUTPUT_TIMEOUT - e
                    }
                },
                None => match self.last_snapshot_at {
                    None => 0,
                    Some(at) => {
                        let e = elapsed_ms(at, now);
                        if e >= SNAPSHOT_MIN_INTERVAL {
                            0
                        } else {
                            SNAPSHOT_MIN_INTERVAL - e
                        }
                    },
                },
            },
        )
    }

    /// Whether a capture was deferred and is still owed.
    pub fn snapshot_pending(&self) -> (r: bool)
        ensures
            r == self@.snapshot_pending,
    {
        self.snapshot_pending
    }
}

/// No frame is captured while a synchronized update is open.
pub proof fn lemma_no_capture_inside_sync(m: PacingModel, reason: FlushReason, now: u64)
    ensures
        !capture_spec(m, reason, true, now),
{
}

/// The end of a synchronized update commits its frame at once, however
/// recent the last capture was.
pub proof fn lemma_sync_end_commits(m: PacingModel, reason: FlushReason, now: u64)
    requires
        m.sync_output_started_at is Some,
    ensures
        capture_spec(m, reason, false, now),
{
}

/// View commands and shutdown always capture outside a synchronized
/// update.
pub proof fn lemma_commands_capture_at_once(m: PacingModel, now: u64)
    ensures
        capture_spec(m, FlushReason::Command, false, now),
        capture_spec(m, FlushReason::Exit, false, now),
{
}

} // verus!
