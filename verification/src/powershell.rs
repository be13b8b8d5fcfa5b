//! PowerShell compatibility: a short pause after a native resize lets
//! PowerShell process pending console changes before queued input is
//! written. Elapsed time is a heuristic, not a readiness signal. Instants
//! are milliseconds on a monotonic clock.

use vstd::prelude::*;

verus! {

/// The pause after a resize, in milliseconds.
pub const RESIZE_INPUT_DELAY: u64 = 80;

/// The longest that queued input waits behind resize pauses, in
/// milliseconds.
pub const MAX_QUEUED_INPUT_DELAY: u64 = 250;

/// Whether the compatibility pause is on, and when the current resize
/// pause ends.
pub struct PowerShellModel {
    pub enabled: bool,
    pub resize_deadline: Option<u64>,
}

pub struct PowerShellCompatibility {
    enabled: bool,
    resize_deadline: Option<u64>,
}

impl View for PowerShellCompatibility {
    type V = PowerShellModel;

    closed spec fn view(&self) -> PowerShellModel {
        PowerShellModel { enabled: self.enabled, resize_deadline: self.resize_deadline }
    }
}

impl Default for PowerShellCompatibility {
    fn default() -> (s: Self)
        ensures
            s@ == (PowerShellModel { enabled: false, resize_deadline: None }),
    {
        PowerShellCompatibility { enabled: false, resize_deadline: None }
    }
}

/// The earlier of the resize deadline and the input limit, when both are
/// set.
pub open spec fn deadline_spec(m: PowerShellModel, input_limit: Option<u64>) -> Option<u64> {
    match (m.resize_deadline, input_limit) {
        (Some(d), Some(l)) => Some(
            if d <= l {
                d
            } else {
                l
            },
        ),
        _ => None,
    }
}

/// The latest time queued input submitted at `now` may wait until.
pub open spec fn input_limit_spec(m: PowerShellModel, now: u64) -> Option<u64> {
    if m.enabled {
        Some((now + MAX_QUEUED_INPUT_DELAY) as u64)
    } else {
        None
    }
}

impl PowerShellCompatibility {
    pub fn set_enabled(&mut self, enabled: bool)
        ensures
            final(self)@.enabled == enabled,
            final(self)@.resize_deadline == (if enabled {
                old(self)@.resize_deadline
            } else {
                None
            }),
    {
        self.enabled = enabled;
        if !enabled {
            self.resize_deadline = None;
        }
    }

    /// A native resize at `now` starts a pause, when enabled.
    pub fn resized(&mut self, now: u64)
        requires
            now + RESIZE_INPUT_DELAY <= u64::MAX,
        ensures
            final(self)@.enabled == old(self)@.enabled,
            final(self)@.resize_deadline == (if old(self)@.enabled {
                Some((now + RESIZE_INPUT_DELAY) as u64)
            } else {
                None
            }),
    {
        self.resize_deadline = if self.enabled {
            Some(now + RESIZE_INPUT_DELAY)
        } else {
            None
        };
    }

    pub fn clear_resize(&mut self)
        ensures
            final(self)@ == (PowerShellModel { enabled: old(self)@.enabled, resize_deadline: None }),
    {
        self.resize_deadline = None;
    }

    /// The latest time input submitted at `now` may wait until.
    pub fn input_limit(&self, now: u64) -> (r: Option<u64>)
        requires
            now + MAX_QUEUED_INPUT_DELAY <= u64::MAX,
        ensures
            r == input_limit_spec(self@, now),
    {
        if self.enabled {
            Some(now + MAX_QUEUED_INPUT_DELAY)
        } else {
            None
        }
    }

    /// When queued input may go: the resize deadline, but never after the
    /// input's own limit.
    pub fn deadline(&self, input_limit: Option<u64>) -> (r: Option<u64>)
        ensures
            r == deadline_spec(self@, input_limit),
    {
        let d = match self.resize_deadline {
            Some(d) => d,
            None => {
                return None;
            },
        };
        let l = match input_limit {
            Some(l) => l,
            None => {
                return None;
            },
        };
        Some(
            if d <= l {
                d
            } else {
                l
            },
        )
    }

    /// How long to wait from `now` for queued input; an expired deadline
    /// still yields a zero wait, so a quiet loop keeps waking until the
    /// input goes.
    pub fn timeout(&self, input_limit: Option<u64>, now: u64) -> (r: Option<u64>)
        ensures
            r == (match deadline_spec(self@, input_limit) {
                Some(d) => Some(
                    if d >= now {
                        (d - now) as u64
                    } else {
                        0
                    },
                ),
                None => None,
            }),
    {
        match self.deadline(input_limit) {
            Some(d) => Some(d.saturating_sub(now)),
            None => None,
        }
    }
}

/// Queued input never waits past its own limit: whatever resizes came
/// after it, the deadline is at most `MAX_QUEUED_INPUT_DELAY` after the
/// input was submitted.
pub proof fn lemma_input_wait_is_bounded(m: PowerShellModel, submitted: u64, resize_deadline: u64)
    requires
        submitted + MAX_QUEUED_INPUT_DELAY <= u64::MAX,
    ensures
        deadline_spec(
            PowerShellModel { enabled: m.enabled, resize_deadline: Some(resize_deadline) },
            input_limit_spec(m, submitted),
        ) matches Some(d) ==> d <= submitted + MAX_QUEUED_INPUT_DELAY,
{
}

/// With the pause switched off there is no deadline and no input limit.
pub proof fn lemma_disabled_never_waits(m: PowerShellModel, now: u64, input_limit: Option<u64>)
    requires
        !m.enabled,
        m.resize_deadline is None,
    ensures
        input_limit_spec(m, now) is None,
        deadline_spec(m, input_limit) is None,
{
}

} // verus!
