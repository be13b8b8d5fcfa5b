//! The window after a ConPTY resize during which ConPTY's repaint of the
//! primary screen is expected. The PTY bytes always reach the engine
//! unchanged; the one action this may take is to scroll the engine's
//! content before them, once per window, once the burst is provably the
//! repaint (an erase-display has been seen and the cursor moves fit the
//! size latched at the resize). Instants are milliseconds on a monotonic
//! clock.

use vstd::prelude::*;

use crate::conpty::{contains_csi_erase_display, csi_list, has_erase_display_in};
use crate::decimal::{dec_digits, push_decimal};

verus! {

/// Reads after a resize during which the repaint is still expected.
pub const REPAINT_READS: u8 = 8;

/// Time after a resize during which the repaint is still expected, in
/// milliseconds. Both bounds must pass before the window closes.
pub const REPAINT_WINDOW: u64 = 150;

/// The engine's cursor row and the PTY size latched at the resize.
#[derive(Debug, Clone, Copy, PartialEq, Eq, Structural)]
pub struct ResizeAnchor {
    pub row: u16,
    pub cols: u16,
    pub rows: u16,
}

#[derive(Debug, Clone, Copy, PartialEq, Eq, Structural)]
pub enum ResizePhase {
    Idle,
    Armed {
        at: u64,
        remaining: u8,
        /// Held until the one scroll this window may inject, so a keystroke
        /// echo arriving before the repaint cannot consume it.
        anchor: Option<ResizeAnchor>,
        /// An erase-display has been seen in this window.
        erase_seen: bool,
    },
}

pub struct ConptyResize {
    phase: ResizePhase,
}

/// What one PTY read during the window asks of the caller.
pub struct ResizeRead {
    /// Scroll to write to the engine before the read's bytes.
    pub synthetic_prefix: Option<Vec<u8>>,
    /// The cursor row the repaint will leave.
    pub expected_cursor: Option<u16>,
    /// The read fell inside a repaint window.
    pub repaint_window: bool,
}

/// `CSI n S` (scroll up) for a positive `delta`, else `CSI -n T`.
pub open spec fn scroll_prefix(delta: i32) -> Seq<u8> {
    if delta > 0 {
        seq![0x1bu8, 0x5bu8] + dec_digits(delta as nat) + seq![0x53u8]
    } else {
        seq![0x1bu8, 0x5bu8] + dec_digits((-delta) as nat) + seq![0x54u8]
    }
}

/// Whether `input` holds an erase-display.
pub open spec fn erases_display(input: Seq<u8>) -> bool {
    has_erase_display_in(input, csi_list(input, 0))
}

impl ConptyResize {
    pub closed spec fn phase_spec(&self) -> ResizePhase {
        self.phase
    }

    pub fn new() -> (s: Self)
        ensures
            s.phase_spec() == ResizePhase::Idle,
    {
        ConptyResize { phase: ResizePhase::Idle }
    }

    /// A resize to `cols` × `rows` at `at` (with the engine's cursor row,
    /// when known) opens a window, where the PTY is ConPTY.
    pub fn on_resize(
        &mut self,
        uses_conpty: bool,
        cols: u16,
        rows: u16,
        active_row: Option<u16>,
        at: u64,
    )
        ensures
            final(self).phase_spec() == (if uses_conpty {
                ResizePhase::Armed {
                    at,
                    remaining: REPAINT_READS,
                    anchor: match active_row {
                        Some(row) => Some(ResizeAnchor { row, cols, rows }),
                        None => None,
                    },
                    erase_seen: false,
                }
            } else {
                old(self).phase_spec()
            }),
    {
        if uses_conpty {
            self.phase = ResizePhase::Armed {
                at,
                remaining: REPAINT_READS,
                anchor: match active_row {
                    Some(row) => Some(ResizeAnchor { row, cols, rows }),
                    None => None,
                },
                erase_seen: false,
            };
        }
    }

    /// The anchor a read of `input` would realign against, if the scroll
    /// may fire on it: the window is open, the primary screen is shown, an
    /// erase-display has been seen, and the anchor is still held. The
    /// caller computes the realignment for it and hands it to `on_read`.
    pub fn realign_anchor(&self, input: &[u8], alt_screen: bool) -> (r: Option<ResizeAnchor>)
        ensures
            r == (match self.phase_spec() {
                ResizePhase::Armed { anchor, erase_seen, .. } => if !alt_screen && (erase_seen
                    || erases_display(input@)) {
                    anchor
                } else {
                    None
                },
                ResizePhase::Idle => None,
            }),
    {
        match self.phase {
            ResizePhase::Armed { anchor, erase_seen, .. } => {
                if !alt_screen && (erase_seen || contains_csi_erase_display(input)) {
                    anchor
                } else {
                    None
                }
            },
            ResizePhase::Idle => None,
        }
    }

    /// A PTY read of `input` at `now`. `realign` is the realignment for
    /// the anchor (rows to scroll, positive up, and the cursor row the
    /// repaint leaves), when one was computed.
    pub fn on_read(
        &mut self,
        input: &[u8],
        alt_screen: bool,
        realign: Option<(i32, u16)>,
        now: u64,
    ) -> (r: ResizeRead)
        requires
            realign matches Some((delta, _)) ==> delta > i32::MIN,
        ensures
            r.repaint_window == (old(self).phase_spec() is Armed),
            read_fires(old(self).phase_spec(), input@, alt_screen, realign) ==> (
            r.synthetic_prefix matches Some(p) && p@ == scroll_prefix(realign.unwrap().0))
                && r.expected_cursor == Some(realign.unwrap().1),
            !read_fires(old(self).phase_spec(), input@, alt_screen, realign) ==> r.synthetic_prefix
                is None && r.expected_cursor is None,
            final(self).phase_spec() == read_step(
                old(self).phase_spec(),
                input@,
                alt_screen,
                realign,
                now,
            ),
    {
        let (at, remaining, anchor, erase_seen) = match self.phase {
            ResizePhase::Idle => {
                return ResizeRead {
                    synthetic_prefix: None,
                    expected_cursor: None,
                    repaint_window: false,
                };
            },
            ResizePhase::Armed { at, remaining, anchor, erase_seen } => (
                at,
                remaining,
                anchor,
                erase_seen,
            ),
        };
        self.phase = ResizePhase::Idle;
        let mut read = ResizeRead {
            synthetic_prefix: None,
            expected_cursor: None,
            repaint_window: true,
        };
        // A full-screen program owns the alternate screen; its redraw after
        // a resize is its own layout, not ConPTY's repaint.
        if alt_screen {
            return read;
        }
        let erase = erase_seen || contains_csi_erase_display(input);
        let mut anchor = anchor;
        if erase && anchor.is_some() {
            if let Some((delta, target)) = realign {
                let mut prefix: Vec<u8> = Vec::new();
                prefix.push(0x1b);
                prefix.push(0x5b);
                if delta > 0 {
                    push_decimal(&mut prefix, delta as u64);
                    prefix.push(0x53);
                } else {
                    push_decimal(&mut prefix, (-delta) as u64);
                    prefix.push(0x54);
                }
                assert(prefix@ =~= scroll_prefix(delta));
                read.synthetic_prefix = Some(prefix);
                read.expected_cursor = Some(target);
                anchor = None;
            }
        }
        let left: u8 = if remaining > 0 {
            remaining - 1
        } else {
            0
        };
        let elapsed: u64 = if now >= at {
            now - at
        } else {
            0
        };
        self.phase = if left == 0 && elapsed >= REPAINT_WINDOW {
            ResizePhase::Idle
        } else {
            ResizePhase::Armed { at, remaining: left, anchor, erase_seen: erase }
        };
        read
    }
}

/// Whether a read of `input` in phase `p` scrolls the engine.
pub open spec fn read_fires(
    p: ResizePhase,
    input: Seq<u8>,
    alt_screen: bool,
    realign: Option<(i32, u16)>,
) -> bool {
    match p {
        ResizePhase::Idle => false,
        ResizePhase::Armed { anchor, erase_seen, .. } => !alt_screen && (erase_seen
            || erases_display(input)) && anchor is Some && realign is Some,
    }
}

/// The phase after a read of `input` at `now` in phase `p`.
pub open spec fn read_step(
    p: ResizePhase,
    input: Seq<u8>,
    alt_screen: bool,
    realign: Option<(i32, u16)>,
    now: u64,
) -> ResizePhase {
    match p {
        ResizePhase::Idle => ResizePhase::Idle,
        ResizePhase::Armed { at, remaining, anchor, erase_seen } => {
            let left: u8 = if remaining > 0 {
                (remaining - 1) as u8
            } else {
                0
            };
            let elapsed: int = if now >= at {
                now - at
            } else {
                0
            };
            if alt_screen || (left == 0 && elapsed >= REPAINT_WINDOW) {
                ResizePhase::Idle
            } else {
                ResizePhase::Armed {
                    at,
                    remaining: left,
                    anchor: if read_fires(p, input, alt_screen, realign) {
                        None
                    } else {
                        anchor
                    },
                    erase_seen: erase_seen || erases_display(input),
                }
            }
        },
    }
}

/// The window holds no anchor to scroll by (or is closed).
pub open spec fn anchor_spent(p: ResizePhase) -> bool {
    match p {
        ResizePhase::Idle => true,
        ResizePhase::Armed { anchor, .. } => anchor is None,
    }
}

/// A read that scrolls spends the window's anchor.
pub proof fn lemma_scroll_spends_anchor(
    p: ResizePhase,
    input: Seq<u8>,
    alt_screen: bool,
    realign: Option<(i32, u16)>,
    now: u64,
)
    requires
        read_fires(p, input, alt_screen, realign),
    ensures
        anchor_spent(read_step(p, input, alt_screen, realign, now)),
{
}

/// Once the anchor is spent, no read scrolls until a new resize: a window
/// scrolls the engine at most once.
pub proof fn lemma_spent_window_never_scrolls(
    p: ResizePhase,
    input: Seq<u8>,
    alt_screen: bool,
    realign: Option<(i32, u16)>,
    now: u64,
)
    requires
        anchor_spent(p),
    ensures
        !read_fires(p, input, alt_screen, realign),
        anchor_spent(read_step(p, input, alt_screen, realign, now)),
{
}

/// A read on the alternate screen closes the window without scrolling.
pub proof fn lemma_alt_screen_closes(
    p: ResizePhase,
    input: Seq<u8>,
    realign: Option<(i32, u16)>,
    now: u64,
)
    ensures
        !read_fires(p, input, true, realign),
        read_step(p, input, true, realign, now) == ResizePhase::Idle,
{
}

} // verus!
