//! Terminal modes as bit flags, the surface's mouse vocabulary, and the
//! codes that mouse reports carry.

use vstd::prelude::*;

verus! {

/// The terminal's VT modes, one bit each.
#[derive(Debug, Copy, Clone, PartialEq, Eq, Structural)]
pub struct Mode {
    pub bits: u32,
}

impl Mode {
    pub const NONE: u32 = 0;
    pub const SHOW_CURSOR: u32 = 1;
    pub const APP_CURSOR: u32 = 2;
    pub const APP_KEYPAD: u32 = 4;
    pub const MOUSE_REPORT_CLICK: u32 = 8;
    pub const BRACKETED_PASTE: u32 = 16;
    pub const SGR_MOUSE: u32 = 32;
    pub const MOUSE_MOTION: u32 = 64;
    pub const LINE_WRAP: u32 = 128;
    pub const LINE_FEED_NEW_LINE: u32 = 256;
    pub const ORIGIN: u32 = 512;
    pub const INSERT: u32 = 1024;
    pub const FOCUS_IN_OUT: u32 = 2048;
    pub const ALT_SCREEN: u32 = 4096;
    pub const MOUSE_DRAG: u32 = 8192;
    pub const UTF8_MOUSE: u32 = 16384;
    pub const ALTERNATE_SCROLL: u32 = 32768;
    pub const VI: u32 = 65536;
    pub const URGENCY_HINTS: u32 = 131072;
    pub const DISAMBIGUATE_ESC_CODES: u32 = 262144;
    pub const REPORT_EVENT_TYPES: u32 = 524288;
    pub const REPORT_ALTERNATE_KEYS: u32 = 1048576;
    pub const REPORT_ALL_KEYS_AS_ESC: u32 = 2097152;
    pub const REPORT_ASSOCIATED_TEXT: u32 = 4194304;
    /// Any mouse reporting mode.
    pub const MOUSE_MODE: u32 = 8264;
    /// The kitty keyboard protocol's flags.
    pub const KITTY_KEYBOARD_PROTOCOL: u32 = 8126464;
    pub const ANY: u32 = 4294967295;
    pub const SIXEL_DISPLAY: u32 = 268435456;
    pub const SIXEL_PRIV_PALETTE: u32 = 536870912;
    pub const SIXEL_CURSOR_TO_THE_RIGHT: u32 = 2147483648;

    pub open spec fn has(&self, flags: u32) -> bool {
        self.bits & flags == flags
    }

    pub fn from_bits(bits: u32) -> (m: Mode)
        ensures
            m.bits == bits,
    {
        Mode { bits }
    }

    pub fn empty() -> (m: Mode)
        ensures
            m.bits == 0,
    {
        Mode { bits: 0 }
    }

    /// Whether every flag of `flags` is set.
    pub fn contains(&self, flags: u32) -> (r: bool)
        ensures
            r == self.has(flags),
    {
        self.bits & flags == flags
    }

    /// Set (`on`) or clear the flags of `flags`.
    pub fn set(&mut self, flags: u32, on: bool)
        ensures
            final(self).bits == (if on {
                old(self).bits | flags
            } else {
                old(self).bits & !flags
            }),
    {
        if on {
            self.bits = self.bits | flags;
        } else {
            self.bits = self.bits & !flags;
        }
    }
}

impl Default for Mode {
    /// Cursor shown, line wrap, alternate scroll, urgency hints and the
    /// private sixel palette.
    fn default() -> (m: Mode)
        ensures
            m.bits == Mode::SHOW_CURSOR | Mode::LINE_WRAP | Mode::ALTERNATE_SCROLL
                | Mode::URGENCY_HINTS | Mode::SIXEL_PRIV_PALETTE,
    {
        Mode {
            bits: Mode::SHOW_CURSOR | Mode::LINE_WRAP | Mode::ALTERNATE_SCROLL | Mode::URGENCY_HINTS
                | Mode::SIXEL_PRIV_PALETTE,
        }
    }
}

/// The kitty keyboard protocol's progressive enhancement flags.
#[derive(Debug, Copy, Clone, PartialEq, Eq, Structural)]
pub struct KeyboardModes {
    pub bits: u8,
}

impl KeyboardModes {
    pub const DISAMBIGUATE_ESC_CODES: u8 = 1;
    pub const REPORT_EVENT_TYPES: u8 = 2;
    pub const REPORT_ALTERNATE_KEYS: u8 = 4;
    pub const REPORT_ALL_KEYS_AS_ESC: u8 = 8;
    pub const REPORT_ASSOCIATED_TEXT: u8 = 16;
}

/// The terminal mode of each keyboard protocol flag.
pub open spec fn keyboard_mode_bits(k: KeyboardModes) -> u32 {
    (if k.bits & KeyboardModes::DISAMBIGUATE_ESC_CODES != 0 {
        Mode::DISAMBIGUATE_ESC_CODES
    } else {
        0
    }) | (if k.bits & KeyboardModes::REPORT_EVENT_TYPES != 0 {
        Mode::REPORT_EVENT_TYPES
    } else {
        0
    }) | (if k.bits & KeyboardModes::REPORT_ALTERNATE_KEYS != 0 {
        Mode::REPORT_ALTERNATE_KEYS
    } else {
        0
    }) | (if k.bits & KeyboardModes::REPORT_ALL_KEYS_AS_ESC != 0 {
        Mode::REPORT_ALL_KEYS_AS_ESC
    } else {
        0
    }) | (if k.bits & KeyboardModes::REPORT_ASSOCIATED_TEXT != 0 {
        Mode::REPORT_ASSOCIATED_TEXT
    } else {
        0
    })
}

/// The modes that the keyboard protocol flags switch on.
impl From<KeyboardModes> for Mode {
    fn from(value: KeyboardModes) -> (m: Mode) {
        let b = value.bits;
        let bits: u32 = (if b & KeyboardModes::DISAMBIGUATE_ESC_CODES != 0 {
            Mode::DISAMBIGUATE_ESC_CODES
        } else {
            0
        }) | (if b & KeyboardModes::REPORT_EVENT_TYPES != 0 {
            Mode::REPORT_EVENT_TYPES
        } else {
            0
        }) | (if b & KeyboardModes::REPORT_ALTERNATE_KEYS != 0 {
            Mode::REPORT_ALTERNATE_KEYS
        } else {
            0
        }) | (if b & KeyboardModes::REPORT_ALL_KEYS_AS_ESC != 0 {
            Mode::REPORT_ALL_KEYS_AS_ESC
        } else {
            0
        }) | (if b & KeyboardModes::REPORT_ASSOCIATED_TEXT != 0 {
            Mode::REPORT_ASSOCIATED_TEXT
        } else {
            0
        });
        Mode { bits }
    }
}

impl vstd::std_specs::convert::FromSpecImpl<KeyboardModes> for Mode {
    open spec fn obeys_from_spec() -> bool {
        true
    }

    open spec fn from_spec(v: KeyboardModes) -> Mode {
        Mode { bits: keyboard_mode_bits(v) }
    }
}

/// A cell of the surface's visible grid.
#[derive(Clone, Copy, Debug, PartialEq, Eq, Structural)]
pub struct SurfaceCell {
    pub col: u16,
    pub row: u16,
}

/// A cell in screen coordinates (rows counted from the top of history).
#[derive(Clone, Copy, Debug, PartialEq, Eq, Structural)]
pub struct SurfaceScreenCell {
    pub col: u16,
    pub row: u32,
}

#[derive(Clone, Copy, Debug, PartialEq, Eq, Structural)]
pub enum SurfaceCellSide {
    Left,
    Right,
}

#[derive(Clone, Copy, Debug, PartialEq, Eq, Structural)]
pub enum SurfaceMouseButton {
    Left,
    Middle,
    Right,
}

#[derive(Clone, Copy, Debug, PartialEq, Eq, Structural)]
pub enum SurfaceMouseEventKind {
    Down,
    Up,
    Move,
}

pub open spec fn button_code(button: SurfaceMouseButton) -> u8 {
    match button {
        SurfaceMouseButton::Left => 0,
        SurfaceMouseButton::Middle => 1,
        SurfaceMouseButton::Right => 2,
    }
}

/// The button number of a mouse report.
pub fn mouse_button_code(button: SurfaceMouseButton) -> (r: Option<u8>)
    ensures
        r == Some(button_code(button)),
{
    match button {
        SurfaceMouseButton::Left => Some(0),
        SurfaceMouseButton::Middle => Some(1),
        SurfaceMouseButton::Right => Some(2),
    }
}

/// The code of a motion report: with any-motion tracking (DECSET 1003)
/// every move reports, a move without a button as the no-button id 3; with
/// drag tracking (DECSET 1002) only moves with a button held report.
pub open spec fn motion_code_spec(mode: Mode, button: Option<SurfaceMouseButton>) -> Option<u8> {
    if mode.has(Mode::MOUSE_MOTION) {
        Some(
            (32 + match button {
                Some(b) => button_code(b),
                None => 3,
            }) as u8,
        )
    } else if mode.has(Mode::MOUSE_DRAG) {
        match button {
            Some(b) => Some((32 + button_code(b)) as u8),
            None => None,
        }
    } else {
        None
    }
}

pub fn mouse_motion_code(mode: Mode, button: Option<SurfaceMouseButton>) -> (r: Option<u8>)
    ensures
        r == motion_code_spec(mode, button),
{
    let code = match button {
        Some(b) => mouse_button_code(b),
        None => None,
    };
    if mode.contains(Mode::MOUSE_MOTION) {
        Some(
            32 + match code {
                Some(c) => c,
                None => 3,
            },
        )
    } else if mode.contains(Mode::MOUSE_DRAG) {
        match code {
            Some(c) => Some(32 + c),
            None => None,
        }
    } else {
        None
    }
}

/// The modifier bits of a mouse report: shift 4, alt 8, control 16.
pub fn mouse_report_mods(shift: bool, alt: bool, control: bool) -> (mods: u8)
    ensures
        mods == (if shift {
            4int
        } else {
            0
        }) + (if alt {
            8int
        } else {
            0
        }) + (if control {
            16int
        } else {
            0
        }),
{
    let mut mods: u8 = 0;
    if shift {
        mods = mods + 4;
    }
    if alt {
        mods = mods + 8;
    }
    if control {
        mods = mods + 16;
    }
    mods
}

} // verus!
