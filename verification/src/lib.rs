//! Terminal-side logic of a multi-tab terminal: grid geometry, text
//! selection and its boundary searches, vi-mode motions, the OSC 133
//! shell-integration prompt sniffer, ConPTY resize-echo realignment,
//! search corpora and UTF-8 validation.

pub mod cell;
pub mod conpty;
pub mod conpty_resize;
pub mod corpus;
pub mod decimal;
pub mod frozen;
pub mod echo;
pub mod grid;
pub mod osc133;
pub mod pacing;
pub mod paste;
pub mod marks;
pub mod mouse;
pub mod pos;
pub mod powershell;
pub mod pty;
pub mod row;
pub mod selection;
pub mod session;
pub mod sniffer;
pub mod text;
pub mod utf8;
pub mod vi_motion;
pub mod write_queue;
