//! Core of a modal, terminal-resident text editor: line buffers, cursor and
//! viewport clamping, and the mode/action state machine.
//!
//! Everything here is pure state manipulation with verified invariants; the
//! terminal driver, syntax highlighting and file I/O live outside the library
//! and talk to it through plain values.

pub mod buffer;
pub mod editor;
pub mod laws;
pub mod text;
