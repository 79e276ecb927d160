//! A multi-process terminal multiplexer core: a verified terminal-emulation
//! engine that interprets raw byte streams (including ANSI/VT100 escape
//! sequences) into a structured screen buffer, and a process-supervision
//! state machine that tags each process life-cycle with a generation counter
//! so stale output from a killed instance can never corrupt live state.
//!
//! The crate performs no I/O itself: the surrounding program owns the
//! pseudo-terminals and background readers, feeds their bytes and
//! life-cycle events to the entry points here, and renders the snapshots
//! it reads back.

pub mod config;
pub mod digits;
pub mod emulator;
pub mod laws;
pub mod style;
pub mod supervisor;
pub mod ui_state;
pub mod viewport;
