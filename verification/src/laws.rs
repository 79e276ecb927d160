//! The library's cross-cutting guarantees, stated and proved over the
//! abstract transition functions that the executable contracts are tied
//! to.
//!
//! Guarantees that are a single function's contract live on that
//! function instead: that a stale-generation event mutates nothing is
//! the `ensures` of [`crate::supervisor::ProcessManager::handle_output`],
//! [`crate::supervisor::ProcessManager::handle_exit`] and
//! [`crate::supervisor::ProcessManager::handle_error`]; that the
//! scrollback and line caps always hold is the well-formedness clause in
//! the `ensures` of [`crate::emulator::TerminalBuffer::write`].

use crate::emulator::{
    lemma_step_preserves_wf, step, wf, write_seq, Cell, EmuModel, ParseMode,
};
use crate::supervisor::{
    proc_wf, sup_confirm, sup_exit, sup_fail, sup_kill, sup_output, sup_prepare, ProcModel,
    StatusModel,
};
use vstd::prelude::*;

verus! {

/// The generation of a process never decreases, and it increases —
/// by exactly one — only when a start is prepared: every other
/// life-cycle transition leaves it untouched.
pub proof fn lemma_generation_monotonic(
    p: ProcModel,
    data: Seq<u8>,
    code: Option<i32>,
    msg: Seq<char>,
    cols: int,
    rows: int,
)
    ensures
        sup_prepare(p).generation == p.generation + 1,
        sup_confirm(p).generation == p.generation,
        sup_kill(p).generation == p.generation,
        sup_exit(p, code).generation == p.generation,
        sup_fail(p, msg).generation == p.generation,
        sup_output(p, data, cols, rows).generation == p.generation,
{
}

/// After a kill and a completed restart, the live generation lies
/// strictly above the old one, so every event stamped by the killed
/// instance is stale and — by the event handlers' contracts — mutates
/// nothing.
pub proof fn lemma_restart_outruns_old_events(p: ProcModel)
    ensures
        sup_confirm(sup_prepare(sup_kill(p))).generation == p.generation + 1,
        sup_confirm(sup_prepare(sup_kill(p))).generation != p.generation,
{
}

/// Killing a process that is already stopped changes nothing at all:
/// not its status, not its buffer, not its generation.
pub proof fn lemma_kill_stopped_is_noop(p: ProcModel)
    requires
        proc_wf(p),
        p.status is Stopped,
    ensures
        sup_kill(p) == p,
{
    assert(sup_kill(p) =~= p);
}

/// Erasing the display (`ESC[2J`) from any state that is not in the
/// middle of a multi-byte character leaves exactly one empty line with
/// the cursor at the origin. (Mid-character, the bytes would be consumed
/// as a failed continuation and printed, not parsed as an escape.)
pub proof fn lemma_erase_display_resets(m: EmuModel)
    requires
        !(m.mode is Utf8),
    ensures
        ({
            let m2 = write_seq(m, seq![0x1bu8, 0x5bu8, 0x32u8, 0x4au8]);
            &&& m2.lines == seq![Seq::<Cell>::empty()]
            &&& m2.row == 0
            &&& m2.col == 0
        }),
{
    let data = seq![0x1bu8, 0x5bu8, 0x32u8, 0x4au8];
    let d1 = seq![0x5bu8, 0x32u8, 0x4au8];
    let d2 = seq![0x32u8, 0x4au8];
    let d3 = seq![0x4au8];
    let m1 = step(m, 0x1b);
    assert(m1 == (EmuModel { mode: ParseMode::Escape, ..m }));
    let m2 = step(m1, 0x5b);
    let m3 = step(m2, 0x32);
    let m4 = step(m3, 0x4a);
    assert(m4.lines =~= seq![Seq::<Cell>::empty()]);
    assert(data[0] == 0x1b && data.drop_first() =~= d1);
    assert(write_seq(m, data) == write_seq(m1, d1));
    assert(d1[0] == 0x5b && d1.drop_first() =~= d2);
    assert(write_seq(m1, d1) == write_seq(m2, d2));
    assert(d2[0] == 0x32 && d2.drop_first() =~= d3);
    assert(write_seq(m2, d2) == write_seq(m3, d3));
    assert(d3[0] == 0x4a && d3.drop_first() =~= Seq::<u8>::empty());
    assert(write_seq(m3, d3) == write_seq(m4, Seq::<u8>::empty()));
    assert(write_seq(m4, Seq::<u8>::empty()) == m4);
}

/// No byte stream, however long or malformed, can break the terminal
/// model's bounds: after writing any sequence to a well-formed buffer,
/// the stored line count is still at most the scrollback cap, every line
/// still holds at most the cell cap, and the cursor is still within both
/// caps — so no cell index ever reaches the line cap.
pub proof fn lemma_write_never_exceeds_caps(m: EmuModel, data: Seq<u8>)
    requires
        wf(m),
    ensures
        wf(write_seq(m, data)),
        write_seq(m, data).lines.len() <= crate::emulator::MAX_SCROLLBACK as int,
        forall|i: int|
            0 <= i < write_seq(m, data).lines.len() ==> (#[trigger] write_seq(m, data).lines[
            i]).len() <= crate::emulator::MAX_LINE_WIDTH as int,
    decreases data.len(),
{
    if data.len() > 0 {
        lemma_step_preserves_wf(m, data[0]);
        lemma_write_never_exceeds_caps(step(m, data[0]), data.drop_first());
    }
}

/// Whether the viewport follows output survives output itself: handling
/// an output event never changes `auto_scroll`, so a viewport pinned to
/// the bottom stays pinned through subsequent output (and keeps showing
/// the bottom, by the scroll offset that `sup_output` computes).
pub proof fn lemma_output_keeps_pin(p: ProcModel, data: Seq<u8>, cols: int, rows: int)
    ensures
        sup_output(p, data, cols, rows).auto_scroll == p.auto_scroll,
{
}

} // verus!
