//! The terminal-emulation engine: consumes a raw byte stream (plain text,
//! C0 controls, CSI escape sequences, UTF-8) and maintains a styled screen
//! buffer with bounded scrollback, a cursor, a running style, and a queue
//! of pending replies to terminal queries.
//!
//! The whole engine is specified by an abstract model ([`EmuModel`]) and a
//! byte-step transition function ([`step`]); [`TerminalBuffer::write`]
//! ensures that the buffer after a write is exactly the fold of `step`
//! over the bytes written. Malformed or unsupported input never fails:
//! every byte has a defined (possibly no-op) transition.

use crate::digits::{dec_bytes, dec_digits};
use crate::style::{apply_sgr, plain_style, sgr_apply, Style};
use vstd::prelude::*;

verus! {

/// Hard cap on stored lines; the oldest lines are trimmed first.
pub const MAX_SCROLLBACK: usize = 10000;

/// Hard cap on cells per line; writes beyond it are clamped to the last
/// column so no cell index ever reaches this value.
pub const MAX_LINE_WIDTH: usize = 2000;

/// One character cell together with the style it was printed with.
#[derive(Clone, Copy, Debug, PartialEq, Eq, Structural)]
pub struct Cell {
    pub c: char,
    pub style: Style,
}

/// A line of cells. It grows only as far as content was written, up to
/// [`MAX_LINE_WIDTH`]; there is no implicit wrapping at write time.
#[derive(Clone, Debug)]
pub struct Line {
    pub cells: Vec<Cell>,
}

impl View for Line {
    type V = Seq<Cell>;

    open spec fn view(&self) -> Seq<Cell> {
        self.cells@
    }
}

impl Line {
    /// An empty line.
    pub fn new() -> (r: Line)
        ensures
            r@ == Seq::<Cell>::empty(),
    {
        Line { cells: Vec::new() }
    }
}

/// The blank cell used to pad a line out to the cursor column and to
/// blank erased cells.
pub open spec fn blank_cell() -> Cell {
    Cell { c: ' ', style: plain_style() }
}

/// Where the escape-sequence parser stands between bytes.
#[derive(Clone, Copy, Debug, PartialEq, Eq, Structural)]
pub enum ParseMode {
    /// Plain text.
    Ground,
    /// After an ESC byte.
    Escape,
    /// After ESC with intermediate bytes, awaiting a final byte.
    EscapeIntermediate,
    /// Inside a control sequence (after ESC `[`), collecting parameters.
    Csi,
    /// Inside a control sequence after an intermediate byte.
    CsiIntermediate,
    /// Inside a malformed control sequence, swallowed up to its final byte.
    CsiIgnore,
    /// Inside an OSC / DCS / SOS / PM / APC string, skipped up to its
    /// terminator.
    SkipString,
    /// Inside a multi-byte UTF-8 character.
    Utf8,
}

/// The abstract state of a terminal buffer: the screen content, cursor,
/// geometry, running style, saved cursor, pending query replies, and the
/// escape-sequence parser state carried between writes.
#[verifier::ext_equal]
pub ghost struct EmuModel {
    /// Stored lines, oldest first.
    pub lines: Seq<Seq<Cell>>,
    /// Cursor row, an index into `lines` once the row has been realized.
    pub row: int,
    /// Cursor column.
    pub col: int,
    /// Viewport width, advisory only: content is never reflowed.
    pub cols: int,
    /// Viewport height.
    pub rows: int,
    /// The running style that printed cells snapshot.
    pub style: Style,
    /// The cursor position stored by CSI `s`, restored by CSI `u`.
    pub saved: Option<(int, int)>,
    /// Pending replies to terminal queries, oldest first.
    pub resp: Seq<Seq<u8>>,
    /// Parser mode.
    pub mode: ParseMode,
    /// Completed CSI parameters.
    pub params: Seq<u16>,
    /// The CSI parameter currently being accumulated.
    pub cur: u16,
    /// Whether a digit of `cur` has been seen.
    pub got: bool,
    /// Whether a private-marker byte was seen at the start of the sequence.
    pub mark: bool,
    /// Code point accumulated so far for a multi-byte UTF-8 character.
    pub ucp: int,
    /// Continuation bytes still expected.
    pub urem: int,
    /// Lowest acceptable value for the next continuation byte.
    pub ulo: int,
    /// Highest acceptable value for the next continuation byte.
    pub uhi: int,
}

/// Every stored line respects the per-line cell cap.
pub open spec fn lines_wf(lines: Seq<Seq<Cell>>) -> bool {
    forall|i: int| 0 <= i < lines.len() ==> (#[trigger] lines[i]).len() <= MAX_LINE_WIDTH as int
}

/// Well-formedness of the model: at least one line, caps respected,
/// cursor and saved cursor within the caps, parameter list bounded, and
/// the UTF-8 accumulator small enough that the next step cannot overflow.
pub open spec fn wf(m: EmuModel) -> bool {
    &&& 1 <= m.lines.len() <= MAX_SCROLLBACK as int
    &&& lines_wf(m.lines)
    &&& 0 <= m.row < MAX_SCROLLBACK as int
    &&& 0 <= m.col < MAX_LINE_WIDTH as int
    &&& match m.saved {
        Some(rc) => 0 <= rc.0 < MAX_SCROLLBACK as int && 0 <= rc.1 < MAX_LINE_WIDTH as int,
        None => true,
    }
    &&& m.params.len() <= 32
    &&& (m.mode is Utf8 ==> {
        &&& 1 <= m.urem <= 3
        &&& 0 <= m.ucp
        &&& (m.urem == 3 ==> m.ucp <= 0x7)
        &&& (m.urem == 2 ==> m.ucp <= 0x1ff)
        &&& (m.urem == 1 ==> m.ucp <= 0x7fff)
        &&& 0x80 <= m.ulo <= 0xc0
        &&& 0x80 <= m.uhi <= 0xbf
    })
}

// ---------------------------------------------------------------------------
// Screen operations on the model.
// ---------------------------------------------------------------------------

/// `lines` grown with empty lines until row `r` exists.
pub open spec fn grown_lines(lines: Seq<Seq<Cell>>, r: int) -> Seq<Seq<Cell>> {
    if lines.len() > r {
        lines
    } else {
        lines + Seq::new((r + 1 - lines.len()) as nat, |i: int| Seq::<Cell>::empty())
    }
}

/// Makes the cursor row exist: grows the buffer to the cursor row, then
/// trims the oldest lines down to [`MAX_SCROLLBACK`], moving the cursor
/// row up in lockstep.
pub open spec fn m_ensure_row(m: EmuModel) -> EmuModel {
    let g = grown_lines(m.lines, m.row);
    let over = if g.len() > MAX_SCROLLBACK as int {
        g.len() - MAX_SCROLLBACK as int
    } else {
        0
    };
    EmuModel {
        lines: g.skip(over),
        row: if m.row >= over {
            m.row - over
        } else {
            0
        },
        ..m
    }
}

/// `cs` grown with blank cells until column `c` exists.
pub open spec fn grown_cells(cs: Seq<Cell>, c: int) -> Seq<Cell> {
    if cs.len() > c {
        cs
    } else {
        cs + Seq::new((c + 1 - cs.len()) as nat, |i: int| blank_cell())
    }
}

/// Makes the cursor cell exist: realizes the cursor row, then pads its
/// line with blanks out to the cursor column.
pub open spec fn m_ensure_col(m: EmuModel) -> EmuModel {
    let m1 = m_ensure_row(m);
    EmuModel { lines: m1.lines.update(m1.row, grown_cells(m1.lines[m1.row], m1.col)), ..m1 }
}

/// Prints one character: overwrites the cell at the cursor with the
/// running style and advances the column by one, clamped to the cap
/// (overwrite, not insert; no auto-wrap).
pub open spec fn m_put_char(m: EmuModel, ch: char) -> EmuModel {
    let m1 = m_ensure_col(m);
    let line = m1.lines[m1.row].update(m1.col, Cell { c: ch, style: m1.style });
    EmuModel {
        lines: m1.lines.update(m1.row, line),
        col: if m1.col + 1 < MAX_LINE_WIDTH as int {
            m1.col + 1
        } else {
            MAX_LINE_WIDTH as int - 1
        },
        ..m1
    }
}

/// Line feed: next row, column zero, growing and trimming as needed.
pub open spec fn m_newline(m: EmuModel) -> EmuModel {
    m_ensure_row(EmuModel { row: m.row + 1, col: 0, ..m })
}

/// The next tab stop: the next multiple of 8, clamped to the line cap.
pub open spec fn tab_stop(c: int) -> int {
    let t = ((c + 8) / 8) * 8;
    if t < MAX_LINE_WIDTH as int {
        t
    } else {
        MAX_LINE_WIDTH as int - 1
    }
}

/// A C0 control byte: backspace moves the column back (no deletion), tab
/// jumps to the next tab stop, LF / VT / FF start a new line, CR returns
/// to column zero; everything else is ignored.
pub open spec fn m_execute(m: EmuModel, b: u8) -> EmuModel {
    if b == 0x08 {
        EmuModel {
            col: if m.col > 0 {
                m.col - 1
            } else {
                0
            },
            ..m
        }
    } else if b == 0x09 {
        EmuModel { col: tab_stop(m.col), ..m }
    } else if b == 0x0a || b == 0x0b || b == 0x0c {
        m_newline(m)
    } else if b == 0x0d {
        EmuModel { col: 0, ..m }
    } else {
        m
    }
}

/// Erase-in-line from column `c` to the end: truncates the cursor line.
pub open spec fn m_clear_line_from(m: EmuModel, c: int) -> EmuModel {
    let m1 = m_ensure_row(m);
    let line = m1.lines[m1.row];
    let line2 = if c < line.len() {
        line.take(c)
    } else {
        line
    };
    EmuModel { lines: m1.lines.update(m1.row, line2), ..m1 }
}

/// Erase-in-display mode 0: truncates the cursor line from the cursor
/// and drops every row below it.
pub open spec fn m_clear_screen_from_cursor(m: EmuModel) -> EmuModel {
    let m1 = m_clear_line_from(m, m.col);
    EmuModel {
        lines: if m1.lines.len() > m1.row + 1 {
            m1.lines.take(m1.row + 1)
        } else {
            m1.lines
        },
        ..m1
    }
}

/// Erase-in-display modes 2 and 3: exactly one empty line remains and
/// the cursor returns to the origin.
pub open spec fn m_clear_screen(m: EmuModel) -> EmuModel {
    EmuModel { lines: seq![Seq::<Cell>::empty()], row: 0, col: 0, ..m }
}

/// Erase-in-line mode 1: blanks the cells from the start of the cursor
/// line through the cursor column, inclusive, without shortening it.
pub open spec fn m_clear_line_to_cursor(m: EmuModel) -> EmuModel {
    let m1 = m_ensure_row(m);
    let line = m1.lines[m1.row];
    let line2 = Seq::new(
        line.len(),
        |i: int|
            if i <= m1.col {
                blank_cell()
            } else {
                line[i]
            },
    );
    EmuModel { lines: m1.lines.update(m1.row, line2), ..m1 }
}

/// CSI parameter `i`, with zero and missing parameters replaced by the
/// default `d`.
pub open spec fn param_or(ps: Seq<u16>, i: int, d: u16) -> u16 {
    if 0 <= i < ps.len() && ps[i] != 0 {
        ps[i]
    } else {
        d
    }
}

/// The fixed reply to a Device Attributes query: a VT100 with advanced
/// video option, `ESC[?1;2c`.
pub open spec fn da_reply() -> Seq<u8> {
    seq![0x1b, 0x5b, 0x3f, 0x31, 0x3b, 0x32, 0x63]
}

/// The fixed "OK" reply to a Device Status Report mode 5, `ESC[0n`.
pub open spec fn dsr_ok_reply() -> Seq<u8> {
    seq![0x1b, 0x5b, 0x30, 0x6e]
}

/// The cursor-position reply to a Device Status Report mode 6:
/// `ESC[{row};{col}R` with 1-based row and column.
pub open spec fn cursor_reply(row: int, col: int) -> Seq<u8> {
    seq![0x1bu8, 0x5bu8] + dec_digits((row + 1) as nat) + seq![0x3bu8] + dec_digits(
        (col + 1) as nat,
    ) + seq![0x52u8]
}

/// Dispatch of a complete control sequence with final byte `a` and
/// parameters `ps`. Cursor moves clamp the column to the line cap and
/// saturate upward moves at the top; downward moves grow the buffer.
/// Unknown final bytes are ignored.
pub open spec fn m_csi(m: EmuModel, ps: Seq<u16>, a: u8) -> EmuModel {
    if a == 0x41 {  // A: cursor up
        let n = param_or(ps, 0, 1) as int;
        EmuModel {
            row: if m.row >= n {
                m.row - n
            } else {
                0
            },
            ..m
        }
    } else if a == 0x42 {  // B: cursor down
        m_ensure_row(EmuModel { row: m.row + param_or(ps, 0, 1) as int, ..m })
    } else if a == 0x43 {  // C: cursor forward
        let c = m.col + param_or(ps, 0, 1) as int;
        EmuModel {
            col: if c < MAX_LINE_WIDTH as int {
                c
            } else {
                MAX_LINE_WIDTH as int - 1
            },
            ..m
        }
    } else if a == 0x44 {  // D: cursor back
        let n = param_or(ps, 0, 1) as int;
        EmuModel {
            col: if m.col >= n {
                m.col - n
            } else {
                0
            },
            ..m
        }
    } else if a == 0x45 {  // E: cursor next line
        m_ensure_row(EmuModel { row: m.row + param_or(ps, 0, 1) as int, col: 0, ..m })
    } else if a == 0x46 {  // F: cursor previous line
        let n = param_or(ps, 0, 1) as int;
        EmuModel {
            row: if m.row >= n {
                m.row - n
            } else {
                0
            },
            col: 0,
            ..m
        }
    } else if a == 0x47 {  // G: cursor horizontal absolute
        let c = param_or(ps, 0, 1) as int - 1;
        EmuModel {
            col: if c < MAX_LINE_WIDTH as int {
                c
            } else {
                MAX_LINE_WIDTH as int - 1
            },
            ..m
        }
    } else if a == 0x48 || a == 0x66 {  // H, f: cursor position
        let r = param_or(ps, 0, 1) as int - 1;
        let c = param_or(ps, 1, 1) as int - 1;
        m_ensure_row(
            EmuModel {
                row: r,
                col: if c < MAX_LINE_WIDTH as int {
                    c
                } else {
                    MAX_LINE_WIDTH as int - 1
                },
                ..m
            },
        )
    } else if a == 0x4a {  // J: erase in display
        let mode = param_or(ps, 0, 0);
        if mode == 0 {
            m_clear_screen_from_cursor(m)
        } else if mode == 2 || mode == 3 {
            m_clear_screen(m)
        } else {
            m
        }
    } else if a == 0x4b {  // K: erase in line
        let mode = param_or(ps, 0, 0);
        if mode == 0 {
            m_clear_line_from(m, m.col)
        } else if mode == 1 {
            m_clear_line_to_cursor(m)
        } else if mode == 2 {
            let m1 = m_ensure_row(m);
            EmuModel { lines: m1.lines.update(m1.row, Seq::<Cell>::empty()), ..m1 }
        } else {
            m
        }
    } else if a == 0x6d {  // m: select graphic rendition
        EmuModel { style: sgr_apply(m.style, ps), ..m }
    } else if a == 0x73 {  // s: save cursor
        EmuModel { saved: Some((m.row, m.col)), ..m }
    } else if a == 0x75 {  // u: restore cursor
        match m.saved {
            Some(rc) => EmuModel { row: rc.0, col: rc.1, ..m },
            None => m,
        }
    } else if a == 0x63 {  // c: device attributes
        EmuModel { resp: m.resp.push(da_reply()), ..m }
    } else if a == 0x6e {  // n: device status report
        let mode = param_or(ps, 0, 0);
        if mode == 5 {
            EmuModel { resp: m.resp.push(dsr_ok_reply()), ..m }
        } else if mode == 6 {
            EmuModel { resp: m.resp.push(cursor_reply(m.row, m.col)), ..m }
        } else {
            m
        }
    } else {
        m
    }
}

// ---------------------------------------------------------------------------
// The byte-level parser.
// ---------------------------------------------------------------------------

/// Whether `cp` is a Unicode scalar value.
pub open spec fn valid_scalar(cp: int) -> bool {
    0 <= cp <= 0x10ffff && !(0xd800 <= cp <= 0xdfff)
}

/// The character for a decoded code point; invalid values become the
/// replacement character.
pub open spec fn cp_char(cp: int) -> char {
    if valid_scalar(cp) {
        cp as char
    } else {
        '\u{fffd}'
    }
}

/// A fresh CSI collection state, entered on ESC `[`.
pub open spec fn enter_csi(m: EmuModel) -> EmuModel {
    EmuModel {
        mode: ParseMode::Csi,
        params: Seq::<u16>::empty(),
        cur: 0,
        got: false,
        mark: false,
        ..m
    }
}

/// The completed parameter list at dispatch time: the accumulated
/// parameter joins the list if any parameter byte was seen, up to the
/// 32-parameter cap.
pub open spec fn finished_params(m: EmuModel) -> Seq<u16> {
    if (m.got || m.params.len() > 0) && m.params.len() < 32 {
        m.params.push(m.cur)
    } else {
        m.params
    }
}

/// One decimal digit appended to the accumulating parameter, saturating
/// at the parameter type's maximum.
pub open spec fn push_digit(cur: u16, d: u8) -> u16 {
    let v = cur as int * 10 + d as int;
    if v > 0xffff {
        0xffff
    } else {
        v as u16
    }
}

/// A parameter separator: pushes the accumulated parameter if the list
/// has room.
pub open spec fn sep_param(m: EmuModel) -> EmuModel {
    EmuModel {
        params: if m.params.len() < 32 {
            m.params.push(m.cur)
        } else {
            m.params
        },
        cur: 0,
        got: false,
        ..m
    }
}

/// The UTF-8 lead-byte classification: `(initial bits, continuation
/// count, admissible range for the first continuation byte)`, or `None`
/// for a byte that cannot begin a multi-byte character.
pub open spec fn utf8_lead(b: u8) -> Option<(int, int, int, int)> {
    if 0xc2 <= b <= 0xdf {
        Some((b as int - 0xc0, 1, 0x80, 0xbf))
    } else if b == 0xe0 {
        Some((0, 2, 0xa0, 0xbf))
    } else if 0xe1 <= b <= 0xec {
        Some((b as int - 0xe0, 2, 0x80, 0xbf))
    } else if b == 0xed {
        Some((0xd, 2, 0x80, 0x9f))
    } else if 0xee <= b <= 0xef {
        Some((b as int - 0xe0, 2, 0x80, 0xbf))
    } else if b == 0xf0 {
        Some((0, 3, 0x90, 0xbf))
    } else if 0xf1 <= b <= 0xf3 {
        Some((b as int - 0xf0, 3, 0x80, 0xbf))
    } else if b == 0xf4 {
        Some((4, 3, 0x80, 0x8f))
    } else {
        None
    }
}

/// One byte in Ground mode: ESC starts an escape sequence, other C0
/// controls execute, printable ASCII prints, and high bytes begin or
/// fail UTF-8 decoding (a failed decode prints the replacement
/// character).
pub open spec fn step_ground(m: EmuModel, b: u8) -> EmuModel {
    if b == 0x1b {
        EmuModel { mode: ParseMode::Escape, ..m }
    } else if b < 0x20 {
        m_execute(m, b)
    } else if b < 0x80 {
        m_put_char(m, b as char)
    } else {
        match utf8_lead(b) {
            Some(l) => EmuModel {
                mode: ParseMode::Utf8,
                ucp: l.0,
                urem: l.1,
                ulo: l.2,
                uhi: l.3,
                ..m
            },
            None => m_put_char(m, '\u{fffd}'),
        }
    }
}

/// One byte after ESC: `[` enters a control sequence; `]`, `P`, `X`,
/// `^`, `_` begin strings that are skipped to their terminator;
/// intermediates collect; other finals dispatch nothing; C0 controls
/// still execute.
pub open spec fn step_escape(m: EmuModel, b: u8) -> EmuModel {
    if b == 0x5b {
        enter_csi(m)
    } else if b == 0x5d || b == 0x50 || b == 0x58 || b == 0x5e || b == 0x5f {
        EmuModel { mode: ParseMode::SkipString, ..m }
    } else if b == 0x1b {
        m
    } else if b == 0x18 || b == 0x1a {
        EmuModel { mode: ParseMode::Ground, ..m }
    } else if b < 0x18 || b == 0x19 || (0x1c <= b && b <= 0x1f) {
        m_execute(m, b)
    } else if 0x20 <= b && b <= 0x2f {
        EmuModel { mode: ParseMode::EscapeIntermediate, ..m }
    } else if b <= 0x7e {
        EmuModel { mode: ParseMode::Ground, ..m }
    } else {
        EmuModel { mode: ParseMode::Ground, ..m }
    }
}

/// One byte after an ESC intermediate: a final byte ends the (ignored)
/// sequence.
pub open spec fn step_escape_intermediate(m: EmuModel, b: u8) -> EmuModel {
    if b == 0x1b {
        EmuModel { mode: ParseMode::Escape, ..m }
    } else if b == 0x18 || b == 0x1a {
        EmuModel { mode: ParseMode::Ground, ..m }
    } else if b < 0x20 {
        m_execute(m, b)
    } else if 0x20 <= b && b <= 0x2f {
        m
    } else if b <= 0x7e {
        EmuModel { mode: ParseMode::Ground, ..m }
    } else {
        m
    }
}

/// One byte while collecting CSI parameters: digits accumulate, `;` and
/// `:` separate, a private marker is accepted only before anything else,
/// an intermediate byte freezes the parameters, a final byte dispatches,
/// and C0 controls still execute.
pub open spec fn step_csi(m: EmuModel, b: u8) -> EmuModel {
    if b == 0x1b {
        EmuModel { mode: ParseMode::Escape, ..m }
    } else if b == 0x18 || b == 0x1a {
        EmuModel { mode: ParseMode::Ground, ..m }
    } else if b < 0x20 {
        m_execute(m, b)
    } else if 0x30 <= b && b <= 0x39 {
        EmuModel { cur: push_digit(m.cur, (b - 0x30) as u8), got: true, ..m }
    } else if b == 0x3a || b == 0x3b {
        sep_param(m)
    } else if 0x3c <= b && b <= 0x3f {
        if !m.got && m.params.len() == 0 && !m.mark {
            EmuModel { mark: true, ..m }
        } else {
            EmuModel { mode: ParseMode::CsiIgnore, ..m }
        }
    } else if 0x20 <= b && b <= 0x2f {
        EmuModel { mode: ParseMode::CsiIntermediate, ..m }
    } else if b <= 0x7e {
        dispatch_csi(m, b)
    } else {
        m
    }
}

/// Dispatch at the final byte of a control sequence: the parser returns
/// to Ground with its parameter scratch cleared, and the completed
/// parameters act on the screen.
pub open spec fn dispatch_csi(m: EmuModel, b: u8) -> EmuModel {
    m_csi(
        EmuModel {
            mode: ParseMode::Ground,
            params: Seq::<u16>::empty(),
            cur: 0,
            got: false,
            mark: false,
            ..m
        },
        finished_params(m),
        b,
    )
}

/// One byte after a CSI intermediate: only further intermediates or the
/// final byte are legal; parameter bytes turn the sequence malformed.
pub open spec fn step_csi_intermediate(m: EmuModel, b: u8) -> EmuModel {
    if b == 0x1b {
        EmuModel { mode: ParseMode::Escape, ..m }
    } else if b == 0x18 || b == 0x1a {
        EmuModel { mode: ParseMode::Ground, ..m }
    } else if b < 0x20 {
        m_execute(m, b)
    } else if 0x20 <= b && b <= 0x2f {
        m
    } else if 0x30 <= b && b <= 0x3f {
        EmuModel { mode: ParseMode::CsiIgnore, ..m }
    } else if b <= 0x7e {
        dispatch_csi(m, b)
    } else {
        m
    }
}

/// One byte of a malformed control sequence: swallowed up to the final
/// byte, which dispatches nothing.
pub open spec fn step_csi_ignore(m: EmuModel, b: u8) -> EmuModel {
    if b == 0x1b {
        EmuModel { mode: ParseMode::Escape, ..m }
    } else if b == 0x18 || b == 0x1a {
        EmuModel { mode: ParseMode::Ground, ..m }
    } else if b < 0x20 {
        m_execute(m, b)
    } else if 0x40 <= b && b <= 0x7e {
        EmuModel { mode: ParseMode::Ground, ..m }
    } else {
        m
    }
}

/// One byte of an OSC / DCS / SOS / PM / APC string: swallowed up to a
/// BEL or an ESC-introduced terminator.
pub open spec fn step_skip_string(m: EmuModel, b: u8) -> EmuModel {
    if b == 0x07 {
        EmuModel { mode: ParseMode::Ground, ..m }
    } else if b == 0x1b {
        EmuModel { mode: ParseMode::Escape, ..m }
    } else if b == 0x18 || b == 0x1a {
        EmuModel { mode: ParseMode::Ground, ..m }
    } else {
        m
    }
}

/// One continuation byte of a UTF-8 character: accumulates if in range
/// (printing the decoded character when complete), otherwise prints the
/// replacement character.
pub open spec fn step_utf8(m: EmuModel, b: u8) -> EmuModel {
    if m.ulo <= b as int && b as int <= m.uhi {
        let cp = m.ucp * 64 + (b as int - 0x80);
        if m.urem <= 1 {
            let m1 = m_put_char(m, cp_char(cp));
            EmuModel { mode: ParseMode::Ground, ..m1 }
        } else {
            EmuModel { ucp: cp, urem: m.urem - 1, ulo: 0x80, uhi: 0xbf, ..m }
        }
    } else {
        let m1 = m_put_char(m, '\u{fffd}');
        EmuModel { mode: ParseMode::Ground, ..m1 }
    }
}

/// The transition of the whole engine on one input byte.
pub open spec fn step(m: EmuModel, b: u8) -> EmuModel {
    match m.mode {
        ParseMode::Ground => step_ground(m, b),
        ParseMode::Escape => step_escape(m, b),
        ParseMode::EscapeIntermediate => step_escape_intermediate(m, b),
        ParseMode::Csi => step_csi(m, b),
        ParseMode::CsiIntermediate => step_csi_intermediate(m, b),
        ParseMode::CsiIgnore => step_csi_ignore(m, b),
        ParseMode::SkipString => step_skip_string(m, b),
        ParseMode::Utf8 => step_utf8(m, b),
    }
}

/// The transition of the engine on a whole byte sequence: the fold of
/// [`step`] over the bytes, in order.
pub open spec fn write_seq(m: EmuModel, data: Seq<u8>) -> EmuModel
    decreases data.len(),
{
    if data.len() == 0 {
        m
    } else {
        write_seq(step(m, data[0]), data.drop_first())
    }
}

/// Folding one more byte at the end of a write.
pub proof fn lemma_write_seq_snoc(m: EmuModel, data: Seq<u8>, b: u8)
    ensures
        write_seq(m, data.push(b)) == step(write_seq(m, data), b),
    decreases data.len(),
{
    if data.len() == 0 {
        assert(data.push(b).drop_first() =~= Seq::<u8>::empty());
        assert(data.push(b)[0] == b);
        assert(write_seq(m, data.push(b)) == write_seq(
            step(m, b),
            data.push(b).drop_first(),
        ));
        assert(write_seq(step(m, b), Seq::<u8>::empty()) == step(m, b));
        assert(write_seq(m, data) == m);
    } else {
        assert(data.push(b)[0] == data[0]);
        assert(data.push(b).drop_first() =~= data.drop_first().push(b));
        assert(write_seq(m, data.push(b)) == write_seq(
            step(m, data[0]),
            data.drop_first().push(b),
        ));
        lemma_write_seq_snoc(step(m, data[0]), data.drop_first(), b);
        assert(write_seq(m, data) == write_seq(step(m, data[0]), data.drop_first()));
    }
}

/// The number of stored lines that carry content: the line count with
/// trailing empty lines excluded, but at least one.
pub open spec fn trimmed_len(lines: Seq<Seq<Cell>>) -> int
    decreases lines.len(),
{
    if lines.len() == 0 {
        0
    } else if lines.last().len() == 0 {
        trimmed_len(lines.drop_last())
    } else {
        lines.len() as int
    }
}

/// Content line count: trailing empty lines excluded, minimum one.
pub open spec fn content_count(lines: Seq<Seq<Cell>>) -> int {
    if trimmed_len(lines) < 1 {
        1
    } else {
        trimmed_len(lines)
    }
}

/// The trimmed length never exceeds the stored line count.
pub proof fn lemma_trimmed_len_bounds(lines: Seq<Seq<Cell>>)
    ensures
        0 <= trimmed_len(lines) <= lines.len(),
    decreases lines.len(),
{
    if lines.len() > 0 && lines.last().len() == 0 {
        lemma_trimmed_len_bounds(lines.drop_last());
    }
}

// ---------------------------------------------------------------------------
// The screen operations keep the model well-formed.
// ---------------------------------------------------------------------------

/// The screen-shaped half of well-formedness: what the screen operations
/// preserve regardless of the parser state.
pub open spec fn screen_wf(m: EmuModel) -> bool {
    &&& 1 <= m.lines.len() <= MAX_SCROLLBACK as int
    &&& lines_wf(m.lines)
    &&& 0 <= m.row < MAX_SCROLLBACK as int
    &&& 0 <= m.col < MAX_LINE_WIDTH as int
    &&& match m.saved {
        Some(rc) => 0 <= rc.0 < MAX_SCROLLBACK as int && 0 <= rc.1 < MAX_LINE_WIDTH as int,
        None => true,
    }
}

/// Realizing a row from any reachable intermediate state (the row may
/// exceed the stored line count, but the count respects the cap) lands
/// the cursor row inside a capped, well-formed buffer.
pub proof fn lemma_ensure_row_wf(m: EmuModel)
    requires
        1 <= m.lines.len() <= MAX_SCROLLBACK as int,
        lines_wf(m.lines),
        0 <= m.row,
    ensures
        ({
            let m1 = m_ensure_row(m);
            &&& 1 <= m1.lines.len() <= MAX_SCROLLBACK as int
            &&& lines_wf(m1.lines)
            &&& 0 <= m1.row < m1.lines.len()
            &&& m1.row < MAX_SCROLLBACK as int
        }),
{
    let g = grown_lines(m.lines, m.row);
    assert forall|k: int| 0 <= k < g.len() implies (#[trigger] g[k]).len()
        <= MAX_LINE_WIDTH as int by {
        if k >= m.lines.len() {
            assert(g[k] =~= Seq::<Cell>::empty());
        }
    }
    let m1 = m_ensure_row(m);
    let over = if g.len() > MAX_SCROLLBACK as int {
        g.len() - MAX_SCROLLBACK as int
    } else {
        0
    };
    assert forall|k: int| 0 <= k < m1.lines.len() implies (#[trigger] m1.lines[k]).len()
        <= MAX_LINE_WIDTH as int by {
        assert(m1.lines[k] == g[k + over]);
    }
    if m.lines.len() > m.row {
    } else {
        assert(g.len() == m.row + 1);
    }
}

/// Realizing the cursor cell keeps the buffer well-formed and makes the
/// cursor cell exist.
pub proof fn lemma_ensure_col_wf(m: EmuModel)
    requires
        1 <= m.lines.len() <= MAX_SCROLLBACK as int,
        lines_wf(m.lines),
        0 <= m.row,
        0 <= m.col < MAX_LINE_WIDTH as int,
    ensures
        ({
            let m1 = m_ensure_col(m);
            &&& 1 <= m1.lines.len() <= MAX_SCROLLBACK as int
            &&& lines_wf(m1.lines)
            &&& 0 <= m1.row < m1.lines.len()
            &&& m1.row < MAX_SCROLLBACK as int
            &&& m1.col == m.col
            &&& m1.col < m1.lines[m1.row].len()
        }),
{
    lemma_ensure_row_wf(m);
    let mr = m_ensure_row(m);
    let gc = grown_cells(mr.lines[mr.row], mr.col);
    assert forall|k: int| 0 <= k < gc.len() implies #[trigger] gc[k] == (if k < mr.lines[
        mr.row
    ].len() {
        mr.lines[mr.row][k]
    } else {
        blank_cell()
    }) by {}
    let m1 = m_ensure_col(m);
    assert forall|k: int| 0 <= k < m1.lines.len() implies (#[trigger] m1.lines[k]).len()
        <= MAX_LINE_WIDTH as int by {
        if k != mr.row {
            assert(m1.lines[k] == mr.lines[k]);
        }
    }
}

/// Printing a character keeps the screen well-formed.
pub proof fn lemma_put_char_wf(m: EmuModel, ch: char)
    requires
        1 <= m.lines.len() <= MAX_SCROLLBACK as int,
        lines_wf(m.lines),
        0 <= m.row,
        0 <= m.col < MAX_LINE_WIDTH as int,
    ensures
        ({
            let m1 = m_put_char(m, ch);
            &&& 1 <= m1.lines.len() <= MAX_SCROLLBACK as int
            &&& lines_wf(m1.lines)
            &&& 0 <= m1.row < MAX_SCROLLBACK as int
            &&& 0 <= m1.col < MAX_LINE_WIDTH as int
            &&& m1.saved == m.saved
        }),
{
    lemma_ensure_col_wf(m);
    let mc = m_ensure_col(m);
    let m1 = m_put_char(m, ch);
    assert forall|k: int| 0 <= k < m1.lines.len() implies (#[trigger] m1.lines[k]).len()
        <= MAX_LINE_WIDTH as int by {
        if k != mc.row {
            assert(m1.lines[k] == mc.lines[k]);
        } else {
            assert(m1.lines[k].len() == mc.lines[mc.row].len());
        }
    }
}

/// A C0 control keeps the screen well-formed.
pub proof fn lemma_execute_wf(m: EmuModel, b: u8)
    requires
        screen_wf(m),
    ensures
        screen_wf(m_execute(m, b)),
        m_execute(m, b).saved == m.saved,
{
    if b == 0x0a || b == 0x0b || b == 0x0c {
        lemma_ensure_row_wf(EmuModel { row: m.row + 1, col: 0, ..m });
    }
}

/// Erasing within or below the cursor line keeps the screen well-formed.
pub proof fn lemma_erase_wf(m: EmuModel)
    requires
        screen_wf(m),
    ensures
        screen_wf(m_clear_line_from(m, m.col)),
        screen_wf(m_clear_screen_from_cursor(m)),
        screen_wf(m_clear_line_to_cursor(m)),
        screen_wf(m_clear_screen(m)),
        ({
            let mr = m_ensure_row(m);
            screen_wf(EmuModel { lines: mr.lines.update(mr.row, Seq::<Cell>::empty()), ..mr })
        }),
{
    lemma_ensure_row_wf(m);
    let mr = m_ensure_row(m);
    let mf = m_clear_line_from(m, m.col);
    assert forall|k: int| 0 <= k < mf.lines.len() implies (#[trigger] mf.lines[k]).len()
        <= MAX_LINE_WIDTH as int by {
        if k != mr.row {
            assert(mf.lines[k] == mr.lines[k]);
        }
    }
    let mb = m_clear_screen_from_cursor(m);
    assert forall|k: int| 0 <= k < mb.lines.len() implies (#[trigger] mb.lines[k]).len()
        <= MAX_LINE_WIDTH as int by {
        assert(mb.lines[k] == mf.lines[k]);
    }
    let mt = m_clear_line_to_cursor(m);
    assert forall|k: int| 0 <= k < mt.lines.len() implies (#[trigger] mt.lines[k]).len()
        <= MAX_LINE_WIDTH as int by {
        if k != mr.row {
            assert(mt.lines[k] == mr.lines[k]);
        } else {
            assert(mt.lines[k].len() == mr.lines[mr.row].len());
        }
    }
    let ml = (EmuModel { lines: mr.lines.update(mr.row, Seq::<Cell>::empty()), ..mr });
    assert forall|k: int| 0 <= k < ml.lines.len() implies (#[trigger] ml.lines[k]).len()
        <= MAX_LINE_WIDTH as int by {
        if k != mr.row {
            assert(ml.lines[k] == mr.lines[k]);
        }
    }
    assert(m_clear_screen(m).lines =~= seq![Seq::<Cell>::empty()]);
    assert(lines_wf(m_clear_screen(m).lines)) by {
        assert(m_clear_screen(m).lines[0].len() == 0);
    }
}

/// A complete control sequence keeps the screen well-formed.
#[verifier::rlimit(100)]
pub proof fn lemma_csi_wf(m: EmuModel, ps: Seq<u16>, a: u8)
    requires
        screen_wf(m),
    ensures
        screen_wf(m_csi(m, ps, a)),
{
    if a == 0x42 {
        lemma_ensure_row_wf(EmuModel { row: m.row + param_or(ps, 0, 1) as int, ..m });
    } else if a == 0x45 {
        lemma_ensure_row_wf(EmuModel { row: m.row + param_or(ps, 0, 1) as int, col: 0, ..m });
    } else if a == 0x48 || a == 0x66 {
        let r = param_or(ps, 0, 1) as int - 1;
        let c = param_or(ps, 1, 1) as int - 1;
        lemma_ensure_row_wf(
            EmuModel {
                row: r,
                col: if c < MAX_LINE_WIDTH as int {
                    c
                } else {
                    MAX_LINE_WIDTH as int - 1
                },
                ..m
            },
        );
    } else if a == 0x4a || a == 0x4b {
        lemma_erase_wf(m);
    }
}

/// One byte keeps the whole model well-formed: however long or malformed
/// the input, the scrollback stays within its cap, every line within the
/// cell cap, and the cursor within bounds.
#[verifier::rlimit(100)]
pub proof fn lemma_step_preserves_wf(m: EmuModel, b: u8)
    requires
        wf(m),
    ensures
        wf(step(m, b)),
{
    match m.mode {
        ParseMode::Ground => {
            if b == 0x1b {
            } else if b < 0x20 {
                lemma_execute_wf(m, b);
            } else if b < 0x80 {
                lemma_put_char_wf(m, b as char);
            } else {
                if utf8_lead(b) is None {
                    lemma_put_char_wf(m, '\u{fffd}');
                }
            }
        },
        ParseMode::Escape => {
            if b != 0x1b && b != 0x18 && b != 0x1a && (b < 0x18 || b == 0x19 || (0x1c <= b && b
                <= 0x1f)) {
                lemma_execute_wf(m, b);
            }
        },
        ParseMode::EscapeIntermediate => {
            if b != 0x1b && b != 0x18 && b != 0x1a && b < 0x20 {
                lemma_execute_wf(m, b);
            }
        },
        ParseMode::Csi => {
            if b != 0x1b && b != 0x18 && b != 0x1a {
                if b < 0x20 {
                    lemma_execute_wf(m, b);
                } else if 0x40 <= b && b <= 0x7e {
                    lemma_csi_wf(
                        EmuModel {
                            mode: ParseMode::Ground,
                            params: Seq::<u16>::empty(),
                            cur: 0,
                            got: false,
                            mark: false,
                            ..m
                        },
                        finished_params(m),
                        b,
                    );
                }
            }
        },
        ParseMode::CsiIntermediate => {
            if b != 0x1b && b != 0x18 && b != 0x1a {
                if b < 0x20 {
                    lemma_execute_wf(m, b);
                } else if 0x40 <= b && b <= 0x7e {
                    lemma_csi_wf(
                        EmuModel {
                            mode: ParseMode::Ground,
                            params: Seq::<u16>::empty(),
                            cur: 0,
                            got: false,
                            mark: false,
                            ..m
                        },
                        finished_params(m),
                        b,
                    );
                }
            }
        },
        ParseMode::CsiIgnore => {
            if b != 0x1b && b != 0x18 && b != 0x1a && b < 0x20 {
                lemma_execute_wf(m, b);
            }
        },
        ParseMode::SkipString => {},
        ParseMode::Utf8 => {
            if m.ulo <= b as int && b as int <= m.uhi {
                if m.urem <= 1 {
                    lemma_put_char_wf(m, cp_char(m.ucp * 64 + (b as int - 0x80)));
                }
            } else {
                lemma_put_char_wf(m, '\u{fffd}');
            }
        },
    }
}

// ---------------------------------------------------------------------------
// The executable buffer.
// ---------------------------------------------------------------------------

/// The model of a freshly created buffer: one empty line, cursor at the
/// origin, plain style, nothing saved, nothing pending, parser in Ground.
pub open spec fn init_model(cols: int, rows: int) -> EmuModel {
    EmuModel {
        lines: seq![Seq::<Cell>::empty()],
        row: 0,
        col: 0,
        cols: cols,
        rows: rows,
        style: plain_style(),
        saved: None,
        resp: Seq::<Seq<u8>>::empty(),
        mode: ParseMode::Ground,
        params: Seq::<u16>::empty(),
        cur: 0,
        got: false,
        mark: false,
        ucp: 0,
        urem: 0,
        ulo: 0,
        uhi: 0,
    }
}

/// The terminal buffer: interprets bytes fed to [`TerminalBuffer::write`]
/// and exposes the resulting screen content. Its abstract state is an
/// [`EmuModel`]; every operation's contract is stated against [`step`]
/// and the model operations above.
pub struct TerminalBuffer {
    lines: Vec<Line>,
    cursor_row: usize,
    cursor_col: usize,
    cols: usize,
    rows: usize,
    current_style: Style,
    saved_cursor: Option<(usize, usize)>,
    pending_responses: Vec<Vec<u8>>,
    mode: ParseMode,
    params: Vec<u16>,
    cur_param: u16,
    got_param: bool,
    seen_mark: bool,
    ucp: u32,
    urem: u8,
    ulo: u8,
    uhi: u8,
}

impl View for TerminalBuffer {
    type V = EmuModel;

    closed spec fn view(&self) -> EmuModel {
        EmuModel {
            lines: self.lines@.map_values(|l: Line| l@),
            row: self.cursor_row as int,
            col: self.cursor_col as int,
            cols: self.cols as int,
            rows: self.rows as int,
            style: self.current_style,
            saved: match self.saved_cursor {
                Some(rc) => Some((rc.0 as int, rc.1 as int)),
                None => None,
            },
            resp: self.pending_responses@.map_values(|r: Vec<u8>| r@),
            mode: self.mode,
            params: self.params@,
            cur: self.cur_param,
            got: self.got_param,
            mark: self.seen_mark,
            ucp: self.ucp as int,
            urem: self.urem as int,
            ulo: self.ulo as int,
            uhi: self.uhi as int,
        }
    }
}

impl TerminalBuffer {
    /// A fresh buffer with the given viewport geometry.
    pub fn new(cols: usize, rows: usize) -> (r: TerminalBuffer)
        ensures
            r@ == init_model(cols as int, rows as int),
            wf(r@),
    {
        let mut lines: Vec<Line> = Vec::new();
        lines.push(Line::new());
        let r = TerminalBuffer {
            lines,
            cursor_row: 0,
            cursor_col: 0,
            cols,
            rows,
            current_style: Style::plain(),
            saved_cursor: None,
            pending_responses: Vec::new(),
            mode: ParseMode::Ground,
            params: Vec::new(),
            cur_param: 0,
            got_param: false,
            seen_mark: false,
            ucp: 0,
            urem: 0,
            ulo: 0,
            uhi: 0,
        };
        proof {
            assert(r@.lines =~= init_model(cols as int, rows as int).lines);
            assert(r@.resp =~= init_model(cols as int, rows as int).resp);
            assert(r@ =~= init_model(cols as int, rows as int));
        }
        r
    }

    /// Updates the stored viewport geometry only; existing content is
    /// never reflowed.
    pub fn resize(&mut self, cols: usize, rows: usize)
        ensures
            final(self)@ == (EmuModel { cols: cols as int, rows: rows as int, ..old(self)@ }),
    {
        self.cols = cols;
        self.rows = rows;
        proof {
            assert(self@ =~= (EmuModel {
                cols: cols as int,
                rows: rows as int,
                ..old(self)@
            }));
        }
    }

    /// Realizes the cursor row, growing and then trimming the scrollback.
    fn ensure_row(&mut self)
        requires
            old(self)@.lines.len() <= MAX_SCROLLBACK as int,
            lines_wf(old(self)@.lines),
            0 <= old(self)@.row,
        ensures
            final(self)@ == m_ensure_row(old(self)@),
            lines_wf(final(self)@.lines),
            1 <= final(self)@.lines.len() <= MAX_SCROLLBACK as int,
            0 <= final(self)@.row < final(self)@.lines.len(),
            final(self)@.row < MAX_SCROLLBACK as int,
    {
        let ghost m0 = self@;
        let ghost g = grown_lines(m0.lines, m0.row);
        proof {
            assert forall|k: int| 0 <= k < g.len() implies (#[trigger] g[k]).len()
                <= MAX_LINE_WIDTH as int by {
                if k >= m0.lines.len() {
                    assert(g[k] =~= Seq::<Cell>::empty());
                }
            }
        }
        while self.lines.len() <= self.cursor_row
            invariant
                self@ == (EmuModel { lines: self@.lines, ..m0 }),
                m0.lines.len() <= self@.lines.len() <= g.len(),
                g == grown_lines(m0.lines, m0.row),
                self@.lines =~= g.take(self@.lines.len() as int),
            decreases m0.row + 1 - self@.lines.len(),
        {
            let ghost pre = self@.lines;
            proof {
                // growth only happens when the buffer is short of the row
                assert(g.len() == m0.row + 1);
                if pre.len() >= m0.lines.len() {
                    assert(g[pre.len() as int] =~= Seq::<Cell>::empty());
                }
            }
            self.lines.push(Line::new());
            proof {
                assert(self@.lines =~= pre.push(Seq::<Cell>::empty()));
                assert(self@.lines =~= g.take(self@.lines.len() as int));
                assert(self@ =~= (EmuModel { lines: self@.lines, ..m0 }));
            }
        }
        proof {
            assert(self@.lines =~= g);
        }
        let ghost over = if g.len() > MAX_SCROLLBACK as int {
            g.len() - MAX_SCROLLBACK as int
        } else {
            0
        };
        proof {
            if over > 0 {
                // the cap can only be exceeded by growth, so the target row
                // lies at the very end of the grown buffer
                assert(g.len() == m0.row + 1);
            }
        }
        let ghost mut j: int = 0;
        while self.lines.len() > MAX_SCROLLBACK
            invariant
                0 <= j <= over,
                g == grown_lines(m0.lines, m0.row),
                over == if g.len() > MAX_SCROLLBACK as int {
                    g.len() - MAX_SCROLLBACK as int
                } else {
                    0int
                },
                over > 0 ==> m0.row < g.len(),
                over <= m0.row,
                self@.lines =~= g.skip(j),
                self@.row == if m0.row >= j {
                    m0.row - j
                } else {
                    0int
                },
                self@ == (EmuModel { lines: self@.lines, row: self@.row, ..m0 }),
            decreases self@.lines.len(),
        {
            let ghost pre = self@.lines;
            self.lines.remove(0);
            if self.cursor_row > 0 {
                self.cursor_row = self.cursor_row - 1;
            }
            proof {
                j = j + 1;
                assert(self@.lines =~= pre.remove(0));
                assert forall|k: int| 0 <= k < self@.lines.len() implies self@.lines[k] == g.skip(
                    j,
                )[k] by {
                    assert(pre.remove(0)[k] == pre[k + 1]);
                    assert(pre[k + 1] == g.skip(j - 1)[k + 1]);
                }
                assert(self@.lines =~= g.skip(j));
                assert(self@ =~= (EmuModel { lines: self@.lines, row: self@.row, ..m0 }));
            }
        }
        proof {
            assert(j == over);
            assert(self@.lines =~= m_ensure_row(m0).lines);
            assert(self@ =~= m_ensure_row(m0));
            assert forall|i: int| 0 <= i < self@.lines.len() implies (#[trigger] self@.lines[i]).len()
                <= MAX_LINE_WIDTH as int by {
                assert(self@.lines[i] == g[i + over]);
            }
        }
    }

    /// Realizes the cursor cell: realizes the row, then pads the line
    /// with blanks out to the cursor column.
    fn ensure_col(&mut self)
        requires
            old(self)@.lines.len() <= MAX_SCROLLBACK as int,
            lines_wf(old(self)@.lines),
            0 <= old(self)@.row,
            0 <= old(self)@.col < MAX_LINE_WIDTH as int,
        ensures
            final(self)@ == m_ensure_col(old(self)@),
            lines_wf(final(self)@.lines),
            1 <= final(self)@.lines.len() <= MAX_SCROLLBACK as int,
            0 <= final(self)@.row < final(self)@.lines.len(),
            final(self)@.row < MAX_SCROLLBACK as int,
            final(self)@.col == old(self)@.col,
            final(self)@.col < final(self)@.lines[final(self)@.row].len(),
    {
        let ghost m0 = self@;
        self.ensure_row();
        let ghost m1 = self@;
        let r = self.cursor_row;
        let ghost gc = grown_cells(m1.lines[m1.row], m1.col);
        proof {
            assert(m1.lines.update(r as int, m1.lines[r as int]) =~= m1.lines);
            let ghost base = m1.lines[m1.row];
            assert forall|k: int| 0 <= k < gc.len() implies #[trigger] gc[k] == (if k < base.len() {
                base[k]
            } else {
                blank_cell()
            }) by {}
        }
        while self.lines[r].cells.len() <= self.cursor_col
            invariant
                r < self.lines@.len(),
                r as int == m1.row,
                (r as int) < m1.lines.len(),
                m1.col == m0.col,
                0 <= m1.col,
                gc == grown_cells(m1.lines[m1.row], m1.col),
                gc.len() == if m1.lines[m1.row].len() > m1.col {
                    m1.lines[m1.row].len() as int
                } else {
                    m1.col + 1
                },
                m1.lines[m1.row].len() <= self@.lines[r as int].len() <= gc.len(),
                self@.lines[r as int] =~= gc.take(self@.lines[r as int].len() as int),
                self@.lines =~= m1.lines.update(r as int, self@.lines[r as int]),
                self@ == (EmuModel { lines: self@.lines, ..m1 }),
            decreases m1.col + 1 - self@.lines[r as int].len(),
        {
            let ghost pre_vec = self.lines@;
            let ghost pre_lines = self@.lines;
            let ghost pre = self@.lines[r as int];
            self.lines[r].cells.push(Cell { c: ' ', style: Style::plain() });
            proof {
                assert(self.lines@ == pre_vec.update(r as int, self.lines@[r as int]));
                assert(self@.lines[r as int] =~= pre.push(blank_cell()));
                assert(self@.lines[r as int] =~= gc.take(self@.lines[r as int].len() as int));
                assert(self@.lines.len() == pre_lines.len());
                assert(pre_lines.len() == m1.lines.update(r as int, pre).len());
                assert(m1.lines.update(r as int, pre).len() == m1.lines.len());
                assert forall|k: int|
                    0 <= k < self@.lines.len() && k != r as int implies self@.lines[k]
                    == m1.lines[k] by {
                    assert(self@.lines.len() == pre_lines.len());
                    assert(pre_lines.len() == m1.lines.len());
                    assert(self.lines@[k] == pre_vec[k]);
                    assert(self@.lines[k] == pre_lines[k]);
                    assert(pre_lines[k] == m1.lines.update(r as int, pre)[k]);
                    assert(m1.lines.update(r as int, pre)[k] == m1.lines[k]);
                }
                assert(self@.lines =~= m1.lines.update(r as int, self@.lines[r as int]));
                assert(self@ =~= (EmuModel { lines: self@.lines, ..m1 }));
            }
        }
        proof {
            assert(self@.lines[r as int] =~= gc);
            assert(self@.lines =~= m_ensure_col(m0).lines);
            assert(self@ =~= m_ensure_col(m0));
            assert(lines_wf(self@.lines));
        }
    }

    /// Prints one character at the cursor with the running style.
    fn put_char(&mut self, ch: char)
        requires
            old(self)@.lines.len() <= MAX_SCROLLBACK as int,
            lines_wf(old(self)@.lines),
            0 <= old(self)@.row,
            0 <= old(self)@.col < MAX_LINE_WIDTH as int,
        ensures
            final(self)@ == m_put_char(old(self)@, ch),
            lines_wf(final(self)@.lines),
            1 <= final(self)@.lines.len() <= MAX_SCROLLBACK as int,
            0 <= final(self)@.row < final(self)@.lines.len(),
            final(self)@.row < MAX_SCROLLBACK as int,
            0 <= final(self)@.col < MAX_LINE_WIDTH as int,
    {
        let ghost m0 = self@;
        self.ensure_col();
        let ghost m1 = self@;
        let r = self.cursor_row;
        let c = self.cursor_col;
        let cell = Cell { c: ch, style: self.current_style };
        let ghost pre_vec = self.lines@;
        let ghost pre_lines = self@.lines;
        self.lines[r].cells[c] = cell;
        proof {
            assert(self@.lines[r as int] =~= pre_lines[r as int].update(c as int, cell));
            assert(self@.lines.len() == pre_lines.len());
            assert forall|k: int|
                0 <= k < self@.lines.len() && k != r as int implies self@.lines[k]
                == pre_lines[k] by {
                assert(self.lines@[k] == pre_vec[k]);
            }
            assert(self@.lines =~= pre_lines.update(r as int, self@.lines[r as int]));
        }
        if self.cursor_col + 1 < MAX_LINE_WIDTH {
            self.cursor_col = self.cursor_col + 1;
        } else {
            self.cursor_col = MAX_LINE_WIDTH - 1;
        }
        proof {
            assert(self@ =~= m_put_char(m0, ch));
            assert(lines_wf(self@.lines));
        }
    }

    /// Line feed: moves to the next row at column zero.
    fn newline(&mut self)
        requires
            old(self)@.lines.len() <= MAX_SCROLLBACK as int,
            lines_wf(old(self)@.lines),
            0 <= old(self)@.row < MAX_SCROLLBACK as int,
        ensures
            final(self)@ == m_newline(old(self)@),
            lines_wf(final(self)@.lines),
            1 <= final(self)@.lines.len() <= MAX_SCROLLBACK as int,
            0 <= final(self)@.row < final(self)@.lines.len(),
            final(self)@.row < MAX_SCROLLBACK as int,
            final(self)@.col == 0,
    {
        self.cursor_row = self.cursor_row + 1;
        self.cursor_col = 0;
        self.ensure_row();
    }

    /// Erase-in-line from the cursor: truncates the cursor line.
    fn clear_line_from_cursor(&mut self)
        requires
            old(self)@.lines.len() <= MAX_SCROLLBACK as int,
            lines_wf(old(self)@.lines),
            0 <= old(self)@.row,
            0 <= old(self)@.col,
        ensures
            final(self)@ == m_clear_line_from(old(self)@, old(self)@.col),
            lines_wf(final(self)@.lines),
            1 <= final(self)@.lines.len() <= MAX_SCROLLBACK as int,
            0 <= final(self)@.row < final(self)@.lines.len(),
            final(self)@.row < MAX_SCROLLBACK as int,
    {
        let ghost m0 = self@;
        self.ensure_row();
        let ghost m1 = self@;
        let r = self.cursor_row;
        let col = self.cursor_col;
        if col < self.lines[r].cells.len() {
            let ghost pre_vec = self.lines@;
            let ghost pre_lines = self@.lines;
            self.lines[r].cells.truncate(col);
            proof {
                assert(self@.lines[r as int] =~= pre_lines[r as int].take(col as int));
                assert(self@.lines.len() == pre_lines.len());
                assert forall|k: int|
                    0 <= k < self@.lines.len() && k != r as int implies self@.lines[k]
                    == pre_lines[k] by {
                    assert(self.lines@[k] == pre_vec[k]);
                }
                assert(self@.lines =~= pre_lines.update(r as int, self@.lines[r as int]));
                assert(self@ =~= m_clear_line_from(m0, m0.col));
            }
        } else {
            proof {
                assert(m1.lines.update(r as int, m1.lines[r as int]) =~= m1.lines);
                assert(self@ =~= m_clear_line_from(m0, m0.col));
            }
        }
        proof {
            assert(lines_wf(self@.lines));
        }
    }

    /// Erase-in-line mode 1: blanks cells from the line start through the
    /// cursor column, inclusive.
    fn clear_line_to_cursor(&mut self)
        requires
            old(self)@.lines.len() <= MAX_SCROLLBACK as int,
            lines_wf(old(self)@.lines),
            0 <= old(self)@.row,
            0 <= old(self)@.col,
        ensures
            final(self)@ == m_clear_line_to_cursor(old(self)@),
            lines_wf(final(self)@.lines),
            1 <= final(self)@.lines.len() <= MAX_SCROLLBACK as int,
            0 <= final(self)@.row < final(self)@.lines.len(),
            final(self)@.row < MAX_SCROLLBACK as int,
    {
        let ghost m0 = self@;
        self.ensure_row();
        let ghost m1 = self@;
        let r = self.cursor_row;
        let col = self.cursor_col;
        let n = self.lines[r].cells.len();
        let ghost target = Seq::new(
            m1.lines[m1.row].len(),
            |i: int|
                if i <= m1.col {
                    blank_cell()
                } else {
                    m1.lines[m1.row][i]
                },
        );
        let mut i: usize = 0;
        while i < n && i <= col
            invariant
                r < self.lines@.len(),
                r as int == m1.row,
                (r as int) < m1.lines.len(),
                col as int == m1.col,
                n == m1.lines[m1.row].len(),
                0 <= i <= n,
                i <= m1.col + 1,
                target == Seq::new(
                    m1.lines[m1.row].len(),
                    |k: int|
                        if k <= m1.col {
                            blank_cell()
                        } else {
                            m1.lines[m1.row][k]
                        },
                ),
                self@.lines[r as int].len() == n,
                forall|k: int|
                    0 <= k < i ==> #[trigger] self@.lines[r as int][k] == blank_cell(),
                forall|k: int|
                    i <= k < n ==> #[trigger] self@.lines[r as int][k] == m1.lines[m1.row][k],
                self@.lines =~= m1.lines.update(r as int, self@.lines[r as int]),
                self@ == (EmuModel { lines: self@.lines, ..m1 }),
            decreases n - i,
        {
            let ghost pre_vec = self.lines@;
            let ghost pre_lines = self@.lines;
            self.lines[r].cells[i] = Cell { c: ' ', style: Style::plain() };
            proof {
                assert(self@.lines[r as int] =~= pre_lines[r as int].update(
                    i as int,
                    blank_cell(),
                ));
                assert(self@.lines.len() == pre_lines.len());
                assert(self@.lines.len() == pre_lines.len());
                assert(pre_lines.len() == m1.lines.update(r as int, pre_lines[r as int]).len());
                assert(m1.lines.update(r as int, pre_lines[r as int]).len() == m1.lines.len());
                assert forall|k: int|
                    0 <= k < self@.lines.len() && k != r as int implies self@.lines[k]
                    == m1.lines[k] by {
                    assert(self.lines@[k] == pre_vec[k]);
                    assert(self@.lines[k] == pre_lines[k]);
                    assert(pre_lines[k] == m1.lines.update(r as int, pre_lines[r as int])[k]);
                }
                assert(self@.lines =~= m1.lines.update(r as int, self@.lines[r as int]));
                assert(self@ =~= (EmuModel { lines: self@.lines, ..m1 }));
            }
            i = i + 1;
        }
        proof {
            assert(self@.lines[r as int] =~= target);
            assert(self@.lines =~= m_clear_line_to_cursor(m0).lines);
            assert(self@ =~= m_clear_line_to_cursor(m0));
            assert(lines_wf(self@.lines));
        }
    }

    /// Erase-in-line mode 2: clears the whole cursor line.
    fn clear_line_all(&mut self)
        requires
            old(self)@.lines.len() <= MAX_SCROLLBACK as int,
            lines_wf(old(self)@.lines),
            0 <= old(self)@.row,
        ensures
            final(self)@ == (EmuModel {
                lines: m_ensure_row(old(self)@).lines.update(
                    m_ensure_row(old(self)@).row,
                    Seq::<Cell>::empty(),
                ),
                ..m_ensure_row(old(self)@)
            }),
            lines_wf(final(self)@.lines),
            1 <= final(self)@.lines.len() <= MAX_SCROLLBACK as int,
            0 <= final(self)@.row < final(self)@.lines.len(),
            final(self)@.row < MAX_SCROLLBACK as int,
    {
        let ghost m0 = self@;
        self.ensure_row();
        let ghost m1 = self@;
        let r = self.cursor_row;
        let ghost pre_vec = self.lines@;
        let ghost pre_lines = self@.lines;
        self.lines[r].cells.clear();
        proof {
            assert(self@.lines[r as int] =~= Seq::<Cell>::empty());
            assert(self@.lines.len() == pre_lines.len());
            assert forall|k: int|
                0 <= k < self@.lines.len() && k != r as int implies self@.lines[k]
                == pre_lines[k] by {
                assert(self.lines@[k] == pre_vec[k]);
            }
            assert(self@.lines =~= m1.lines.update(r as int, Seq::<Cell>::empty()));
            assert(self@ =~= (EmuModel {
                lines: m1.lines.update(m1.row, Seq::<Cell>::empty()),
                ..m1
            }));
            assert(lines_wf(self@.lines));
        }
    }

    /// Erase-in-display mode 0: truncates the cursor line from the cursor
    /// and drops every row below it.
    fn clear_screen_from_cursor(&mut self)
        requires
            old(self)@.lines.len() <= MAX_SCROLLBACK as int,
            lines_wf(old(self)@.lines),
            0 <= old(self)@.row,
            0 <= old(self)@.col,
        ensures
            final(self)@ == m_clear_screen_from_cursor(old(self)@),
            lines_wf(final(self)@.lines),
            1 <= final(self)@.lines.len() <= MAX_SCROLLBACK as int,
            0 <= final(self)@.row < final(self)@.lines.len(),
            final(self)@.row < MAX_SCROLLBACK as int,
    {
        let ghost m0 = self@;
        self.clear_line_from_cursor();
        let ghost m1 = self@;
        while self.lines.len() > self.cursor_row + 1
            invariant
                m1 == m_clear_line_from(m0, m0.col),
                self@.row == m1.row,
                0 <= self@.row < MAX_SCROLLBACK as int,
                self@.row < self@.lines.len(),
                self@.lines.len() <= m1.lines.len(),
                self@.lines =~= m1.lines.take(self@.lines.len() as int),
                self@ == (EmuModel { lines: self@.lines, ..m1 }),
            decreases self@.lines.len(),
        {
            let ghost pre_lines = self@.lines;
            self.lines.pop();
            proof {
                assert(self@.lines =~= pre_lines.take(pre_lines.len() - 1));
                assert(self@.lines =~= m1.lines.take(self@.lines.len() as int));
                assert(self@ =~= (EmuModel { lines: self@.lines, ..m1 }));
            }
        }
        proof {
            if m1.lines.len() > m1.row + 1 {
                assert(self@.lines =~= m1.lines.take(m1.row + 1));
            } else {
                assert(self@.lines =~= m1.lines);
            }
            assert(self@ =~= m_clear_screen_from_cursor(m0));
            assert(lines_wf(self@.lines));
        }
    }

    /// Erase-in-display modes 2 and 3: resets to one empty line with the
    /// cursor at the origin.
    fn clear_screen(&mut self)
        ensures
            final(self)@ == m_clear_screen(old(self)@),
            lines_wf(final(self)@.lines),
            final(self)@.lines.len() == 1,
            final(self)@.row == 0,
            final(self)@.col == 0,
    {
        self.lines.clear();
        self.lines.push(Line::new());
        self.cursor_row = 0;
        self.cursor_col = 0;
        proof {
            assert(self@.lines =~= seq![Seq::<Cell>::empty()]);
            assert(self@ =~= m_clear_screen(old(self)@));
        }
    }

    /// A C0 control byte.
    fn execute_ctrl(&mut self, b: u8)
        requires
            1 <= old(self)@.lines.len() <= MAX_SCROLLBACK as int,
            lines_wf(old(self)@.lines),
            0 <= old(self)@.row < MAX_SCROLLBACK as int,
            0 <= old(self)@.col < MAX_LINE_WIDTH as int,
        ensures
            final(self)@ == m_execute(old(self)@, b),
            lines_wf(final(self)@.lines),
            1 <= final(self)@.lines.len() <= MAX_SCROLLBACK as int,
            final(self)@.row < MAX_SCROLLBACK as int,
            0 <= final(self)@.row,
            0 <= final(self)@.col < MAX_LINE_WIDTH as int,
    {
        if b == 0x08 {
            if self.cursor_col > 0 {
                self.cursor_col = self.cursor_col - 1;
            }
            proof {
                assert(self@ =~= m_execute(old(self)@, b));
            }
        } else if b == 0x09 {
            let t = ((self.cursor_col + 8) / 8) * 8;
            self.cursor_col = if t < MAX_LINE_WIDTH {
                t
            } else {
                MAX_LINE_WIDTH - 1
            };
            proof {
                assert(self@ =~= m_execute(old(self)@, b));
            }
        } else if b == 0x0a || b == 0x0b || b == 0x0c {
            self.newline();
        } else if b == 0x0d {
            self.cursor_col = 0;
            proof {
                assert(self@ =~= m_execute(old(self)@, b));
            }
        } else {
            proof {
                assert(self@ =~= m_execute(old(self)@, b));
            }
        }
    }

    /// Dispatch of a complete control sequence against the screen state.
    #[verifier::rlimit(100)]
    fn do_csi(&mut self, ps: &Vec<u16>, a: u8)
        requires
            1 <= old(self)@.lines.len() <= MAX_SCROLLBACK as int,
            lines_wf(old(self)@.lines),
            0 <= old(self)@.row < MAX_SCROLLBACK as int,
            0 <= old(self)@.col < MAX_LINE_WIDTH as int,
            match old(self)@.saved {
                Some(rc) => 0 <= rc.0 < MAX_SCROLLBACK as int && 0 <= rc.1 < MAX_LINE_WIDTH as int,
                None => true,
            },
        ensures
            final(self)@ == m_csi(old(self)@, ps@, a),
            lines_wf(final(self)@.lines),
            1 <= final(self)@.lines.len() <= MAX_SCROLLBACK as int,
            0 <= final(self)@.row < MAX_SCROLLBACK as int,
            0 <= final(self)@.col < MAX_LINE_WIDTH as int,
            match final(self)@.saved {
                Some(rc) => 0 <= rc.0 < MAX_SCROLLBACK as int && 0 <= rc.1 < MAX_LINE_WIDTH as int,
                None => true,
            },
            final(self)@.mode == old(self)@.mode,
            final(self)@.params == old(self)@.params,
            final(self)@.cur == old(self)@.cur,
            final(self)@.got == old(self)@.got,
            final(self)@.mark == old(self)@.mark,
            final(self)@.ucp == old(self)@.ucp,
            final(self)@.urem == old(self)@.urem,
            final(self)@.ulo == old(self)@.ulo,
            final(self)@.uhi == old(self)@.uhi,
    {
        let ghost m0 = self@;
        if a == 0x41 {
            let n = get_param(ps, 0, 1) as usize;
            self.cursor_row = if self.cursor_row >= n {
                self.cursor_row - n
            } else {
                0
            };
            proof {
                assert(self@ =~= m_csi(m0, ps@, a));
            }
        } else if a == 0x42 {
            let n = get_param(ps, 0, 1) as usize;
            self.cursor_row = self.cursor_row + n;
            self.ensure_row();
            proof {
                assert(self@ =~= m_csi(m0, ps@, a));
            }
        } else if a == 0x43 {
            let n = get_param(ps, 0, 1) as usize;
            let t = self.cursor_col + n;
            self.cursor_col = if t < MAX_LINE_WIDTH {
                t
            } else {
                MAX_LINE_WIDTH - 1
            };
            proof {
                assert(self@ =~= m_csi(m0, ps@, a));
            }
        } else if a == 0x44 {
            let n = get_param(ps, 0, 1) as usize;
            self.cursor_col = if self.cursor_col >= n {
                self.cursor_col - n
            } else {
                0
            };
            proof {
                assert(self@ =~= m_csi(m0, ps@, a));
            }
        } else if a == 0x45 {
            let n = get_param(ps, 0, 1) as usize;
            self.cursor_row = self.cursor_row + n;
            self.cursor_col = 0;
            self.ensure_row();
            proof {
                assert(self@ =~= m_csi(m0, ps@, a));
            }
        } else if a == 0x46 {
            let n = get_param(ps, 0, 1) as usize;
            self.cursor_row = if self.cursor_row >= n {
                self.cursor_row - n
            } else {
                0
            };
            self.cursor_col = 0;
            proof {
                assert(self@ =~= m_csi(m0, ps@, a));
            }
        } else if a == 0x47 {
            let c = (get_param(ps, 0, 1) - 1) as usize;
            self.cursor_col = if c < MAX_LINE_WIDTH {
                c
            } else {
                MAX_LINE_WIDTH - 1
            };
            proof {
                assert(self@ =~= m_csi(m0, ps@, a));
            }
        } else if a == 0x48 || a == 0x66 {
            let r = (get_param(ps, 0, 1) - 1) as usize;
            let c = (get_param(ps, 1, 1) - 1) as usize;
            self.cursor_row = r;
            self.cursor_col = if c < MAX_LINE_WIDTH {
                c
            } else {
                MAX_LINE_WIDTH - 1
            };
            self.ensure_row();
            proof {
                assert(self@ =~= m_csi(m0, ps@, a));
            }
        } else if a == 0x4a {
            let mode = get_param(ps, 0, 0);
            if mode == 0 {
                self.clear_screen_from_cursor();
            } else if mode == 2 || mode == 3 {
                self.clear_screen();
            }
            proof {
                assert(self@ =~= m_csi(m0, ps@, a));
            }
        } else if a == 0x4b {
            let mode = get_param(ps, 0, 0);
            if mode == 0 {
                self.clear_line_from_cursor();
            } else if mode == 1 {
                self.clear_line_to_cursor();
            } else if mode == 2 {
                self.clear_line_all();
            }
            proof {
                assert(self@ =~= m_csi(m0, ps@, a));
            }
        } else if a == 0x6d {
            self.current_style = apply_sgr(self.current_style, ps);
            proof {
                assert(self@ =~= m_csi(m0, ps@, a));
            }
        } else if a == 0x73 {
            self.saved_cursor = Some((self.cursor_row, self.cursor_col));
            proof {
                assert(self@ =~= m_csi(m0, ps@, a));
            }
        } else if a == 0x75 {
            match self.saved_cursor {
                Some(rc) => {
                    self.cursor_row = rc.0;
                    self.cursor_col = rc.1;
                },
                None => {},
            }
            proof {
                assert(self@ =~= m_csi(m0, ps@, a));
            }
        } else if a == 0x63 {
            let mut v: Vec<u8> = Vec::new();
            v.push(0x1b);
            v.push(0x5b);
            v.push(0x3f);
            v.push(0x31);
            v.push(0x3b);
            v.push(0x32);
            v.push(0x63);
            proof {
                assert(v@ =~= da_reply());
            }
            let ghost pre_pr = self.pending_responses@;
            self.pending_responses.push(v);
            proof {
                assert(self.pending_responses@ == pre_pr.push(v));
                assert(self@.resp =~= m0.resp.push(da_reply()));
                assert(self@ =~= m_csi(m0, ps@, a));
            }
        } else if a == 0x6e {
            let mode = get_param(ps, 0, 0);
            if mode == 5 {
                let mut v: Vec<u8> = Vec::new();
                v.push(0x1b);
                v.push(0x5b);
                v.push(0x30);
                v.push(0x6e);
                proof {
                    assert(v@ =~= dsr_ok_reply());
                }
                let ghost pre_pr = self.pending_responses@;
                self.pending_responses.push(v);
                proof {
                    assert(self.pending_responses@ == pre_pr.push(v));
                    assert(self@.resp =~= m0.resp.push(dsr_ok_reply()));
                    assert(self@ =~= m_csi(m0, ps@, a));
                }
            } else if mode == 6 {
                let mut v: Vec<u8> = Vec::new();
                v.push(0x1b);
                v.push(0x5b);
                let mut d1 = dec_bytes(self.cursor_row + 1);
                v.append(&mut d1);
                v.push(0x3b);
                let mut d2 = dec_bytes(self.cursor_col + 1);
                v.append(&mut d2);
                v.push(0x52);
                proof {
                    assert(v@ =~= cursor_reply(m0.row, m0.col));
                }
                self.pending_responses.push(v);
                proof {
                    assert(self@.resp =~= m0.resp.push(cursor_reply(m0.row, m0.col)));
                    assert(self@ =~= m_csi(m0, ps@, a));
                }
            } else {
                proof {
                    assert(self@ =~= m_csi(m0, ps@, a));
                }
            }
        } else {
            proof {
                assert(self@ =~= m_csi(m0, ps@, a));
            }
        }
    }

    /// Completes the parameter list, resets the parser to Ground, and
    /// dispatches the control sequence.
    fn dispatch(&mut self, a: u8)
        requires
            wf(old(self)@),
        ensures
            final(self)@ == dispatch_csi(old(self)@, a),
            wf(final(self)@),
    {
        let ghost m0 = self@;
        let mut ps: Vec<u16> = Vec::new();
        core::mem::swap(&mut ps, &mut self.params);
        if (self.got_param || ps.len() > 0) && ps.len() < 32 {
            ps.push(self.cur_param);
        }
        self.cur_param = 0;
        self.got_param = false;
        self.seen_mark = false;
        self.mode = ParseMode::Ground;
        proof {
            assert(ps@ == finished_params(m0));
            assert(self@ =~= (EmuModel {
                mode: ParseMode::Ground,
                params: Seq::<u16>::empty(),
                cur: 0,
                got: false,
                mark: false,
                ..m0
            }));
        }
        self.do_csi(&ps, a);
    }
}

/// CSI parameter `i` of `ps`, defaulting to `d` when missing or zero.
fn get_param(ps: &Vec<u16>, i: usize, d: u16) -> (r: u16)
    ensures
        r == param_or(ps@, i as int, d),
{
    if i < ps.len() && ps[i] != 0 {
        ps[i]
    } else {
        d
    }
}

/// Relies on char::from_u32: returns `Some` exactly on Unicode scalar
/// values (code points outside the surrogate range, up to 0x10FFFF),
/// and the returned character has the given code point.
#[verifier::external_body]
fn char_from_u32(v: u32) -> (r: Option<char>)
    ensures
        r is Some <==> valid_scalar(v as int),
        r matches Some(c) ==> c == (v as int) as char,
{
    char::from_u32(v)
}

impl TerminalBuffer {
    /// Feeds one byte to the engine.
    #[verifier::rlimit(100)]
    fn advance_byte(&mut self, b: u8)
        requires
            wf(old(self)@),
        ensures
            final(self)@ == step(old(self)@, b),
            wf(final(self)@),
    {
        let ghost m0 = self@;
        match self.mode {
            ParseMode::Ground => {
                if b == 0x1b {
                    self.mode = ParseMode::Escape;
                    proof {
                        assert(self@ =~= step(m0, b));
                    }
                } else if b < 0x20 {
                    self.execute_ctrl(b);
                    proof {
                        assert(self@ =~= step(m0, b));
                    }
                } else if b < 0x80 {
                    self.put_char(b as char);
                    proof {
                        assert(self@ =~= step(m0, b));
                    }
                } else if 0xc2 <= b && b <= 0xdf {
                    self.mode = ParseMode::Utf8;
                    self.ucp = (b - 0xc0) as u32;
                    self.urem = 1;
                    self.ulo = 0x80;
                    self.uhi = 0xbf;
                    proof {
                        assert(self@ =~= step(m0, b));
                    }
                } else if b == 0xe0 {
                    self.mode = ParseMode::Utf8;
                    self.ucp = 0;
                    self.urem = 2;
                    self.ulo = 0xa0;
                    self.uhi = 0xbf;
                    proof {
                        assert(self@ =~= step(m0, b));
                    }
                } else if 0xe1 <= b && b <= 0xec {
                    self.mode = ParseMode::Utf8;
                    self.ucp = (b - 0xe0) as u32;
                    self.urem = 2;
                    self.ulo = 0x80;
                    self.uhi = 0xbf;
                    proof {
                        assert(self@ =~= step(m0, b));
                    }
                } else if b == 0xed {
                    self.mode = ParseMode::Utf8;
                    self.ucp = 0xd;
                    self.urem = 2;
                    self.ulo = 0x80;
                    self.uhi = 0x9f;
                    proof {
                        assert(self@ =~= step(m0, b));
                    }
                } else if 0xee <= b && b <= 0xef {
                    self.mode = ParseMode::Utf8;
                    self.ucp = (b - 0xe0) as u32;
                    self.urem = 2;
                    self.ulo = 0x80;
                    self.uhi = 0xbf;
                    proof {
                        assert(self@ =~= step(m0, b));
                    }
                } else if b == 0xf0 {
                    self.mode = ParseMode::Utf8;
                    self.ucp = 0;
                    self.urem = 3;
                    self.ulo = 0x90;
                    self.uhi = 0xbf;
                    proof {
                        assert(self@ =~= step(m0, b));
                    }
                } else if 0xf1 <= b && b <= 0xf3 {
                    self.mode = ParseMode::Utf8;
                    self.ucp = (b - 0xf0) as u32;
                    self.urem = 3;
                    self.ulo = 0x80;
                    self.uhi = 0xbf;
                    proof {
                        assert(self@ =~= step(m0, b));
                    }
                } else if b == 0xf4 {
                    self.mode = ParseMode::Utf8;
                    self.ucp = 4;
                    self.urem = 3;
                    self.ulo = 0x80;
                    self.uhi = 0x8f;
                    proof {
                        assert(self@ =~= step(m0, b));
                    }
                } else {
                    self.put_char('\u{fffd}');
                    proof {
                        assert(self@ =~= step(m0, b));
                    }
                }
            },
            ParseMode::Escape => {
                if b == 0x5b {
                    self.mode = ParseMode::Csi;
                    self.params.clear();
                    self.cur_param = 0;
                    self.got_param = false;
                    self.seen_mark = false;
                    proof {
                        assert(self@ =~= step(m0, b));
                    }
                } else if b == 0x5d || b == 0x50 || b == 0x58 || b == 0x5e || b == 0x5f {
                    self.mode = ParseMode::SkipString;
                    proof {
                        assert(self@ =~= step(m0, b));
                    }
                } else if b == 0x1b {
                    proof {
                        assert(self@ =~= step(m0, b));
                    }
                } else if b == 0x18 || b == 0x1a {
                    self.mode = ParseMode::Ground;
                    proof {
                        assert(self@ =~= step(m0, b));
                    }
                } else if b < 0x18 || b == 0x19 || (0x1c <= b && b <= 0x1f) {
                    self.execute_ctrl(b);
                    proof {
                        assert(self@ =~= step(m0, b));
                    }
                } else if 0x20 <= b && b <= 0x2f {
                    self.mode = ParseMode::EscapeIntermediate;
                    proof {
                        assert(self@ =~= step(m0, b));
                    }
                } else {
                    self.mode = ParseMode::Ground;
                    proof {
                        assert(self@ =~= step(m0, b));
                    }
                }
            },
            ParseMode::EscapeIntermediate => {
                if b == 0x1b {
                    self.mode = ParseMode::Escape;
                    proof {
                        assert(self@ =~= step(m0, b));
                    }
                } else if b == 0x18 || b == 0x1a {
                    self.mode = ParseMode::Ground;
                    proof {
                        assert(self@ =~= step(m0, b));
                    }
                } else if b < 0x20 {
                    self.execute_ctrl(b);
                    proof {
                        assert(self@ =~= step(m0, b));
                    }
                } else if 0x20 <= b && b <= 0x2f {
                    proof {
                        assert(self@ =~= step(m0, b));
                    }
                } else if b <= 0x7e {
                    self.mode = ParseMode::Ground;
                    proof {
                        assert(self@ =~= step(m0, b));
                    }
                } else {
                    proof {
                        assert(self@ =~= step(m0, b));
                    }
                }
            },
            ParseMode::Csi => {
                if b == 0x1b {
                    self.mode = ParseMode::Escape;
                    proof {
                        assert(self@ =~= step(m0, b));
                    }
                } else if b == 0x18 || b == 0x1a {
                    self.mode = ParseMode::Ground;
                    proof {
                        assert(self@ =~= step(m0, b));
                    }
                } else if b < 0x20 {
                    self.execute_ctrl(b);
                    proof {
                        assert(self@ =~= step(m0, b));
                    }
                } else if 0x30 <= b && b <= 0x39 {
                    let d = b - 0x30;
                    let v = self.cur_param as u32 * 10 + d as u32;
                    self.cur_param = if v > 0xffff {
                        0xffff
                    } else {
                        v as u16
                    };
                    self.got_param = true;
                    proof {
                        assert(self@ =~= step(m0, b));
                    }
                } else if b == 0x3a || b == 0x3b {
                    if self.params.len() < 32 {
                        self.params.push(self.cur_param);
                    }
                    self.cur_param = 0;
                    self.got_param = false;
                    proof {
                        assert(self@ =~= step(m0, b));
                    }
                } else if 0x3c <= b && b <= 0x3f {
                    if !self.got_param && self.params.len() == 0 && !self.seen_mark {
                        self.seen_mark = true;
                    } else {
                        self.mode = ParseMode::CsiIgnore;
                    }
                    proof {
                        assert(self@ =~= step(m0, b));
                    }
                } else if 0x20 <= b && b <= 0x2f {
                    self.mode = ParseMode::CsiIntermediate;
                    proof {
                        assert(self@ =~= step(m0, b));
                    }
                } else if b <= 0x7e {
                    self.dispatch(b);
                    proof {
                        assert(self@ =~= step(m0, b));
                    }
                } else {
                    proof {
                        assert(self@ =~= step(m0, b));
                    }
                }
            },
            ParseMode::CsiIntermediate => {
                if b == 0x1b {
                    self.mode = ParseMode::Escape;
                    proof {
                        assert(self@ =~= step(m0, b));
                    }
                } else if b == 0x18 || b == 0x1a {
                    self.mode = ParseMode::Ground;
                    proof {
                        assert(self@ =~= step(m0, b));
                    }
                } else if b < 0x20 {
                    self.execute_ctrl(b);
                    proof {
                        assert(self@ =~= step(m0, b));
                    }
                } else if 0x20 <= b && b <= 0x2f {
                    proof {
                        assert(self@ =~= step(m0, b));
                    }
                } else if 0x30 <= b && b <= 0x3f {
                    self.mode = ParseMode::CsiIgnore;
                    proof {
                        assert(self@ =~= step(m0, b));
                    }
                } else if b <= 0x7e {
                    self.dispatch(b);
                    proof {
                        assert(self@ =~= step(m0, b));
                    }
                } else {
                    proof {
                        assert(self@ =~= step(m0, b));
                    }
                }
            },
            ParseMode::CsiIgnore => {
                if b == 0x1b {
                    self.mode = ParseMode::Escape;
                    proof {
                        assert(self@ =~= step(m0, b));
                    }
                } else if b == 0x18 || b == 0x1a {
                    self.mode = ParseMode::Ground;
                    proof {
                        assert(self@ =~= step(m0, b));
                    }
                } else if b < 0x20 {
                    self.execute_ctrl(b);
                    proof {
                        assert(self@ =~= step(m0, b));
                    }
                } else if 0x40 <= b && b <= 0x7e {
                    self.mode = ParseMode::Ground;
                    proof {
                        assert(self@ =~= step(m0, b));
                    }
                } else {
                    proof {
                        assert(self@ =~= step(m0, b));
                    }
                }
            },
            ParseMode::SkipString => {
                if b == 0x07 {
                    self.mode = ParseMode::Ground;
                    proof {
                        assert(self@ =~= step(m0, b));
                    }
                } else if b == 0x1b {
                    self.mode = ParseMode::Escape;
                    proof {
                        assert(self@ =~= step(m0, b));
                    }
                } else if b == 0x18 || b == 0x1a {
                    self.mode = ParseMode::Ground;
                    proof {
                        assert(self@ =~= step(m0, b));
                    }
                } else {
                    proof {
                        assert(self@ =~= step(m0, b));
                    }
                }
            },
            ParseMode::Utf8 => {
                if self.ulo <= b && b <= self.uhi {
                    let cp = self.ucp * 64 + (b - 0x80) as u32;
                    if self.urem <= 1 {
                        let ch = match char_from_u32(cp) {
                            Some(c) => c,
                            None => '\u{fffd}',
                        };
                        proof {
                            assert(ch == cp_char(cp as int));
                        }
                        self.put_char(ch);
                        self.mode = ParseMode::Ground;
                        proof {
                            assert(self@ =~= step(m0, b));
                        }
                    } else {
                        self.ucp = cp;
                        self.urem = self.urem - 1;
                        self.ulo = 0x80;
                        self.uhi = 0xbf;
                        proof {
                            assert(self@ =~= step(m0, b));
                        }
                    }
                } else {
                    self.put_char('\u{fffd}');
                    self.mode = ParseMode::Ground;
                    proof {
                        assert(self@ =~= step(m0, b));
                    }
                }
            },
        }
    }

    /// Consumes raw bytes: the buffer afterwards is exactly the fold of
    /// the byte-step transition over `data`. The parser never fails;
    /// malformed sequences have no effect beyond their defined
    /// transitions, and the scrollback and line caps always hold
    /// afterwards.
    pub fn write(&mut self, data: &[u8])
        requires
            wf(old(self)@),
        ensures
            final(self)@ == write_seq(old(self)@, data@),
            wf(final(self)@),
    {
        let ghost m0 = self@;
        let n = data.len();
        let mut i: usize = 0;
        proof {
            assert(data@.take(0) =~= Seq::<u8>::empty());
        }
        while i < n
            invariant
                n == data@.len(),
                0 <= i <= n,
                wf(self@),
                self@ == write_seq(m0, data@.take(i as int)),
            decreases n - i,
        {
            let b = data[i];
            proof {
                assert(data@.take(i as int).push(b) =~= data@.take(i as int + 1));
                lemma_write_seq_snoc(m0, data@.take(i as int), b);
            }
            self.advance_byte(b);
            i = i + 1;
        }
        proof {
            assert(data@.take(n as int) =~= data@);
        }
    }

    /// The stored line count excluding trailing empty lines, minimum one:
    /// what rendering treats as real content.
    pub fn content_line_count(&self) -> (r: usize)
        requires
            wf(self@),
        ensures
            r as int == content_count(self@.lines),
    {
        let mut count = self.lines.len();
        proof {
            assert(self@.lines.take(count as int) =~= self@.lines);
        }
        while count > 0 && self.lines[count - 1].cells.len() == 0
            invariant
                count <= self@.lines.len(),
                self@.lines.len() == self.lines@.len(),
                trimmed_len(self@.lines.take(count as int)) == trimmed_len(self@.lines),
            decreases count,
        {
            proof {
                assert(self@.lines.take(count as int).last() == self@.lines[count as int - 1]);
                assert(self@.lines.take(count as int).drop_last() =~= self@.lines.take(
                    count as int - 1,
                ));
            }
            count = count - 1;
        }
        if count == 0 {
            proof {
                assert(self@.lines.take(0) =~= Seq::<Seq<Cell>>::empty());
            }
            1
        } else {
            proof {
                assert(self@.lines.take(count as int).last() == self@.lines[count as int - 1]);
                assert(trimmed_len(self@.lines.take(count as int)) == count as int);
            }
            count
        }
    }

    /// All stored lines, for rendering.
    pub fn get_all_lines(&self) -> (r: &Vec<Line>)
        ensures
            r@.map_values(|l: Line| l@) == self@.lines,
    {
        &self.lines
    }

    /// The cursor row.
    pub fn cursor_row(&self) -> (r: usize)
        ensures
            r as int == self@.row,
    {
        self.cursor_row
    }

    /// Drains the queued replies to terminal queries; the caller must
    /// write them back to the terminal's input.
    pub fn take_pending_responses(&mut self) -> (r: Vec<Vec<u8>>)
        ensures
            r@.map_values(|v: Vec<u8>| v@) == old(self)@.resp,
            final(self)@ == (EmuModel { resp: Seq::<Seq<u8>>::empty(), ..old(self)@ }),
    {
        let mut r: Vec<Vec<u8>> = Vec::new();
        core::mem::swap(&mut r, &mut self.pending_responses);
        proof {
            assert(self@.resp =~= Seq::<Seq<u8>>::empty());
            assert(self@ =~= (EmuModel { resp: Seq::<Seq<u8>>::empty(), ..old(self)@ }));
        }
        r
    }
}

} // verus!
