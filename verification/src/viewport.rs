//! Viewport state of a managed process: how far it is scrolled and
//! whether it follows new output, together with the display-line
//! arithmetic that wrapping mode needs.
//!
//! Scrolling up or jumping to the top always unpins the viewport
//! (`auto_scroll` becomes false); scrolling to the bottom always pins it;
//! scrolling down pins it exactly when the bottom is reached.

use crate::emulator::{content_count, Cell};
use crate::supervisor::{proc_wf, ManagedProcess, ProcModel};
use vstd::prelude::*;

verus! {

/// Display rows one stored line occupies at width `w` with wrapping on:
/// an empty line still occupies one row.
pub open spec fn wrap_rows(line: Seq<Cell>, w: int) -> int {
    if line.len() == 0 {
        1
    } else {
        (line.len() + w - 1) / w
    }
}

/// Display rows of the first `n` stored lines at width `w`.
pub open spec fn sum_wrap_rows(lines: Seq<Seq<Cell>>, w: int, n: int) -> int
    decreases n,
{
    if n <= 0 {
        0
    } else {
        sum_wrap_rows(lines, w, n - 1) + wrap_rows(lines[n - 1], w)
    }
}

/// Total display lines as the scroll operations count them: with
/// wrapping on, the wrapped rows of every stored line; otherwise the
/// content line count.
pub open spec fn display_total(lines: Seq<Seq<Cell>>, wrap: bool, w: int) -> int {
    if wrap && w > 0 {
        sum_wrap_rows(lines, w, lines.len() as int)
    } else {
        content_count(lines)
    }
}

/// Total display lines as output handling counts them when keeping the
/// viewport at the bottom: the wrapped rows of the content lines only,
/// and at least one.
pub open spec fn output_total(lines: Seq<Seq<Cell>>, wrap: bool, w: int) -> int {
    if wrap && w > 0 {
        let s = sum_wrap_rows(lines, w, content_count(lines));
        if s < 1 {
            1
        } else {
            s
        }
    } else {
        content_count(lines)
    }
}

/// Sums the wrapped rows of the first `n` stored lines of `process` at
/// width `w`.
pub(crate) fn sum_wrapped(process: &ManagedProcess, w: usize, n: usize) -> (r: usize)
    requires
        proc_wf(process@),
        1 <= w <= 0xffff,
        n as int <= process@.emu.lines.len(),
    ensures
        r as int == sum_wrap_rows(process@.emu.lines, w as int, n as int),
{
    let lines = process.buffer().get_all_lines();
    let mut ssum: usize = 0;
    let mut k: usize = 0;
    while k < n
        invariant
            n as int <= process@.emu.lines.len(),
            lines@.map_values(|l: crate::emulator::Line| l@) == process@.emu.lines,
            proc_wf(process@),
            1 <= w <= 0xffff,
            0 <= k <= n,
            ssum as int == sum_wrap_rows(process@.emu.lines, w as int, k as int),
            ssum <= 67535 * k,
        decreases n - k,
    {
        let ll = lines[k].cells.len();
        proof {
            assert(lines@[k as int]@ == process@.emu.lines[k as int]);
            assert(ll <= crate::emulator::MAX_LINE_WIDTH);
        }
        let add: usize = if ll == 0 {
            1
        } else {
            (ll + w - 1) / w
        };
        proof {
            if ll > 0 {
                assert(add as int == (ll + w - 1) as int / w as int);
                assert((ll + w - 1) as int / w as int <= (ll + w - 1) as int) by {
                    vstd::arithmetic::div_mod::lemma_div_is_ordered_by_denominator(
                        (ll + w - 1) as int,
                        1,
                        w as int,
                    );
                }
            }
            assert(add <= 67535);
        }
        ssum = ssum + add;
        k = k + 1;
    }
    ssum
}

/// Total display lines of `process` at viewport width `viewport_width`,
/// wrapping long lines when the process has wrapping on.
pub fn display_line_count(process: &ManagedProcess, viewport_width: usize) -> (r: usize)
    requires
        proc_wf(process@),
        viewport_width <= 0xffff,
    ensures
        r as int == display_total(
            process@.emu.lines,
            process@.wrap_enabled,
            viewport_width as int,
        ),
{
    if process.wrap_enabled() && viewport_width > 0 {
        let lines = process.buffer().get_all_lines();
        let n = lines.len();
        proof {
            assert(n as int == lines@.map_values(|l: crate::emulator::Line| l@).len());
        }
        sum_wrapped(process, viewport_width, n)
    } else {
        process.buffer().content_line_count()
    }
}

/// Scrolls the viewport up and unpins it from the bottom.
pub fn scroll_up(process: &mut ManagedProcess, amount: usize)
    ensures
        final(process)@ == (ProcModel {
            scroll_offset: if old(process)@.scroll_offset >= amount as int {
                old(process)@.scroll_offset - amount as int
            } else {
                0
            },
            auto_scroll: false,
            ..old(process)@
        }),
{
    let cur = process.scroll_offset();
    let off = if cur >= amount {
        cur - amount
    } else {
        0
    };
    process.set_scroll(off, false);
}

/// Scrolls the viewport down, clamped to the bottom of the content, and
/// pins it again exactly when the bottom is reached.
pub fn scroll_down(
    process: &mut ManagedProcess,
    amount: usize,
    visible_height: usize,
    viewport_width: usize,
)
    requires
        proc_wf(old(process)@),
        viewport_width <= 0xffff,
    ensures
        ({
            let total = display_total(
                old(process)@.emu.lines,
                old(process)@.wrap_enabled,
                viewport_width as int,
            );
            let max_scroll = if total >= visible_height as int {
                total - visible_height as int
            } else {
                0
            };
            let target = old(process)@.scroll_offset + amount as int;
            final(process)@ == (ProcModel {
                scroll_offset: if target <= max_scroll {
                    target
                } else {
                    max_scroll
                },
                auto_scroll: if target >= max_scroll {
                    true
                } else {
                    old(process)@.auto_scroll
                },
                ..old(process)@
            })
        }),
{
    let total = display_line_count(process, viewport_width);
    let max_scroll = if total >= visible_height {
        total - visible_height
    } else {
        0
    };
    let cur = process.scroll_offset();
    let t = cur.saturating_add(amount);
    let off = if t <= max_scroll {
        t
    } else {
        max_scroll
    };
    let was_auto = process.auto_scroll();
    let auto = if off >= max_scroll {
        true
    } else {
        was_auto
    };
    process.set_scroll(off, auto);
}

/// Jumps the viewport to the top and unpins it.
pub fn scroll_to_top(process: &mut ManagedProcess)
    ensures
        final(process)@ == (ProcModel { scroll_offset: 0, auto_scroll: false, ..old(process)@ }),
{
    process.set_scroll(0, false);
}

/// Jumps the viewport to the bottom of the content and pins it there.
pub fn scroll_to_bottom(process: &mut ManagedProcess, visible_height: usize, viewport_width: usize)
    requires
        proc_wf(old(process)@),
        viewport_width <= 0xffff,
    ensures
        ({
            let total = display_total(
                old(process)@.emu.lines,
                old(process)@.wrap_enabled,
                viewport_width as int,
            );
            final(process)@ == (ProcModel {
                scroll_offset: if total >= visible_height as int {
                    total - visible_height as int
                } else {
                    0
                },
                auto_scroll: true,
                ..old(process)@
            })
        }),
{
    let total = display_line_count(process, viewport_width);
    let max_scroll = if total >= visible_height {
        total - visible_height
    } else {
        0
    };
    process.set_scroll(max_scroll, true);
}

} // verus!
