//! Cell styling: colors, attribute flags, and the SGR (Select Graphic
//! Rendition) escape-code interpreter that maintains the running style.

use vstd::prelude::*;

verus! {

/// Color of a cell: one of the eight base ANSI colors (0-7), one of the
/// eight bright ANSI colors (0-7), a 256-color palette index, a 24-bit RGB
/// value, or the terminal's default.
#[derive(Clone, Copy, Debug, PartialEq, Eq, Structural)]
pub enum Color {
    Default,
    Named(u8),
    Bright(u8),
    Indexed(u8),
    Rgb(u8, u8, u8),
}

/// The graphic rendition carried by a printed cell: attribute flags plus
/// foreground and background colors.
#[derive(Clone, Copy, Debug, PartialEq, Eq, Structural)]
pub struct Style {
    pub bold: bool,
    pub dim: bool,
    pub italic: bool,
    pub underline: bool,
    pub blink: bool,
    pub reverse: bool,
    pub hidden: bool,
    pub strike: bool,
    pub fg: Color,
    pub bg: Color,
}

/// The style every buffer starts from and that SGR code 0 resets to:
/// no attributes, default colors.
pub open spec fn plain_style() -> Style {
    Style {
        bold: false,
        dim: false,
        italic: false,
        underline: false,
        blink: false,
        reverse: false,
        hidden: false,
        strike: false,
        fg: Color::Default,
        bg: Color::Default,
    }
}

impl Style {
    /// The default style: no attributes, terminal-default colors.
    pub fn plain() -> (r: Style)
        ensures
            r == plain_style(),
    {
        Style {
            bold: false,
            dim: false,
            italic: false,
            underline: false,
            blink: false,
            reverse: false,
            hidden: false,
            strike: false,
            fg: Color::Default,
            bg: Color::Default,
        }
    }
}

/// The low byte of an SGR parameter, used for palette indices and RGB
/// components, which the escape code carries as decimal numbers up to 255.
pub open spec fn lo8(x: u16) -> u8 {
    (x % 256) as u8
}

/// One pass of the SGR interpreter from parameter index `i` onward.
/// Codes 38 and 48 consume their color arguments (`38;5;n` or
/// `38;2;r;g;b`); every other code consumes itself alone; unknown codes
/// are ignored.
pub open spec fn sgr_from(st: Style, ps: Seq<u16>, i: int) -> Style
    decreases ps.len() - i,
{
    if i < 0 || i >= ps.len() {
        st
    } else {
        let p = ps[i];
        if p == 0 {
            sgr_from(plain_style(), ps, i + 1)
        } else if p == 1 {
            sgr_from(Style { bold: true, ..st }, ps, i + 1)
        } else if p == 2 {
            sgr_from(Style { dim: true, ..st }, ps, i + 1)
        } else if p == 3 {
            sgr_from(Style { italic: true, ..st }, ps, i + 1)
        } else if p == 4 {
            sgr_from(Style { underline: true, ..st }, ps, i + 1)
        } else if p == 5 || p == 6 {
            sgr_from(Style { blink: true, ..st }, ps, i + 1)
        } else if p == 7 {
            sgr_from(Style { reverse: true, ..st }, ps, i + 1)
        } else if p == 8 {
            sgr_from(Style { hidden: true, ..st }, ps, i + 1)
        } else if p == 9 {
            sgr_from(Style { strike: true, ..st }, ps, i + 1)
        } else if p == 22 {
            sgr_from(Style { bold: false, dim: false, ..st }, ps, i + 1)
        } else if p == 23 {
            sgr_from(Style { italic: false, ..st }, ps, i + 1)
        } else if p == 24 {
            sgr_from(Style { underline: false, ..st }, ps, i + 1)
        } else if p == 25 {
            sgr_from(Style { blink: false, ..st }, ps, i + 1)
        } else if p == 27 {
            sgr_from(Style { reverse: false, ..st }, ps, i + 1)
        } else if p == 28 {
            sgr_from(Style { hidden: false, ..st }, ps, i + 1)
        } else if p == 29 {
            sgr_from(Style { strike: false, ..st }, ps, i + 1)
        } else if 30 <= p && p <= 37 {
            sgr_from(Style { fg: Color::Named((p - 30) as u8), ..st }, ps, i + 1)
        } else if p == 38 {
            if i + 2 < ps.len() && ps[i + 1] == 5 {
                sgr_from(Style { fg: Color::Indexed(lo8(ps[i + 2])), ..st }, ps, i + 3)
            } else if i + 4 < ps.len() && ps[i + 1] == 2 {
                sgr_from(
                    Style { fg: Color::Rgb(lo8(ps[i + 2]), lo8(ps[i + 3]), lo8(ps[i + 4])), ..st },
                    ps,
                    i + 5,
                )
            } else {
                sgr_from(st, ps, i + 1)
            }
        } else if p == 39 {
            sgr_from(Style { fg: Color::Default, ..st }, ps, i + 1)
        } else if 40 <= p && p <= 47 {
            sgr_from(Style { bg: Color::Named((p - 40) as u8), ..st }, ps, i + 1)
        } else if p == 48 {
            if i + 2 < ps.len() && ps[i + 1] == 5 {
                sgr_from(Style { bg: Color::Indexed(lo8(ps[i + 2])), ..st }, ps, i + 3)
            } else if i + 4 < ps.len() && ps[i + 1] == 2 {
                sgr_from(
                    Style { bg: Color::Rgb(lo8(ps[i + 2]), lo8(ps[i + 3]), lo8(ps[i + 4])), ..st },
                    ps,
                    i + 5,
                )
            } else {
                sgr_from(st, ps, i + 1)
            }
        } else if p == 49 {
            sgr_from(Style { bg: Color::Default, ..st }, ps, i + 1)
        } else if 90 <= p && p <= 97 {
            sgr_from(Style { fg: Color::Bright((p - 90) as u8), ..st }, ps, i + 1)
        } else if 100 <= p && p <= 107 {
            sgr_from(Style { bg: Color::Bright((p - 100) as u8), ..st }, ps, i + 1)
        } else {
            sgr_from(st, ps, i + 1)
        }
    }
}

/// What an SGR escape sequence with parameters `ps` does to the running
/// style `st`. An empty parameter list resets to the plain style.
pub open spec fn sgr_apply(st: Style, ps: Seq<u16>) -> Style {
    if ps.len() == 0 {
        plain_style()
    } else {
        sgr_from(st, ps, 0)
    }
}

/// Interprets an SGR parameter list against the running style.
#[verifier::rlimit(100)]
pub fn apply_sgr(st: Style, ps: &Vec<u16>) -> (r: Style)
    ensures
        r == sgr_apply(st, ps@),
{
    if ps.len() == 0 {
        return Style::plain();
    }
    let ghost orig: Style = st;
    let mut st = st;
    let mut i: usize = 0;
    while i < ps.len()
        invariant
            0 <= i <= ps.len(),
            sgr_from(st, ps@, i as int) == sgr_from(orig, ps@, 0),
        decreases ps.len() - i,
    {
        let p = ps[i];
        if p == 0 {
            st = Style::plain();
            i = i + 1;
        } else if p == 1 {
            st = Style { bold: true, ..st };
            i = i + 1;
        } else if p == 2 {
            st = Style { dim: true, ..st };
            i = i + 1;
        } else if p == 3 {
            st = Style { italic: true, ..st };
            i = i + 1;
        } else if p == 4 {
            st = Style { underline: true, ..st };
            i = i + 1;
        } else if p == 5 || p == 6 {
            st = Style { blink: true, ..st };
            i = i + 1;
        } else if p == 7 {
            st = Style { reverse: true, ..st };
            i = i + 1;
        } else if p == 8 {
            st = Style { hidden: true, ..st };
            i = i + 1;
        } else if p == 9 {
            st = Style { strike: true, ..st };
            i = i + 1;
        } else if p == 22 {
            st = Style { bold: false, dim: false, ..st };
            i = i + 1;
        } else if p == 23 {
            st = Style { italic: false, ..st };
            i = i + 1;
        } else if p == 24 {
            st = Style { underline: false, ..st };
            i = i + 1;
        } else if p == 25 {
            st = Style { blink: false, ..st };
            i = i + 1;
        } else if p == 27 {
            st = Style { reverse: false, ..st };
            i = i + 1;
        } else if p == 28 {
            st = Style { hidden: false, ..st };
            i = i + 1;
        } else if p == 29 {
            st = Style { strike: false, ..st };
            i = i + 1;
        } else if 30 <= p && p <= 37 {
            st = Style { fg: Color::Named((p - 30) as u8), ..st };
            i = i + 1;
        } else if p == 38 {
            if ps.len() - i > 2 && ps[i + 1] == 5 {
                st = Style { fg: Color::Indexed((ps[i + 2] % 256) as u8), ..st };
                i = i + 3;
            } else if ps.len() - i > 4 && ps[i + 1] == 2 {
                st = Style {
                    fg: Color::Rgb(
                        (ps[i + 2] % 256) as u8,
                        (ps[i + 3] % 256) as u8,
                        (ps[i + 4] % 256) as u8,
                    ),
                    ..st
                };
                i = i + 5;
            } else {
                i = i + 1;
            }
        } else if p == 39 {
            st = Style { fg: Color::Default, ..st };
            i = i + 1;
        } else if 40 <= p && p <= 47 {
            st = Style { bg: Color::Named((p - 40) as u8), ..st };
            i = i + 1;
        } else if p == 48 {
            if ps.len() - i > 2 && ps[i + 1] == 5 {
                st = Style { bg: Color::Indexed((ps[i + 2] % 256) as u8), ..st };
                i = i + 3;
            } else if ps.len() - i > 4 && ps[i + 1] == 2 {
                st = Style {
                    bg: Color::Rgb(
                        (ps[i + 2] % 256) as u8,
                        (ps[i + 3] % 256) as u8,
                        (ps[i + 4] % 256) as u8,
                    ),
                    ..st
                };
                i = i + 5;
            } else {
                i = i + 1;
            }
        } else if p == 49 {
            st = Style { bg: Color::Default, ..st };
            i = i + 1;
        } else if 90 <= p && p <= 97 {
            st = Style { fg: Color::Bright((p - 90) as u8), ..st };
            i = i + 1;
        } else if 100 <= p && p <= 107 {
            st = Style { bg: Color::Bright((p - 100) as u8), ..st };
            i = i + 1;
        } else {
            i = i + 1;
        }
    }
    st
}

} // verus!
