//! Layout of the start-up banner: which colour level to draw with, how far to
//! indent a logo line so that it sits centred, and the terminal directives
//! that draw one line. Performing the directives is left to the caller.

use vstd::prelude::*;
use crate::gradient::{gradient, piecewise_gradient, ColorLevel};
use crate::palette::Rgb;

verus! {

/// The terminal width assumed when the terminal does not report its size.
pub const DEFAULT_COLUMNS: u16 = 120;

/// What a probe of the output stream reports about a terminal that supports
/// colour at all.
#[derive(Clone, Copy, Debug, PartialEq, Eq, Structural)]
pub struct ColorSupport {
    /// The 256-colour palette is supported.
    pub has_256: bool,
    /// 24-bit colour is supported.
    pub has_16m: bool,
}

/// One step of drawing a banner line on a terminal.
#[derive(Clone, Copy, Debug, PartialEq, Eq, Structural)]
pub enum Directive {
    /// Move the cursor right by this many columns.
    MoveRight(u16),
    /// Set the foreground colour to this 24-bit colour.
    SetForeground(Rgb),
    /// Set the foreground colour back to the terminal's default.
    ResetForeground,
    /// Write this character.
    Print(char),
    /// Reset all colours.
    ResetColor,
    /// End the line.
    NewLine,
}

/// The colour level for a probe result: 24-bit colour where the terminal has
/// it, the indexed level for any other colour terminal, and no colour where
/// the probe found none.
pub open spec fn detect_level_spec(probe: Option<ColorSupport>) -> ColorLevel {
    match probe {
        Some(support) => if support.has_16m {
            ColorLevel::Truecolor
        } else {
            ColorLevel::Ansi256
        },
        None => ColorLevel::Unsupported,
    }
}

/// Chooses the colour level to draw with from what the probe reported.
pub fn detect_level(probe: Option<ColorSupport>) -> (level: ColorLevel)
    ensures
        level == detect_level_spec(probe),
{
    match probe {
        Some(support) => {
            if support.has_16m {
                ColorLevel::Truecolor
            } else {
                ColorLevel::Ansi256
            }
        },
        None => ColorLevel::Unsupported,
    }
}

/// The width to lay the banner out for: the reported number of columns, or
/// `DEFAULT_COLUMNS` when the terminal reported no size.
pub open spec fn columns_or_default_spec(size: Option<(u16, u16)>) -> u16 {
    match size {
        Some(reported) => reported.0,
        None => DEFAULT_COLUMNS,
    }
}

/// Picks the width to lay the banner out for from a terminal size of
/// `(columns, rows)`, if the terminal reported one.
pub fn columns_or_default(size: Option<(u16, u16)>) -> (cols: u16)
    ensures
        cols == columns_or_default_spec(size),
{
    match size {
        Some(reported) => reported.0,
        None => DEFAULT_COLUMNS,
    }
}

/// Half of the room that a line of `width` characters leaves in `cols`
/// columns, rounded down; zero when the line fills the terminal or is wider.
pub open spec fn center_pad_spec(cols: int, width: int) -> int {
    if cols > width {
        (cols - width) / 2
    } else {
        0
    }
}

/// The number of columns to indent a line of `width` characters so that it
/// sits centred in a terminal of `cols` columns.
pub fn center_pad(cols: u16, width: usize) -> (pad: u16)
    ensures
        pad == center_pad_spec(cols as int, width as int),
{
    if (cols as usize) > width {
        ((cols as usize - width) / 2) as u16
    } else {
        0
    }
}

/// The directive that sets the foreground for a character of colour `rgb`.
/// Both colour levels carry the full 24-bit value: the indexed level is not
/// quantised to the 256-colour palette. Without colour support the
/// foreground is set back to the default.
pub open spec fn foreground_spec(level: ColorLevel, rgb: Rgb) -> Directive {
    match level {
        ColorLevel::Truecolor => Directive::SetForeground(rgb),
        ColorLevel::Ansi256 => Directive::SetForeground(rgb),
        ColorLevel::Unsupported => Directive::ResetForeground,
    }
}

/// Chooses the foreground directive for one character.
pub fn foreground(level: ColorLevel, rgb: Rgb) -> (directive: Directive)
    ensures
        directive == foreground_spec(level, rgb),
{
    match level {
        ColorLevel::Truecolor => Directive::SetForeground(rgb),
        ColorLevel::Ansi256 => Directive::SetForeground(rgb),
        ColorLevel::Unsupported => Directive::ResetForeground,
    }
}

/// The move that indents a line by `pad` columns: none for a pad of zero.
pub open spec fn indent_spec(pad: int) -> Seq<Directive> {
    if pad > 0 {
        seq![Directive::MoveRight(pad as u16)]
    } else {
        Seq::empty()
    }
}

/// Directive `j` of a run of coloured characters: the characters of `line`
/// in order, each preceded by the directive that sets its colour.
pub open spec fn cell_directive(
    line: Seq<char>,
    level: ColorLevel,
    colors: Seq<Rgb>,
    j: int,
) -> Directive {
    if j % 2 == 0 {
        foreground_spec(level, colors[j / 2])
    } else {
        Directive::Print(line[j / 2])
    }
}

/// The directives for the first `cells` characters of `line`, each character
/// preceded by the directive that sets its colour.
pub open spec fn cells_spec(
    line: Seq<char>,
    level: ColorLevel,
    colors: Seq<Rgb>,
    cells: int,
) -> Seq<Directive> {
    Seq::new((2 * cells) as nat, |j: int| cell_directive(line, level, colors, j))
}

/// The directives that draw one banner line: the indent that centres it, its
/// characters coloured along a gradient through `stops` that spans the line,
/// a colour reset and the end of the line. The gradient has one sample per
/// character (one sample for an empty line), and characters pair up with
/// samples in order, so a line is drawn only as far as there are samples.
pub open spec fn line_spec(
    cols: int,
    line: Seq<char>,
    level: ColorLevel,
    stops: Seq<Rgb>,
) -> Seq<Directive> {
    let samples = if line.len() > 1 {
        line.len()
    } else {
        1
    };
    let colors = gradient(samples, stops);
    let cells = if colors.len() < line.len() {
        colors.len()
    } else {
        line.len()
    };
    indent_spec(center_pad_spec(cols, line.len() as int))
        + cells_spec(line, level, colors, cells as int)
        + seq![Directive::ResetColor, Directive::NewLine]
}

/// Lays out one banner line for a terminal of `cols` columns.
pub fn line_directives(
    cols: u16,
    line: &[char],
    level: ColorLevel,
    stops: &[Rgb],
) -> (out: Vec<Directive>)
    ensures
        out@ == line_spec(cols as int, line@, level, stops@),
{
    let width: usize = line.len();
    let samples: usize = if width > 1 {
        width
    } else {
        1
    };
    let colors = piecewise_gradient(samples, stops);
    let pad: u16 = center_pad(cols, width);
    let mut out: Vec<Directive> = Vec::new();
    if pad > 0 {
        out.push(Directive::MoveRight(pad));
    }
    let cells: usize = if colors.len() < width {
        colors.len()
    } else {
        width
    };
    let ghost indent = indent_spec(pad as int);
    assert(out@ =~= indent + cells_spec(line@, level, colors@, 0));
    let mut k: usize = 0;
    while k < cells
        invariant
            k <= cells,
            cells <= line@.len(),
            cells <= colors@.len(),
            out@ == indent + cells_spec(line@, level, colors@, k as int),
        decreases cells - k,
    {
        out.push(foreground(level, colors[k]));
        out.push(Directive::Print(line[k]));
        proof {
            let drawn = cells_spec(line@, level, colors@, k as int);
            let next = cells_spec(line@, level, colors@, k + 1);
            assert(next =~= drawn.push(cell_directive(line@, level, colors@, 2 * k)).push(
                cell_directive(line@, level, colors@, 2 * k + 1),
            ));
            assert(out@ =~= indent + next);
        }
        k += 1;
    }
    out.push(Directive::ResetColor);
    out.push(Directive::NewLine);
    assert(out@ =~= line_spec(cols as int, line@, level, stops@));
    out
}

} // verus!
