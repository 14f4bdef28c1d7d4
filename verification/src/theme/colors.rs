//! Terminal colors: ANSI styling through crossterm and the color chosen for each
//! kind of file.
use crossterm::style::{Color, Stylize};
use vstd::prelude::*;

verus! {

/// The foreground colors the listing uses.
#[derive(Clone, Copy, PartialEq, Eq, Structural, Debug)]
pub enum TermColor {
    Red,
    Green,
    Yellow,
    Blue,
    Cyan,
    Grey,
    White,
}

/// The 256-color palette index crossterm writes for each color.
pub open spec fn palette_code(c: TermColor) -> Seq<char> {
    match c {
        TermColor::Red => seq!['5', ';', '9'],
        TermColor::Green => seq!['5', ';', '1', '0'],
        TermColor::Yellow => seq!['5', ';', '1', '1'],
        TermColor::Blue => seq!['5', ';', '1', '2'],
        TermColor::Cyan => seq!['5', ';', '1', '4'],
        TermColor::Grey => seq!['5', ';', '7'],
        TermColor::White => seq!['5', ';', '1', '5'],
    }
}

/// Control sequence introducer, ESC '['.
pub open spec fn csi() -> Seq<char> {
    seq!['\x1b', '[']
}

/// The sequence that sets the foreground color; with color sequences
/// disabled (the `NO_COLOR` environment variable) crossterm writes an empty
/// parameter list.
pub open spec fn fg_set(c: TermColor, enabled: bool) -> Seq<char> {
    if enabled {
        csi() + seq!['3', '8', ';'] + palette_code(c) + seq!['m']
    } else {
        csi() + seq!['m']
    }
}

/// The sequence that resets the foreground color.
pub open spec fn fg_reset(enabled: bool) -> Seq<char> {
    if enabled {
        csi() + seq!['3', '9', 'm']
    } else {
        csi() + seq!['m']
    }
}

/// The sequence that resets all attributes and colors.
pub open spec fn reset_all() -> Seq<char> {
    csi() + seq!['0', 'm']
}

/// A text in a foreground color, possibly bold, as crossterm displays it.
pub open spec fn styled(text: Seq<char>, c: TermColor, bold: bool, enabled: bool) -> Seq<char> {
    if bold {
        fg_set(c, enabled) + csi() + seq!['1', 'm'] + text + reset_all()
    } else {
        fg_set(c, enabled) + text + fg_reset(enabled)
    }
}

/// `r` is the styled text, with color sequences enabled or disabled.
pub open spec fn is_styled(r: Seq<char>, text: Seq<char>, c: TermColor, bold: bool) -> bool {
    r == styled(text, c, bold, true) || r == styled(text, c, bold, false)
}

/// An underlined text as crossterm displays it.
pub open spec fn underlined(text: Seq<char>) -> Seq<char> {
    csi() + seq!['4', 'm'] + text + reset_all()
}

/// `Stylize::with` followed by `to_string`: the text in the given foreground
/// color. crossterm writes the color sequences unless the process has color
/// sequences disabled (`NO_COLOR`), which the contract leaves open.
#[verifier::external_body]
pub(crate) fn paint(text: &str, color: TermColor) -> (r: String)
    ensures
        is_styled(r@, text@, color, false),
{
    let c = match color {
        TermColor::Red => Color::Red,
        TermColor::Green => Color::Green,
        TermColor::Yellow => Color::Yellow,
        TermColor::Blue => Color::Blue,
        TermColor::Cyan => Color::Cyan,
        TermColor::Grey => Color::Grey,
        TermColor::White => Color::White,
    };
    text.with(c).to_string()
}

/// `Stylize::bold` on a colored text, then `to_string`: the text in the given
/// foreground color and bold. As for `paint`, whether the color sequences are
/// enabled is left open.
#[verifier::external_body]
pub(crate) fn paint_bold(text: &str, color: TermColor) -> (r: String)
    ensures
        is_styled(r@, text@, color, true),
{
    let c = match color {
        TermColor::Red => Color::Red,
        TermColor::Green => Color::Green,
        TermColor::Yellow => Color::Yellow,
        TermColor::Blue => Color::Blue,
        TermColor::Cyan => Color::Cyan,
        TermColor::Grey => Color::Grey,
        TermColor::White => Color::White,
    };
    text.with(c).bold().to_string()
}

/// `Stylize::underlined` then `to_string`: the underline attribute, the text,
/// and the attribute reset.
#[verifier::external_body]
pub(crate) fn underline(text: &str) -> (r: String)
    ensures
        r@ == underlined(text@),
{
    text.underlined().to_string()
}

/// The file-type bits of a mode.
pub open spec fn file_type_bits(mode: u32) -> u32 {
    mode & 0o170000u32
}

/// A directory mode.
pub open spec fn mode_is_dir(mode: u32) -> bool {
    file_type_bits(mode) == 0o040000u32
}

/// A symbolic-link mode.
pub open spec fn mode_is_symlink(mode: u32) -> bool {
    file_type_bits(mode) == 0o120000u32
}

/// Some execute bit is set.
pub open spec fn mode_is_executable(mode: u32) -> bool {
    mode & 0o111u32 != 0
}

/// Whether a mode is a directory.
pub fn is_dir_mode(mode: u32) -> (r: bool)
    ensures
        r == mode_is_dir(mode),
{
    mode & 0o170000u32 == 0o040000u32
}

/// Whether a mode is a symbolic link.
pub fn is_symlink_mode(mode: u32) -> (r: bool)
    ensures
        r == mode_is_symlink(mode),
{
    mode & 0o170000u32 == 0o120000u32
}

/// Whether a mode has an execute bit.
pub fn is_executable_mode(mode: u32) -> (r: bool)
    ensures
        r == mode_is_executable(mode),
{
    mode & 0o111u32 != 0
}

/// The style of a file name: directories blue and bold, symbolic links cyan,
/// executables green and bold, other files white.
pub open spec fn name_style(mode: u32) -> (TermColor, bool) {
    if mode_is_dir(mode) {
        (TermColor::Blue, true)
    } else if mode_is_symlink(mode) {
        (TermColor::Cyan, false)
    } else if mode_is_executable(mode) {
        (TermColor::Green, true)
    } else {
        (TermColor::White, false)
    }
}

/// Chooses the color of file names by file type.
pub struct ColorManager;

impl ColorManager {
    pub fn new() -> (r: Self) {
        ColorManager
    }

    /// The name styled for its file type (see `name_style`).
    pub fn colorize(&self, name: &str, mode: u32) -> (r: String)
        ensures
            is_styled(r@, name@, name_style(mode).0, name_style(mode).1),
    {
        if is_dir_mode(mode) {
            return paint_bold(name, TermColor::Blue);
        }
        if is_symlink_mode(mode) {
            return paint(name, TermColor::Cyan);
        }
        if is_executable_mode(mode) {
            return paint_bold(name, TermColor::Green);
        }
        paint(name, TermColor::White)
    }
}

} // verus!
