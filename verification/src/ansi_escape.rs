//! ANSI escape sequences.
use vstd::prelude::*;

verus! {

/// Clear the screen
pub const CLEAR_SCREEN: &'static str = "\x1b[2J";

/// Reset the formatting
pub const RESET_FMT: &'static str = "\x1b[m";

/// Invert foreground and background colors
pub const REVERSE_VIDEO: &'static str = "\x1b[7m";

/// Move the cursor to the top left corner
pub const MOVE_CURSOR_TO_START: &'static str = "\x1b[H";

/// Make the cursor invisible
pub const HIDE_CURSOR: &'static str = "\x1b[?25l";

/// Make the cursor visible
pub const SHOW_CURSOR: &'static str = "\x1b[?25h";

/// Clear the line right of the cursor
pub const CLEAR_LINE_RIGHT_OF_CURSOR: &'static str = "\x1b[K";

} // verus!
