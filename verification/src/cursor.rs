//! The cursor and the part of the text that the screen shows.
use vstd::prelude::*;

verus! {

/// Describes the cursor position and the screen offset
#[derive(Clone, Copy, PartialEq, Eq, Structural, Debug)]
pub struct CursorState {
    /// x position (indexing the characters, not the columns)
    pub x: usize,
    /// y position (row number, 0-indexed)
    pub y: usize,
    /// Row offset
    pub roff: usize,
    /// Column offset
    pub coff: usize,
}

/// `a - b`, or 0.
pub open spec fn minus(a: int, b: int) -> int {
    if a >= b {
        a - b
    } else {
        0
    }
}

/// The offset nearest to `off` with which position `p` is one of the `n` positions shown.
pub open spec fn scrolled(off: int, p: int, n: int) -> int {
    let least = minus(p, minus(n, 1));
    if off < least {
        least
    } else if off > p {
        p
    } else {
        off
    }
}

impl Default for CursorState {
    fn default() -> (r: CursorState)
        ensures
            r == (CursorState { x: 0, y: 0, roff: 0, coff: 0 }),
    {
        CursorState { x: 0, y: 0, roff: 0, coff: 0 }
    }
}

fn clamp(v: usize, least: usize, most: usize) -> (r: usize)
    requires
        least <= most,
    ensures
        r == if v < least {
            least
        } else if v > most {
            most
        } else {
            v
        },
{
    if v < least {
        least
    } else if v > most {
        most
    } else {
        v
    }
}

impl CursorState {
    pub open spec fn next_line(self) -> CursorState {
        CursorState { x: 0, y: (self.y + 1) as usize, ..self }
    }

    pub open spec fn scrolled_to(self, rx: int, screen_rows: int, screen_cols: int) -> CursorState {
        CursorState {
            roff: scrolled(self.roff as int, self.y as int, screen_rows) as usize,
            coff: scrolled(self.coff as int, rx, screen_cols) as usize,
            ..self
        }
    }

    /// Go to the start of the next line.
    pub fn move_to_next_line(&mut self)
        requires
            old(self).y < usize::MAX,
        ensures
            *final(self) == old(self).next_line(),
    {
        self.y = self.y + 1;
        self.x = 0;
    }

    /// Scroll the terminal window vertically and horizontally (i.e. adjusting the row offset and
    /// the column offset) so that the cursor can be shown.
    pub fn scroll(&mut self, rx: usize, screen_rows: usize, screen_cols: usize)
        ensures
            *final(self) == old(self).scrolled_to(
                rx as int,
                screen_rows as int,
                screen_cols as int,
            ),
    {
        self.roff = clamp(self.roff, self.y.saturating_sub(screen_rows.saturating_sub(1)), self.y);
        self.coff = clamp(self.coff, rx.saturating_sub(screen_cols.saturating_sub(1)), rx);
    }
}

/// After scrolling the cursor is on the screen, if the screen has room for it at all.
pub proof fn law_cursor_is_shown(c: CursorState, rx: usize, screen_rows: usize, screen_cols: usize)
    ensures
        ({
            let s = c.scrolled_to(rx as int, screen_rows as int, screen_cols as int);
            &&& s.x == c.x && s.y == c.y
            &&& s.roff <= s.y
            &&& s.coff <= rx
            &&& screen_rows > 0 ==> s.y < s.roff + screen_rows
            &&& screen_cols > 0 ==> rx < s.coff + screen_cols
        }),
{
}

/// The screen scrolls no further than it has to: no offset with which the cursor is shown is nearer
/// to the one before.
pub proof fn law_least_scroll(
    c: CursorState,
    rx: usize,
    screen_rows: usize,
    screen_cols: usize,
    roff: int,
    coff: int,
)
    requires
        roff <= c.y < roff + screen_rows,
        coff <= rx < coff + screen_cols,
    ensures
        ({
            let s = c.scrolled_to(rx as int, screen_rows as int, screen_cols as int);
            &&& roff >= 0 ==> distance(c.roff as int, s.roff as int) <= distance(
                c.roff as int,
                roff,
            )
            &&& coff >= 0 ==> distance(c.coff as int, s.coff as int) <= distance(
                c.coff as int,
                coff,
            )
        }),
{
}

/// How far two numbers are apart.
pub open spec fn distance(a: int, b: int) -> int {
    if a < b {
        b - a
    } else {
        a - b
    }
}

/// A cursor that is on the screen does not make it scroll.
pub proof fn law_no_needless_scroll(
    c: CursorState,
    rx: usize,
    screen_rows: usize,
    screen_cols: usize,
)
    requires
        c.roff <= c.y < c.roff + screen_rows,
        c.coff <= rx < c.coff + screen_cols,
    ensures
        c.scrolled_to(rx as int, screen_rows as int, screen_cols as int) == c,
{
}

} // verus!
