//! Moving the cursor.
use vstd::prelude::*;

use crate::cursor::CursorState;
use crate::keys::AKey;
use crate::row::{char_size, cx2rx, lemma_char_size, lemma_tables, lemma_width, nats, rx2cx, width};
use crate::rows::lemma_row_fits;
use crate::state::{total_bytes, Editor, EditorView};

verus! {

impl EditorView {
    /// The position of the cursor in terms of columns.
    pub open spec fn rx(self) -> nat {
        match self.current_row() {
            Some(row) => cx2rx(row.bytes(), self.tab())[if self.cursor.x <= row.chars.len() {
                self.cursor.x as int
            } else {
                row.chars.len() as int
            }],
            None => 0,
        }
    }

    /// The cursor not further to the right than the end of its row.
    pub open spec fn x_clamped(self) -> EditorView {
        if self.cursor.x <= self.row_len() {
            self
        } else {
            self.with_x(self.row_len() as usize)
        }
    }

    /// The number of bytes of the last character of the current row.
    pub open spec fn last_char_size(self) -> nat {
        let bytes = self.current_row()->0.bytes();
        char_size(bytes, self.tab(), (width(bytes, self.tab()) - 1) as nat)
    }

    /// Whether ← can move the cursor: within a row it goes back by the size of the last character
    /// of the row, for which there must be room.
    pub open spec fn left_ok(self) -> bool {
        self.cursor.x > 0 && self.cursor.y < self.rows.len() ==> {
            &&& self.row_len() > 0
            &&& self.cursor.x <= self.row_len() + 1
            &&& self.last_char_size() <= self.cursor.x
        }
    }

    pub open spec fn move_ok(self, key: AKey) -> bool {
        key == AKey::Left ==> self.left_ok()
    }

    /// The state after an arrow key.
    pub open spec fn moved(self, key: AKey) -> EditorView {
        let c = self.cursor;
        let has_row = c.y < self.rows.len();
        (match key {
            AKey::Left => if has_row && c.x > 0 {
                self.with_x((c.x - self.last_char_size()) as usize)
            } else if c.y > 0 {
                self.with_cursor(CursorState { x: usize::MAX, y: (c.y - 1) as usize, ..c })
            } else {
                self
            },
            AKey::Right => if has_row && c.x < self.row_len() {
                self.with_x((c.x + char_size(
                    self.rows[c.y as int].bytes(),
                    self.tab(),
                    self.rx(),
                )) as usize)
            } else if has_row {
                self.with_cursor(c.next_line())
            } else {
                self
            },
            AKey::Up => if c.y > 0 {
                self.with_y((c.y - 1) as usize)
            } else {
                self
            },
            AKey::Down => if has_row {
                self.with_y((c.y + 1) as usize)
            } else {
                self
            },
        }).x_clamped()
    }
}

impl Editor {
    /// What `wf` says about the tables of row `y`.
    pub proof fn lemma_row(&self, y: int)
        requires
            self.wf(),
            0 <= y < self.rows@.len(),
        ensures
            ({
                let row = self.rows@[y];
                let bytes = row@.bytes();
                let tab = self@.tab();
                &&& row.laid_out(tab)
                &&& row@ == self@.rows[y]
                &&& row.chars@.len() == row@.chars.len() == bytes.len()
                &&& row.cx2rx@.len() == bytes.len() + 1
                &&& row.rx2cx@.len() == width(bytes, tab) + 1
                &&& bytes.len() + 32 <= usize::MAX
                &&& width(bytes, tab) + 32 <= usize::MAX
                &&& forall|i: int|
                    0 <= i < row.cx2rx@.len() ==> #[trigger] row.cx2rx@[i] == cx2rx(bytes, tab)[i]
                &&& forall|i: int|
                    0 <= i < row.cx2rx@.len() ==> #[trigger] row.cx2rx@[i] <= width(bytes, tab)
                &&& forall|i: int|
                    0 <= i < bytes.len() ==> #[trigger] row.cx2rx@[i] < width(bytes, tab)
                &&& row.cx2rx@.last() == width(bytes, tab)
                &&& bytes.len() > 0 ==> width(bytes, tab) > 0
                &&& forall|i: int|
                    0 <= i < row.rx2cx@.len() ==> #[trigger] row.rx2cx@[i] == rx2cx(bytes, tab)[i]
            }),
    {
        let row = self.rows@[y];
        let bytes = row@.bytes();
        let tab = self@.tab();
        lemma_tables(bytes, tab);
        lemma_row_fits(self@.rows, y, total_bytes(self@.rows), tab);
        lemma_width(bytes, tab);
        assert((bytes.len() + 32) * crate::row::tab_width(tab) >= bytes.len()
            * crate::row::tab_width(tab) + 32) by (nonlinear_arith)
            requires
                crate::row::tab_width(tab) >= 1,
        ;
        assert(nats(row.cx2rx@).len() == row.cx2rx@.len());
        assert(nats(row.rx2cx@).len() == row.rx2cx@.len());
        assert forall|i: int| 0 <= i < row.cx2rx@.len() implies #[trigger] row.cx2rx@[i] == cx2rx(
            bytes,
            tab,
        )[i] by {
            assert(nats(row.cx2rx@)[i] == row.cx2rx@[i]);
        }
        assert forall|i: int| 0 <= i < row.rx2cx@.len() implies #[trigger] row.rx2cx@[i] == rx2cx(
            bytes,
            tab,
        )[i] by {
            assert(nats(row.rx2cx@)[i] == row.rx2cx@[i]);
        }
    }

    /// Return the position of the cursor, in terms of rendered characters (as opposed to
    /// `self.cursor.x`, which is the position of the cursor in terms of bytes).
    pub fn rx(&self) -> (r: usize)
        requires
            self.wf(),
        ensures
            r == self@.rx(),
            r + 32 <= usize::MAX,
    {
        match self.current_row() {
            None => 0,
            Some(row) => {
                proof {
                    self.lemma_row(self.cursor.y as int);
                }
                let last = row.cx2rx.len() - 1;
                let pos = if last <= self.cursor.x { last } else { self.cursor.x };
                row.cx2rx[pos]
            },
        }
    }

    /// Update the cursor x position. If the cursor y position has changed, the current position
    /// might be illegal (x is further right than the last character of the row). If that is the
    /// case, clamp `self.cursor.x`.
    pub fn update_cursor_x_position(&mut self)
        ensures
            final(self)@ == old(self)@.x_clamped(),
            final(self).rows == old(self).rows,
    {
        let len = match self.current_row() {
            Some(row) => row.chars.len(),
            None => 0,
        };
        if self.cursor.x > len {
            self.cursor.x = len;
        }
    }

    /// Whether `move_cursor` can be called with this key.
    pub fn can_move(&self, key: &AKey) -> (r: bool)
        requires
            self.wf(),
        ensures
            r == self@.move_ok(*key),
    {
        match key {
            AKey::Left => match self.current_row() {
                Some(row) => {
                    proof {
                        self.lemma_row(self.cursor.y as int);
                    }
                    let len = row.chars.len();
                    self.cursor.x == 0 || (len > 0 && self.cursor.x <= len + 1 && row.get_char_size(
                        row.cx2rx[len] - 1,
                    ) <= self.cursor.x)
                },
                None => true,
            },
            _ => true,
        }
    }

    /// Move the cursor following an arrow key (← → ↑ ↓).
    pub fn move_cursor(&mut self, key: &AKey)
        requires
            old(self).wf(),
            old(self)@.move_ok(*key),
        ensures
            final(self).wf(),
            final(self)@ == old(self)@.moved(*key),
            final(self).rows == old(self).rows,
    {
        let x = self.cursor.x;
        let y = self.cursor.y;
        let has_row = y < self.rows.len();
        proof {
            if has_row {
                self.lemma_row(self.cursor.y as int);
                lemma_char_size(self@.rows[y as int].bytes(), self@.tab(), self@.rx());
            }
        }
        match key {
            AKey::Left => {
                if has_row && x > 0 {
                    let row = &self.rows[y];
                    let last = row.cx2rx.len() - 1;
                    let index = if last >= x - 1 { last } else { x - 1 };
                    let size = row.get_char_size(row.cx2rx[index] - 1);
                    self.cursor.x = x - size;
                } else if y > 0 {
                    // ← at the beginning of the line: move to the end of the previous line. The
                    // x position will be adjusted below to accommodate the current row length, so
                    // we can just set here to the maximum possible value here.
                    self.cursor.y = y - 1;
                    self.cursor.x = usize::MAX;
                }
            },
            AKey::Right => {
                if has_row {
                    let row = &self.rows[y];
                    if x < row.chars.len() {
                        let size = row.get_char_size(row.cx2rx[x]);
                        proof {
                            lemma_glyph_sizes(
                                self@.rows[y as int].bytes(),
                                self@.tab(),
                                self@.rx(),
                            );
                        }
                        self.cursor.x = x + size;
                    } else {
                        self.cursor.move_to_next_line();
                    }
                }
            },
            AKey::Up => {
                if y > 0 {
                    self.cursor.y = y - 1;
                }
            },
            AKey::Down => {
                if has_row {
                    self.cursor.y = y + 1;
                }
            },
        }
        self.update_cursor_x_position();
    }
}

/// A character has at most four bytes.
proof fn lemma_glyph_sizes_from(
    bytes: Seq<u8>,
    cx: nat,
    rx: nat,
    tab: nat,
    col: nat,
)
    ensures
        crate::row::char_size_from(bytes, cx, rx, tab, col) <= 4,
    decreases bytes.len() - cx,
{
    if cx < bytes.len() {
        let rest = bytes.skip(cx as int);
        let n = crate::row::glyph_len(rest);
        crate::row::lemma_glyph_len(rest);
        lemma_glyph_sizes_from(
            bytes,
            cx + n,
            rx + crate::row::columns(crate::row::glyph(rest), rx, tab),
            tab,
            col,
        );
    }
}

pub proof fn lemma_glyph_sizes(bytes: Seq<u8>, tab: nat, col: nat)
    ensures
        char_size(bytes, tab, col) <= 4,
{
    lemma_glyph_sizes_from(bytes, 0, 0, tab, col);
}

} // verus!
