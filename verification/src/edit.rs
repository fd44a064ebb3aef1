//! Changing the text.
use vstd::prelude::*;

use crate::cursor::{minus, CursorState};
use crate::keys::AKey;
use crate::row::{
    bytes_of, char_size, char_views, cx2rx, fits, have_new_ids, is_new_id, lemma_char_before,
    new_row, CharView, Row, UuidChar,
};
use crate::rows::{
    all_rehighlighted, lemma_all_rehighlighted, lemma_fits, lemma_rehighlighted,
    lemma_total_insert, lemma_total_push, lemma_total_remove, lemma_total_update, rehighlighted,
    start_state, update_all, update_rows,
};
use crate::state::{laid_out, row_views, total_bytes, Editor, EditorView};
use crate::syntax::HlState;
use crate::text::decimal;

verus! {

impl EditorView {
    /// Row `y` was changed: its highlight state, and if it changed those of the following rows,
    /// are computed anew.
    pub open spec fn row_updated(self, y: nat, ignore_following_rows: bool) -> EditorView {
        self.with_rows(
            rehighlighted(
                self.rows,
                self.syntax,
                y,
                start_state(self.rows, y),
                ignore_following_rows,
            ),
        )
    }

    pub open spec fn all_rows_updated(self) -> EditorView {
        self.with_rows(all_rehighlighted(self.rows, self.syntax, 0, HlState::Normal))
    }

    /// The number of columns left of the text: the digits of the last line number, a space and
    /// a bar, if line numbers are wanted and take less than a quarter of the window.
    pub open spec fn padding(self) -> nat {
        let pad = decimal(self.rows.len()).len() + 2;
        if self.config.show_line_num && pad < self.window_width as nat / 4 {
            pad
        } else {
            0
        }
    }

    pub open spec fn screen_cols_updated(self) -> EditorView {
        EditorView {
            ln_pad: self.padding() as usize,
            screen_cols: minus(self.window_width as int, self.padding() as int) as usize,
            ..self
        }
    }

    pub open spec fn is_empty(self) -> bool {
        self.rows.len() <= 1 && self.n_bytes == 0
    }

    /// Where a byte can be inserted: within a row, or where a new row can be appended.
    pub open spec fn insert_byte_ok(self) -> bool {
        if self.cursor.y < self.rows.len() {
            self.cursor.x <= self.row_len() && self.room(1, 0)
        } else {
            self.cursor.y <= self.rows.len() + 1 && self.cursor.x < usize::MAX && self.room(1, 1)
        }
    }

    /// The byte `c` was inserted under the identifier `id`, if need be in a new row with the
    /// identifier `row_id`.
    pub open spec fn byte_inserted(self, c: u8, row_id: Seq<char>, id: Seq<char>) -> EditorView {
        let y = self.cursor.y as int;
        let x = self.cursor.x as int;
        let ch = CharView { byte: c, id };
        let s = if y < self.rows.len() {
            let row = self.rows[y];
            self.with_rows(self.rows.update(y, row.with_chars(row.chars.insert(x, ch))))
        } else {
            self.with_rows(self.rows.push(new_row(row_id, seq![ch]))).screen_cols_updated()
        };
        EditorView {
            n_bytes: (self.n_bytes + 1) as u64,
            dirty: true,
            ..s.row_updated(y as nat, false).with_x((x + 1) as usize)
        }
    }

    pub open spec fn insert_new_line_ok(self) -> bool {
        &&& self.cursor.x == 0 ==> self.cursor.y <= self.rows.len()
        &&& self.cursor.x > 0 ==> self.cursor.y < self.rows.len() && self.cursor.x
            <= self.row_len()
        &&& self.room(0, 1)
    }

    /// The row was split at the cursor; the new row has the identifier `row_id`.
    pub open spec fn new_line_inserted(self, row_id: Seq<char>) -> EditorView {
        let y = self.cursor.y as int;
        let x = self.cursor.x as int;
        let row = self.rows[y];
        let (position, tail, s) = if x == 0 {
            (y, Seq::<CharView>::empty(), self)
        } else {
            (
                y + 1,
                row.chars.skip(x),
                self.with_rows(
                    self.rows.update(y, row.with_chars(row.chars.take(x))),
                ).row_updated(y as nat, false),
            )
        };
        EditorView {
            cursor: self.cursor.next_line(),
            dirty: true,
            ..s.with_rows(s.rows.insert(position, new_row(row_id, tail))).row_updated(
                position as nat,
                false,
            ).screen_cols_updated()
        }
    }

    pub open spec fn delete_ok(self) -> bool {
        self.cursor.x > 0 ==> self.cursor.y < self.rows.len()
    }

    /// The character before the cursor was deleted. Where there is none, in a row that begins
    /// with a character that the cursor is inside of or behind whose end the cursor is, the cursor
    /// goes to the beginning of the row.
    pub open spec fn char_before_deleted(self) -> EditorView {
        let y = self.cursor.y as int;
        let x = self.cursor.x as int;
        let row = self.rows[y];
        let col = cx2rx(row.bytes(), self.tab())[x];
        if x > row.chars.len() || col == 0 {
            self.with_x(0)
        } else {
            let n = char_size(row.bytes(), self.tab(), (col - 1) as nat);
            let rest = row.chars.take(x - n) + row.chars.skip(x);
            EditorView {
                n_bytes: (self.n_bytes - n) as u64,
                dirty: true,
                ..self.with_rows(self.rows.update(y, row.with_chars(rest))).row_updated(
                    y as nat,
                    false,
                ).with_x((x - n) as usize)
            }
        }
    }

    /// The current row was appended to the previous one.
    pub open spec fn row_merged(self) -> EditorView {
        let y = self.cursor.y as int;
        let previous = self.rows[y - 1];
        let merged = previous.with_chars(previous.chars + self.rows[y].chars);
        EditorView {
            cursor: CursorState {
                x: previous.chars.len() as usize,
                y: (y - 1) as usize,
                ..self.cursor
            },
            dirty: true,
            ..self.with_rows(self.rows.remove(y).update(y - 1, merged)).row_updated(
                (y - 1) as nat,
                true,
            ).row_updated(y as nat, false).screen_cols_updated()
        }
    }

    /// The character before the cursor was deleted, or at the beginning of a row the line break
    /// before it; behind the last row the cursor went to the end of that row.
    pub open spec fn char_deleted(self) -> EditorView {
        if self.cursor.x > 0 {
            self.char_before_deleted()
        } else if 0 < self.cursor.y < self.rows.len() {
            self.row_merged()
        } else if self.cursor.y == self.rows.len() {
            self.moved(AKey::Left)
        } else {
            self
        }
    }

    /// The text of the current row was deleted.
    pub open spec fn row_cleared(self) -> EditorView {
        let y = self.cursor.y as int;
        let row = self.rows[y];
        EditorView {
            n_bytes: (self.n_bytes - row.chars.len()) as u64,
            dirty: self.dirty || row.chars.len() > 0,
            ..self.with_rows(
                self.rows.update(y, row.with_chars(Seq::empty())),
            ).row_updated(y as nat, false)
        }
    }

    /// The current row was deleted; the last row stays as an empty one.
    pub open spec fn current_row_deleted(self) -> EditorView {
        if self.cursor.y < self.rows.len() {
            self.row_cleared().with_cursor(self.cursor.next_line()).char_deleted()
        } else {
            self
        }
    }

    /// There is room for a copy of the current row, if there is one.
    pub open spec fn duplicate_ok(self) -> bool {
        self.current_row() is Some ==> self.room(self.row_len(), 1)
    }

    /// A row with the given characters was inserted behind the current row.
    pub open spec fn row_duplicated(self, row_id: Seq<char>, chars: Seq<CharView>) -> EditorView {
        let y = self.cursor.y as int;
        EditorView {
            n_bytes: (self.n_bytes + chars.len()) as u64,
            dirty: true,
            ..self.with_rows(self.rows.insert(y + 1, new_row(row_id, chars))).row_updated(
                (y + 1) as nat,
                false,
            ).with_y((y + 1) as usize).screen_cols_updated()
        }
    }
}

/// The bytes of a text are counted if those of its parts are.
proof fn lemma_countable(s: EditorView, bytes: nat, rows: nat)
    requires
        s.room(bytes, rows),
    ensures
        forall|n: nat, tab: nat|
            n <= total_bytes(s.rows) + bytes && tab == s.tab() ==> #[trigger] fits(n, tab),
        total_bytes(s.rows) + bytes + 32 <= usize::MAX,
        s.rows.len() + rows + 32 <= usize::MAX,
{
    assert forall|n: nat, tab: nat|
        n <= total_bytes(s.rows) + bytes && tab == s.tab() implies #[trigger] fits(n, tab) by {
        lemma_fits(n, total_bytes(s.rows) + bytes, tab);
    }
    lemma_fits(0, total_bytes(s.rows) + bytes, s.tab());
}

impl Editor {
    /// Update a row, given its index. If `ignore_following_rows` is `false` and the highlight
    /// state has changed during the update (for instance, it is now in "multi-line comment"
    /// state, keep updating the next rows
    pub fn update_row(&mut self, y: usize, ignore_following_rows: bool)
        requires
            y <= old(self).rows@.len(),
            fits(total_bytes(old(self)@.rows), old(self)@.tab()),
            forall|i: int|
                0 <= i < old(self).rows@.len() && i != y ==> (#[trigger] old(
                    self,
                ).rows@[i]).laid_out(old(self)@.tab()),
        ensures
            final(self)@ == old(self)@.row_updated(y as nat, ignore_following_rows),
            laid_out(final(self).rows@, old(self)@.tab()),
            final(self).rows@.len() == old(self).rows@.len(),
            total_bytes(final(self)@.rows) == total_bytes(old(self)@.rows),
    {
        proof {
            lemma_rehighlighted(
                self@.rows,
                self@.syntax,
                y as nat,
                start_state(self@.rows, y as nat),
                ignore_following_rows,
            );
        }
        update_rows(&mut self.rows, &self.syntax, self.config.tab_stop, y, ignore_following_rows);
        assert(self.rows@.len() == row_views(self.rows@).len());
    }

    /// Update all the rows.
    pub fn update_all_rows(&mut self)
        requires
            old(self).wf(),
        ensures
            final(self).wf(),
            final(self)@ == old(self)@.all_rows_updated(),
    {
        proof {
            lemma_all_rehighlighted(self@.rows, self@.syntax, 0, HlState::Normal);
        }
        update_all(&mut self.rows, &self.syntax, self.config.tab_stop);
    }

    /// Update the `screen_cols` and `ln_padding` attributes based on the maximum number of digits
    /// for line numbers (since the left padding depends on this number of digits).
    pub fn update_screen_cols(&mut self)
        requires
            old(self).rows@.len() + 32 <= usize::MAX,
        ensures
            final(self)@ == old(self)@.screen_cols_updated(),
            final(self).rows == old(self).rows,
    {
        // The maximum number of digits to use for the line number is the number of digits of the
        // last line number. This is equal to the number of times we can divide this number by
        // ten.
        let n = self.rows.len();
        let mut rest: usize = n;
        let mut n_digits: usize = 1;
        while rest >= 10
            invariant
                n + 32 <= usize::MAX,
                n_digits + rest <= n + 1,
                decimal(n as nat).len() == n_digits - 1 + decimal(rest as nat).len(),
            decreases rest,
        {
            rest = rest / 10;
            n_digits = n_digits + 1;
        }
        let show_line_num = self.config.show_line_num && n_digits + 2 < self.window_width / 4;
        self.ln_pad = if show_line_num { n_digits + 2 } else { 0 };
        self.screen_cols = self.window_width.saturating_sub(self.ln_pad);
    }

    /// Return whether the file being edited is empty or not. If there is more than one row, even
    /// if all the rows are empty, `is_empty` returns `false`, since the text contains new lines.
    pub fn is_empty(&self) -> (r: bool)
        ensures
            r == self@.is_empty(),
    {
        self.rows.len() <= 1 && self.n_bytes == 0
    }

    /// Insert a byte at the current cursor position. If there is no row at the current cursor
    /// position, add a new row and insert the byte.
    pub fn insert_byte(&mut self, c: u8)
        requires
            old(self).wf(),
            old(self)@.insert_byte_ok(),
        ensures
            final(self).wf(),
            exists|row_id: Seq<char>, id: Seq<char>|
                is_new_id(row_id) && is_new_id(id) && final(self)@ == #[trigger] old(
                    self,
                )@.byte_inserted(c, row_id, id),
    {
        let ghost s0 = self@;
        let ghost y = self.cursor.y as int;
        let ghost x = self.cursor.x as int;
        proof {
            if y < s0.rows.len() {
                lemma_countable(s0, 1, 0);
            } else {
                lemma_countable(s0, 1, 1);
            }
        }
        let ch = UuidChar::new(c, None);
        let ghost id = ch@.id;
        let ghost mut row_id: Seq<char> = id;
        if self.cursor.y < self.rows.len() {
            let ghost row = self.rows@[y];
            self.rows[self.cursor.y].chars.insert(self.cursor.x, ch);
            proof {
                let new = s0.rows[y].with_chars(s0.rows[y].chars.insert(x, ch@));
                assert(char_views(row.chars@.insert(x, ch)) =~= char_views(row.chars@).insert(x, ch@));
                assert(self.rows@[y]@ == new);
                assert(row_views(self.rows@) =~= s0.rows.update(y, new));
                lemma_total_update(s0.rows, y, new);
                assert(self@ == s0.with_rows(s0.rows.update(y, new)));
            }
        } else {
            let mut chars: Vec<UuidChar> = Vec::new();
            chars.push(ch);
            let row = Row::new(chars, None, self.config.tab_stop);
            proof {
                row_id = row@.uuid;
                assert(row@.chars =~= seq![ch@]);
                lemma_total_push(s0.rows, row@);
            }
            self.rows.push(row);
            assert(row_views(self.rows@) =~= s0.rows.push(row@));
            assert(self@ == s0.with_rows(s0.rows.push(row@)));
            // The number of rows has changed. The left padding may need to be updated.
            self.update_screen_cols();
        }
        self.update_row(self.cursor.y, false);
        self.cursor.x = self.cursor.x + 1;
        self.n_bytes = self.n_bytes + 1;
        self.dirty = true;
        assert(self@ == s0.byte_inserted(c, row_id, id));
    }

    /// Insert a row at the given position and update it.
    fn insert_row(&mut self, position: usize, row: Row)
        requires
            position <= old(self).rows@.len(),
            laid_out(old(self).rows@, old(self)@.tab()),
            fits(total_bytes(old(self)@.rows) + row@.chars.len(), old(self)@.tab()),
        ensures
            final(self)@ == old(self)@.with_rows(
                old(self)@.rows.insert(position as int, row@),
            ).row_updated(position as nat, false),
            laid_out(final(self).rows@, old(self)@.tab()),
            final(self).rows@.len() == old(self).rows@.len() + 1,
            total_bytes(final(self)@.rows) == total_bytes(old(self)@.rows) + row@.chars.len(),
    {
        let ghost s0 = self@;
        let ghost before = self.rows@;
        self.rows.insert(position, row);
        proof {
            assert(row_views(self.rows@) =~= s0.rows.insert(position as int, row@));
            lemma_total_insert(s0.rows, position as int, row@);
            assert(self@ == s0.with_rows(s0.rows.insert(position as int, row@)));
            assert forall|i: int|
                0 <= i < self.rows@.len() && i != position implies (#[trigger] self.rows@[i]).laid_out(
                s0.tab(),
            ) by {
                if i < position {
                    assert(self.rows@[i] == before[i]);
                } else {
                    assert(self.rows@[i] == before[i - 1]);
                }
            }
        }
        self.update_row(position, false);
    }

    /// Cut the current row at the cursor, and return what was behind the cursor.
    fn split_row(&mut self) -> (r: Vec<UuidChar>)
        requires
            old(self).wf(),
            old(self).cursor.y < old(self).rows@.len(),
            old(self).cursor.x <= old(self)@.row_len(),
        ensures
            ({
                let s = old(self)@;
                let row = s.rows[s.cursor.y as int];
                let x = s.cursor.x as int;
                &&& char_views(r@) == row.chars.skip(x)
                &&& final(self)@ == s.with_rows(
                    s.rows.update(s.cursor.y as int, row.with_chars(row.chars.take(x))),
                ).row_updated(s.cursor.y as nat, false)
                &&& total_bytes(final(self)@.rows) + r@.len() == total_bytes(s.rows)
            }),
            laid_out(final(self).rows@, old(self)@.tab()),
            final(self).rows@.len() == old(self).rows@.len(),
    {
        let ghost s0 = self@;
        let ghost y = self.cursor.y as int;
        let ghost x = self.cursor.x as int;
        let ghost row = self.rows@[y];
        proof {
            lemma_countable(s0, 0, 0);
        }
        let tail = self.rows[self.cursor.y].chars.split_off(self.cursor.x);
        proof {
            let new = s0.rows[y].with_chars(s0.rows[y].chars.take(x));
            assert(char_views(self.rows@[y].chars@) =~= char_views(row.chars@).take(x));
            assert(char_views(tail@) =~= char_views(row.chars@).skip(x));
            assert(self.rows@[y]@ == new);
            assert(row_views(self.rows@) =~= s0.rows.update(y, new));
            lemma_total_update(s0.rows, y, new);
            assert(self@ == s0.with_rows(s0.rows.update(y, new)));
        }
        self.update_row(self.cursor.y, false);
        tail
    }

    /// Insert a new line at the current cursor position and move the cursor to the start of the
    /// new line. If the cursor is in the middle of a row, split off that row.
    pub fn insert_new_line(&mut self)
        requires
            old(self).wf(),
            old(self)@.insert_new_line_ok(),
        ensures
            final(self).wf(),
            exists|row_id: Seq<char>|
                is_new_id(row_id) && final(self)@ == #[trigger] old(self)@.new_line_inserted(
                    row_id,
                ),
    {
        let ghost s0 = self@;
        proof {
            lemma_countable(s0, 0, 1);
        }
        let position: usize;
        let new_row_chars: Vec<UuidChar>;
        if self.cursor.x == 0 {
            position = self.cursor.y;
            new_row_chars = Vec::new();
            assert(char_views(new_row_chars@) =~= Seq::<CharView>::empty());
        } else {
            // self.rows[self.cursor.y] must exist, since cursor.x = 0 for any cursor.y >= row.len()
            new_row_chars = self.split_row();
            position = self.cursor.y + 1;
        }
        let row = Row::new(new_row_chars, None, self.config.tab_stop);
        let ghost row_id = row@.uuid;
        self.insert_row(position, row);
        self.update_screen_cols();
        self.cursor.move_to_next_line();
        self.dirty = true;
        assert(self@ == s0.new_line_inserted(row_id));
    }
}

/// Removes `n` elements from position `from` on.
fn remove_range(chars: &mut Vec<UuidChar>, from: usize, n: usize)
    requires
        from + n <= old(chars)@.len(),
    ensures
        final(chars)@ == old(chars)@.take(from as int) + old(chars)@.skip(from + n),
{
    let mut k: usize = 0;
    assert(chars@ == old(chars)@.take(from as int) + old(chars)@.skip(from as int));
    while k < n
        invariant
            k <= n,
            from + n <= old(chars)@.len(),
            chars@ == old(chars)@.take(from as int) + old(chars)@.skip(from + k),
        decreases n - k,
    {
        chars.remove(from);
        k = k + 1;
        assert(chars@ =~= old(chars)@.take(from as int) + old(chars)@.skip(from + k));
    }
}

impl Editor {
    /// Delete the character before the cursor.
    fn delete_char_before(&mut self)
        requires
            old(self).wf(),
            0 < old(self).cursor.x,
            old(self).cursor.y < old(self).rows@.len(),
        ensures
            final(self).wf(),
            final(self)@ == old(self)@.char_before_deleted(),
    {
        let ghost s0 = self@;
        let ghost y = self.cursor.y as int;
        let ghost x = self.cursor.x as int;
        let ghost tab = s0.tab();
        let ghost bytes = self.rows@[y]@.bytes();
        proof {
            lemma_countable(s0, 0, 0);
            self.lemma_row(self.cursor.y as int);
        }
        let len = self.rows[self.cursor.y].cx2rx.len();
        if self.cursor.x >= len || self.rows[self.cursor.y].cx2rx[self.cursor.x] == 0 {
            self.cursor.x = 0;
            return;
        }
        proof {
            lemma_char_before(bytes, tab, x as nat);
        }
        let col = self.rows[self.cursor.y].cx2rx[self.cursor.x];
        let n = self.rows[self.cursor.y].get_char_size(col - 1);
        assert(n == char_size(bytes, tab, (col - 1) as nat));
        remove_range(&mut self.rows[self.cursor.y].chars, self.cursor.x - n, n);
        proof {
            let old_row = s0.rows[y];
            let new = old_row.with_chars(old_row.chars.take(x - n) + old_row.chars.skip(x));
            assert(char_views(self.rows@[y].chars@) =~= new.chars);
            assert(self.rows@[y]@ == new);
            assert(row_views(self.rows@) =~= s0.rows.update(y, new));
            lemma_total_update(s0.rows, y, new);
            assert(self@ == s0.with_rows(s0.rows.update(y, new)));
        }
        self.update_row(self.cursor.y, false);
        self.cursor.x = self.cursor.x - n;
        self.dirty = true;
        self.n_bytes = self.n_bytes - n as u64;
        assert(self@ == s0.char_before_deleted());
    }

    /// Append the current row to the previous one.
    fn merge_row(&mut self)
        requires
            old(self).wf(),
            0 < old(self).cursor.y < old(self).rows@.len(),
        ensures
            final(self).wf(),
            final(self)@ == old(self)@.row_merged(),
    {
        let ghost s0 = self@;
        let ghost y = self.cursor.y as int;
        let ghost tab = s0.tab();
        proof {
            lemma_countable(s0, 0, 0);
        }
        let row = self.rows.remove(self.cursor.y);
        let ghost rows1 = self.rows@;
        let ghost removed = s0.rows.remove(y);
        let ghost previous = s0.rows[y - 1];
        let ghost merged = previous.with_chars(previous.chars + s0.rows[y].chars);
        assert(row_views(rows1) =~= removed);
        let mut chars = row.chars;
        self.cursor.x = self.rows[self.cursor.y - 1].chars.len();
        self.rows[self.cursor.y - 1].chars.append(&mut chars);
        proof {
            assert(char_views(self.rows@[y - 1].chars@) =~= merged.chars);
            assert(self.rows@[y - 1]@ == merged);
            assert(row_views(self.rows@) =~= removed.update(y - 1, merged));
            lemma_total_remove(s0.rows, y);
            lemma_total_update(removed, y - 1, merged);
            assert forall|i: int|
                0 <= i < self.rows@.len() && i != y - 1 implies (#[trigger] self.rows@[i]).laid_out(
                tab,
            ) by {
                assert(self.rows@[i] == rows1[i]);
                if i < y {
                    assert(rows1[i] == old(self).rows@[i]);
                } else {
                    assert(rows1[i] == old(self).rows@[i + 1]);
                }
            }
        }
        self.update_row(self.cursor.y - 1, true);
        self.update_row(self.cursor.y, false);
        // The number of rows has changed. The left padding may need to be updated.
        self.update_screen_cols();
        self.dirty = true;
        self.cursor.y = self.cursor.y - 1;
        assert(self@ == s0.row_merged());
    }

    /// Delete a character at the current cursor position. If the cursor is located at the
    /// beginning of a row that is not the first one, merge the current row and the previous row.
    /// If the cursor is located after the last row, move up to the last character of the previous
    /// row.
    pub fn delete_char(&mut self)
        requires
            old(self).wf(),
            old(self)@.delete_ok(),
        ensures
            final(self).wf(),
            final(self)@ == old(self)@.char_deleted(),
    {
        if self.cursor.x > 0 {
            self.delete_char_before();
        } else if self.cursor.y < self.rows.len() && self.cursor.y > 0 {
            self.merge_row();
        } else if self.cursor.y == self.rows.len() {
            // If the cursor is located after the last row, pressing backspace is equivalent to
            // pressing the left arrow key.
            self.move_cursor(&AKey::Left);
        }
    }

    /// Delete the current row. The last row is not removed but emptied.
    pub fn delete_current_row(&mut self)
        requires
            old(self).wf(),
        ensures
            final(self).wf(),
            final(self)@ == old(self)@.current_row_deleted(),
    {
        let ghost s0 = self@;
        let ghost y = self.cursor.y as int;
        proof {
            lemma_countable(s0, 0, 0);
        }
        if self.cursor.y < self.rows.len() {
            let n = self.rows[self.cursor.y].chars.len();
            self.rows[self.cursor.y].chars.clear();
            proof {
                let new = s0.rows[y].with_chars(Seq::empty());
                assert(char_views(self.rows@[y].chars@) =~= Seq::<CharView>::empty());
                assert(self.rows@[y]@ == new);
                assert(row_views(self.rows@) =~= s0.rows.update(y, new));
                lemma_total_update(s0.rows, y, new);
                assert(self@ == s0.with_rows(s0.rows.update(y, new)));
            }
            self.update_row(self.cursor.y, false);
            self.n_bytes = self.n_bytes - n as u64;
            if n > 0 {
                self.dirty = true;
            }
            assert(self@ == s0.row_cleared());
            self.cursor.move_to_next_line();
            self.delete_char();
        }
    }

    /// Insert a copy of the current row behind it.
    pub fn duplicate_current_row(&mut self)
        requires
            old(self).wf(),
            old(self)@.duplicate_ok(),
        ensures
            final(self).wf(),
            match old(self)@.current_row() {
                Some(row) => exists|row_id: Seq<char>, chars: Seq<CharView>|
                    is_new_id(row_id) && have_new_ids(chars) && bytes_of(chars) == row.bytes()
                        && final(self)@ == #[trigger] old(self)@.row_duplicated(row_id, chars),
                None => final(self)@ == old(self)@,
            },
    {
        let ghost s0 = self@;
        let ghost y = self.cursor.y as int;
        if self.cursor.y < self.rows.len() {
            proof {
                lemma_countable(s0, s0.row_len(), 1);
            }
            let bytes = crate::row::collect_bytes(&self.rows[self.cursor.y].chars);
            let n = bytes.len();
            let new = Row::new_from_new_chars(bytes, None, self.config.tab_stop);
            let ghost row_id = new@.uuid;
            let ghost chars = new@.chars;
            assert(chars.len() == bytes_of(chars).len());
            assert(bytes_of(chars).len() == s0.rows[y].bytes().len());
            self.n_bytes = self.n_bytes + n as u64;
            self.insert_row(self.cursor.y + 1, new);
            self.cursor.y = self.cursor.y + 1;
            self.dirty = true;
            // The line number has changed
            self.update_screen_cols();
            assert(self@ == s0.row_duplicated(row_id, chars));
        }
    }
}

} // verus!
