//! What editing does to the contents of the text, and what holds of all keys.
use vstd::prelude::*;

use crate::command::is_command;
use crate::cursor::CursorState;
use crate::execute::Ids;
use crate::file::{joined, row_bytes, LINE_FEED};
use crate::keys::{AKey, Key, PageKey, BACKSPACE, DELETE_BIS, DUPLICATE, EXIT, REMOVE_LINE};
use crate::motion::lemma_glyph_sizes;
use crate::row::{
    bytes_of, char_size, cx2rx, lemma_ascii_before, lemma_ascii_row, lemma_char_before, new_row,
    width, CharView,
};
use crate::rows::{
    lemma_fits, lemma_rehighlighted, lemma_row_fits, lemma_total_insert, lemma_total_push,
    lemma_total_update, same_text, start_state,
};
use crate::state::{total_bytes, EditorView};

verus! {

impl EditorView {
    /// The lines of the text.
    pub open spec fn text(self) -> Seq<Seq<u8>> {
        row_bytes(self.rows)
    }

    /// The characters of each row, with their identifiers.
    pub open spec fn chars(self) -> Seq<Seq<CharView>> {
        Seq::new(self.rows.len(), |i: int| self.rows[i].chars)
    }

    /// The bytes of the text, as they are written to a file.
    pub open spec fn contents(self) -> Seq<u8> {
        joined(self.text())
    }

    /// Where the cursor stands in the contents.
    pub open spec fn offset(self) -> int {
        text_before(self.text(), self.cursor.y as int).len() + self.cursor.x
    }

    /// The cursor points to a place within a row.
    pub open spec fn in_row(self) -> bool {
        &&& self.cursor.y < self.rows.len()
        &&& self.cursor.x <= self.row_len()
    }
}

/// What stands before line `y`.
pub open spec fn text_before(l: Seq<Seq<u8>>, y: int) -> Seq<u8> {
    if y <= 0 {
        Seq::empty()
    } else {
        joined(l.take(y)).push(LINE_FEED)
    }
}

/// What stands behind line `y`.
pub open spec fn text_behind(l: Seq<Seq<u8>>, y: int) -> Seq<u8> {
    if y + 1 >= l.len() {
        Seq::empty()
    } else {
        seq![LINE_FEED] + joined(l.skip(y + 1))
    }
}

proof fn lemma_joined_concat(a: Seq<Seq<u8>>, b: Seq<Seq<u8>>)
    requires
        a.len() > 0,
        b.len() > 0,
    ensures
        joined(a + b) == joined(a).push(LINE_FEED) + joined(b),
    decreases b.len(),
{
    assert((a + b).drop_last() == a + b.drop_last());
    assert((a + b).last() == b.last());
    if b.len() == 1 {
        assert(a + b.drop_last() == a);
    } else {
        lemma_joined_concat(a, b.drop_last());
        assert((joined(a).push(LINE_FEED) + joined(b.drop_last())).push(LINE_FEED) + b.last()
            == joined(a).push(LINE_FEED) + (joined(b.drop_last()).push(LINE_FEED) + b.last()));
    }
}

/// The contents are what stands before a line, the line, and what stands behind it.
proof fn lemma_joined_at(l: Seq<Seq<u8>>, y: int)
    requires
        0 <= y < l.len(),
    ensures
        joined(l) == text_before(l, y) + l[y] + text_behind(l, y),
{
    let line = seq![l[y]];
    let rest = l.skip(y + 1);
    let tail = line + rest;
    assert(l.skip(y) =~= tail);
    if rest.len() > 0 {
        lemma_joined_concat(line, rest);
        assert(joined(tail) == l[y] + text_behind(l, y));
    } else {
        assert(tail =~= line);
        assert(joined(tail) == l[y] + text_behind(l, y));
    }
    if y > 0 {
        assert(l =~= l.take(y) + tail);
        lemma_joined_concat(l.take(y), tail);
        assert(joined(l) == text_before(l, y) + l[y] + text_behind(l, y));
    } else {
        assert(l =~= tail);
        assert(joined(l) == text_before(l, y) + l[y] + text_behind(l, y));
    }
}

/// One line was replaced.
proof fn lemma_line_replaced(l: Seq<Seq<u8>>, y: int, line: Seq<u8>)
    requires
        0 <= y < l.len(),
    ensures
        joined(l.update(y, line)) == text_before(l, y) + line + text_behind(l, y),
{
    let new = l.update(y, line);
    lemma_joined_at(new, y);
    assert(new.take(y) =~= l.take(y));
    assert(new.skip(y + 1) =~= l.skip(y + 1));
}

/// One line was replaced by two.
proof fn lemma_line_split(l: Seq<Seq<u8>>, y: int, a: Seq<u8>, b: Seq<u8>)
    requires
        0 <= y < l.len(),
    ensures
        joined(l.update(y, a).insert(y + 1, b)) == text_before(l, y) + a.push(LINE_FEED) + b
            + text_behind(l, y),
{
    let new = l.update(y, a).insert(y + 1, b);
    lemma_joined_at(new, y);
    assert(new.take(y) =~= l.take(y));
    let tail = new.skip(y + 1);
    assert(tail[0] == b);
    lemma_joined_at(tail, 0);
    assert(tail.skip(1) =~= l.skip(y + 1));
    assert(joined(new) =~= text_before(l, y) + a.push(LINE_FEED) + b + text_behind(l, y));
}

/// Updating the highlight states of rows changes nothing else.
proof fn lemma_row_updated(s: EditorView, y: nat, once: bool)
    ensures
        ({
            let t = s.row_updated(y, once);
            &&& t == s.with_rows(t.rows)
            &&& same_text(t.rows, s.rows)
            &&& t.text() == s.text()
            &&& t.chars() == s.chars()
            &&& total_bytes(t.rows) == total_bytes(s.rows)
        }),
{
    lemma_rehighlighted(s.rows, s.syntax, y, start_state(s.rows, y), once);
    let t = s.row_updated(y, once);
    assert forall|i: int| 0 <= i < s.rows.len() implies row_bytes(t.rows)[i] == row_bytes(
        s.rows,
    )[i] by {
        assert(t.rows[i] == s.rows[i].with_state(t.rows[i].hl_state));
    }
    assert(row_bytes(t.rows) =~= row_bytes(s.rows));
    assert forall|i: int| 0 <= i < s.rows.len() implies t.chars()[i] == s.chars()[i] by {
        assert(t.rows[i] == s.rows[i].with_state(t.rows[i].hl_state));
    }
    assert(t.chars() =~= s.chars());
}

proof fn lemma_inserted_bytes(chars: Seq<CharView>, x: int, c: CharView)
    requires
        0 <= x <= chars.len(),
    ensures
        bytes_of(chars.insert(x, c)) == bytes_of(chars).insert(x, c.byte),
{
    assert(bytes_of(chars.insert(x, c)) =~= bytes_of(chars).insert(x, c.byte));
}

/// Inserting a byte inserts it into the line of the cursor, which goes behind it.
pub proof fn law_byte_inserted(s: EditorView, c: u8, row_id: Seq<char>, id: Seq<char>)
    requires
        s.in_row(),
        s.cursor.x < usize::MAX,
    ensures
        ({
            let t = s.byte_inserted(c, row_id, id);
            let y = s.cursor.y as int;
            let x = s.cursor.x as int;
            &&& t.text() == s.text().update(y, s.text()[y].insert(x, c))
            &&& t.chars() == s.chars().update(
                y,
                s.chars()[y].insert(x, CharView { byte: c, id }),
            )
            &&& t.cursor == (CursorState { x: (x + 1) as usize, ..s.cursor })
            &&& t.contents() == s.contents().insert(s.offset(), c)
            &&& t.offset() == s.offset() + 1
            &&& t.dirty
        }),
{
    let y = s.cursor.y as int;
    let x = s.cursor.x as int;
    let ch = CharView { byte: c, id };
    let row = s.rows[y];
    let new = row.with_chars(row.chars.insert(x, ch));
    let s1 = s.with_rows(s.rows.update(y, new));
    let t = s.byte_inserted(c, row_id, id);
    lemma_row_updated(s1, y as nat, false);
    lemma_inserted_bytes(row.chars, x, ch);
    let l = s.text();
    assert(s1.text() =~= l.update(y, l[y].insert(x, c)));
    assert(s1.chars() =~= s.chars().update(y, s.chars()[y].insert(x, ch)));
    lemma_joined_at(l, y);
    lemma_line_replaced(l, y, l[y].insert(x, c));
    assert(t.contents() =~= s.contents().insert(s.offset(), c));
    assert(t.text().take(y) =~= l.take(y));
}

/// Inserting a new line splits the line of the cursor: a line feed is inserted into the contents.
pub proof fn law_new_line_inserted(s: EditorView, row_id: Seq<char>)
    requires
        s.in_row(),
        s.cursor.y < usize::MAX,
    ensures
        ({
            let t = s.new_line_inserted(row_id);
            let y = s.cursor.y as int;
            let x = s.cursor.x as int;
            &&& t.text() == s.text().update(y, s.text()[y].take(x)).insert(
                y + 1,
                s.text()[y].skip(x),
            )
            &&& t.chars() == s.chars().update(y, s.chars()[y].take(x)).insert(
                y + 1,
                s.chars()[y].skip(x),
            )
            &&& t.cursor == (CursorState { x: 0, y: (y + 1) as usize, ..s.cursor })
            &&& t.contents() == s.contents().insert(s.offset(), LINE_FEED)
            &&& t.offset() == s.offset() + 1
            &&& t.dirty
        }),
{
    let y = s.cursor.y as int;
    let x = s.cursor.x as int;
    let row = s.rows[y];
    let l = s.text();
    let t = s.new_line_inserted(row_id);
    let expected = l.update(y, l[y].take(x)).insert(y + 1, l[y].skip(x));
    let k = s.chars();
    let expected_chars = k.update(y, k[y].take(x)).insert(y + 1, k[y].skip(x));
    if x == 0 {
        let s1 = s.with_rows(s.rows.insert(y, new_row(row_id, Seq::empty())));
        lemma_row_updated(s1, y as nat, false);
        assert(bytes_of(Seq::<CharView>::empty()) =~= Seq::<u8>::empty());
        assert(l[y].take(0) =~= Seq::<u8>::empty());
        assert(l[y].skip(0) =~= l[y]);
        assert(s1.text() =~= expected);
        assert(k[y].take(0) =~= Seq::<CharView>::empty());
        assert(k[y].skip(0) =~= k[y]);
        assert(s1.chars() =~= expected_chars);
        assert(t.rows == s1.row_updated(y as nat, false).rows);
    } else {
        let cut = s.with_rows(s.rows.update(y, row.with_chars(row.chars.take(x))));
        lemma_row_updated(cut, y as nat, false);
        let s0 = cut.row_updated(y as nat, false);
        let s1 = s0.with_rows(s0.rows.insert(y + 1, new_row(row_id, row.chars.skip(x))));
        lemma_row_updated(s1, (y + 1) as nat, false);
        assert(bytes_of(row.chars.take(x)) =~= l[y].take(x));
        assert(bytes_of(row.chars.skip(x)) =~= l[y].skip(x));
        assert(cut.text() =~= l.update(y, l[y].take(x)));
        assert(s1.text() =~= s0.text().insert(y + 1, l[y].skip(x)));
        assert(cut.chars() =~= k.update(y, k[y].take(x)));
        assert(s1.chars() =~= s0.chars().insert(y + 1, k[y].skip(x)));
        assert(t.rows == s1.row_updated((y + 1) as nat, false).rows);
    }
    assert(t.text() == expected);
    assert(t.chars() == expected_chars);
    lemma_joined_at(l, y);
    lemma_line_split(l, y, l[y].take(x), l[y].skip(x));
    assert(t.contents() =~= s.contents().insert(s.offset(), LINE_FEED));
    assert(t.text().take(y + 1) =~= l.take(y).push(l[y].take(x)));
    lemma_joined_at(t.text().take(y + 1), y);
    assert(t.text().take(y + 1).take(y) =~= l.take(y));
    assert(text_before(t.text(), y + 1) =~= text_before(l, y) + l[y].take(x).push(LINE_FEED));
}

/// Behind the last row, a byte or a new line is inserted into a new row.
pub proof fn law_inserted_behind_the_text(
    s: EditorView,
    c: u8,
    row_id: Seq<char>,
    id: Seq<char>,
)
    requires
        s.cursor.y == s.rows.len(),
        s.cursor.x == 0,
    ensures
        s.byte_inserted(c, row_id, id).text() == s.text().push(seq![c]),
        s.byte_inserted(c, row_id, id).cursor == (CursorState { x: 1, ..s.cursor }),
        s.new_line_inserted(row_id).text() == s.text().push(Seq::empty()),
        s.new_line_inserted(row_id).cursor == s.cursor.next_line(),
{
    let y = s.cursor.y as int;
    let row = new_row(row_id, seq![CharView { byte: c, id }]);
    let s1 = s.with_rows(s.rows.push(row)).screen_cols_updated();
    lemma_row_updated(s1, y as nat, false);
    assert(bytes_of(row.chars) =~= seq![c]);
    assert(s1.text() =~= s.text().push(seq![c]));
    let empty = new_row(row_id, Seq::empty());
    let s2 = s.with_rows(s.rows.insert(y, empty));
    lemma_row_updated(s2, y as nat, false);
    assert(bytes_of(Seq::<CharView>::empty()) =~= Seq::<u8>::empty());
    assert(s2.text() =~= s.text().push(Seq::empty()));
}

/// Deleting within a row removes the character before the cursor from the contents.
pub proof fn law_char_before_deleted(s: EditorView)
    requires
        s.in_row(),
        s.cursor.x > 0,
        cx2rx(s.text()[s.cursor.y as int], s.tab())[s.cursor.x as int] > 0,
    ensures
        ({
            let t = s.char_deleted();
            let y = s.cursor.y as int;
            let x = s.cursor.x as int;
            let line = s.text()[y];
            let n = char_size(line, s.tab(), (cx2rx(line, s.tab())[x] - 1) as nat);
            &&& 1 <= n <= x
            &&& t.text() == s.text().update(y, line.take(x - n) + line.skip(x))
            &&& t.chars() == s.chars().update(
                y,
                s.chars()[y].take(x - n) + s.chars()[y].skip(x),
            )
            &&& t.cursor == (CursorState { x: (x - n) as usize, ..s.cursor })
            &&& t.contents() == s.contents().take(s.offset() - n) + s.contents().skip(s.offset())
            &&& t.offset() == s.offset() - n
            &&& t.dirty
        }),
{
    let y = s.cursor.y as int;
    let x = s.cursor.x as int;
    let row = s.rows[y];
    let l = s.text();
    let line = l[y];
    let t = s.char_deleted();
    let n = char_size(line, s.tab(), (cx2rx(line, s.tab())[x] - 1) as nat);
    lemma_char_before(line, s.tab(), x as nat);
    let rest = row.chars.take(x - n) + row.chars.skip(x);
    let s1 = s.with_rows(s.rows.update(y, row.with_chars(rest)));
    lemma_row_updated(s1, y as nat, false);
    let new = line.take(x - n) + line.skip(x);
    assert(bytes_of(rest) =~= new);
    assert(s1.text() =~= l.update(y, new));
    assert(s1.chars() =~= s.chars().update(y, rest));
    lemma_joined_at(l, y);
    lemma_line_replaced(l, y, new);
    assert(t.contents() =~= s.contents().take(s.offset() - n) + s.contents().skip(s.offset()));
    assert(t.text().take(y) =~= l.take(y));
}

/// Deleting at the beginning of a row that is not the first one removes the line feed before it.
#[verifier::rlimit(40)]
pub proof fn law_row_merged(s: EditorView)
    requires
        s.cursor.x == 0,
        0 < s.cursor.y < s.rows.len(),
        s.rows[s.cursor.y - 1].chars.len() <= usize::MAX,
    ensures
        ({
            let t = s.char_deleted();
            let y = s.cursor.y as int;
            &&& t.text() == s.text().remove(y).update(y - 1, s.text()[y - 1] + s.text()[y])
            &&& t.chars() == s.chars().remove(y).update(y - 1, s.chars()[y - 1] + s.chars()[y])
            &&& t.cursor == (CursorState {
                x: s.text()[y - 1].len() as usize,
                y: (y - 1) as usize,
                ..s.cursor
            })
            &&& t.contents() == s.contents().remove(s.offset() - 1)
            &&& t.offset() == s.offset() - 1
            &&& t.dirty
        }),
{
    let y = s.cursor.y as int;
    let l = s.text();
    let t = s.char_deleted();
    let previous = s.rows[y - 1];
    let merged = previous.with_chars(previous.chars + s.rows[y].chars);
    let s1 = s.with_rows(s.rows.remove(y).update(y - 1, merged));
    let s2 = s1.row_updated((y - 1) as nat, true);
    lemma_row_updated(s1, (y - 1) as nat, true);
    lemma_row_updated(s2, y as nat, false);
    let line = l[y - 1] + l[y];
    let r = l.remove(y);
    assert(bytes_of(merged.chars) =~= line);
    assert(s1.text() =~= r.update(y - 1, line));
    assert(s1.chars() =~= s.chars().remove(y).update(y - 1, s.chars()[y - 1] + s.chars()[y]));
    assert(t.rows == s2.row_updated(y as nat, false).rows);
    assert(t.text() == r.update(y - 1, line));
    lemma_joined_at(l, y);
    lemma_joined_at(l.take(y), y - 1);
    assert(l.take(y).take(y - 1) =~= l.take(y - 1));
    lemma_line_replaced(r, y - 1, line);
    assert(r.take(y - 1) =~= l.take(y - 1));
    assert(r.skip(y) =~= l.skip(y + 1));
    let before = text_before(l, y - 1);
    let behind = text_behind(l, y);
    assert(text_behind(r, y - 1) == behind);
    assert(s.contents() =~= before + l[y - 1] + seq![LINE_FEED] + l[y] + behind);
    assert(t.contents() =~= s.contents().remove(s.offset() - 1));
    assert(t.text().take(y - 1) =~= l.take(y - 1));
}

/// Where there is nothing to delete before the cursor, the text stays as it is.
pub proof fn law_nothing_deleted(s: EditorView)
    requires
        s.cursor.x == 0,
        s.cursor.y == 0 || s.cursor.y >= s.rows.len(),
    ensures
        s.char_deleted().rows == s.rows,
        s.char_deleted().dirty == s.dirty,
{
}

/// Backspace takes back an ASCII character that was typed: the characters with their identifiers,
/// the cursor and the number of bytes are what they were. The text counts as modified.
pub proof fn law_backspace_undoes_typing(s: EditorView, c: u8, row_id: Seq<char>, id: Seq<char>)
    requires
        s.in_row(),
        s.row_len() < usize::MAX,
        s.n_bytes < u64::MAX,
        c < 0x80,
    ensures
        ({
            let t = s.byte_inserted(c, row_id, id).char_deleted();
            &&& t.text() == s.text()
            &&& t.chars() == s.chars()
            &&& t.cursor == s.cursor
            &&& t.n_bytes == s.n_bytes
            &&& t.dirty
        }),
{
    let t = s.byte_inserted(c, row_id, id);
    let y = s.cursor.y as int;
    let x = s.cursor.x as int;
    law_byte_inserted(s, c, row_id, id);
    assert(t.rows.len() == t.text().len());
    let line = t.text()[y];
    assert(line == s.text()[y].insert(x, c));
    assert(line.len() == t.rows[y].chars.len());
    lemma_ascii_before(line, s.tab(), x as nat);
    let s1 = s.with_rows(
        s.rows.update(
            y,
            s.rows[y].with_chars(s.rows[y].chars.insert(x, CharView { byte: c, id })),
        ),
    );
    lemma_row_updated(s1, y as nat, false);
    assert(t.tab() == s.tab());
    law_char_before_deleted(t);
    assert(line.take(x) + line.skip(x + 1) =~= s.text()[y]);
    assert(t.char_deleted().text() =~= s.text());
    assert(t.chars()[y].take(x) + t.chars()[y].skip(x + 1) =~= s.chars()[y]);
    assert(t.char_deleted().chars() =~= s.chars());
}

/// Backspace takes back a new line: the characters with their identifiers, the cursor and the
/// number of bytes are what they were. The text counts as modified.
#[verifier::rlimit(40)]
pub proof fn law_backspace_undoes_enter(s: EditorView, row_id: Seq<char>)
    requires
        s.in_row(),
        s.rows.len() < usize::MAX,
        s.row_len() <= usize::MAX,
    ensures
        ({
            let t = s.new_line_inserted(row_id).char_deleted();
            &&& t.text() == s.text()
            &&& t.chars() == s.chars()
            &&& t.cursor == s.cursor
            &&& t.n_bytes == s.n_bytes
            &&& t.dirty
        }),
{
    let t = s.new_line_inserted(row_id);
    let y = s.cursor.y as int;
    let x = s.cursor.x as int;
    law_new_line_inserted(s, row_id);
    assert(t.rows.len() == t.text().len());
    assert(t.text()[y] == s.text()[y].take(x));
    assert(t.rows[y].chars.len() == t.text()[y].len());
    law_row_merged(t);
    assert(s.text()[y].take(x) + s.text()[y].skip(x) =~= s.text()[y]);
    assert(t.char_deleted().text() =~= s.text());
    assert(s.chars()[y].take(x) + s.chars()[y].skip(x) =~= s.chars()[y]);
    assert(t.char_deleted().chars() =~= s.chars());
}

/// Deleting the current row removes its line; the last line is emptied.
pub proof fn law_row_deleted(s: EditorView)
    requires
        s.cursor.y < s.rows.len() <= usize::MAX,
    ensures
        ({
            let t = s.current_row_deleted();
            let y = s.cursor.y as int;
            &&& t.text() == if y + 1 < s.rows.len() {
                s.text().remove(y)
            } else {
                s.text().update(y, Seq::empty())
            }
            &&& t.chars() == if y + 1 < s.rows.len() {
                s.chars().remove(y)
            } else {
                s.chars().update(y, Seq::empty())
            }
            &&& t.cursor == (CursorState { x: 0, ..s.cursor })
            &&& t.dirty == (s.dirty || y + 1 < s.rows.len() || s.text()[y].len() > 0)
        }),
{
    let y = s.cursor.y as int;
    let l = s.text();
    let row = s.rows[y];
    let s1 = s.with_rows(s.rows.update(y, row.with_chars(Seq::empty())));
    lemma_row_updated(s1, y as nat, false);
    assert(bytes_of(Seq::<CharView>::empty()) =~= Seq::<u8>::empty());
    assert(s1.text() =~= l.update(y, Seq::empty()));
    let k = s.chars();
    assert(s1.chars() =~= k.update(y, Seq::empty()));
    let cleared = s.row_cleared();
    let s2 = cleared.with_cursor(s.cursor.next_line());
    assert(s2.text() == l.update(y, Seq::empty()));
    assert(s2.chars() == k.update(y, Seq::empty()));
    assert(s2.rows.len() == s2.text().len());
    assert(s2.rows[y].chars.len() == s2.text()[y].len());
    if y + 1 < s.rows.len() {
        law_row_merged(s2);
        assert(Seq::<u8>::empty() + l[y + 1] =~= l[y + 1]);
        assert(s2.char_deleted().text() =~= l.remove(y));
        assert(Seq::<CharView>::empty() + k[y + 1] =~= k[y + 1]);
        assert(s2.char_deleted().chars() =~= k.remove(y));
    } else {
        law_nothing_deleted(s2);
    }
    assert(l[y].len() == row.chars.len());
}

/// Duplicating the current row inserts its line once more behind it.
pub proof fn law_row_duplicated(s: EditorView, row_id: Seq<char>, copy: Seq<CharView>)
    requires
        s.cursor.y < s.rows.len() <= usize::MAX,
        s.copies_row(copy),
    ensures
        ({
            let t = s.row_duplicated(row_id, copy);
            let y = s.cursor.y as int;
            &&& t.text() == s.text().insert(y + 1, s.text()[y])
            &&& t.chars() == s.chars().insert(y + 1, copy)
            &&& t.cursor == (CursorState { y: (y + 1) as usize, ..s.cursor })
            &&& t.dirty
        }),
{
    let y = s.cursor.y as int;
    let s1 = s.with_rows(s.rows.insert(y + 1, new_row(row_id, copy)));
    lemma_row_updated(s1, (y + 1) as nat, false);
    assert(s1.text() =~= s.text().insert(y + 1, s.text()[y]));
    assert(s1.chars() =~= s.chars().insert(y + 1, copy));
}

/// The keys that move the cursor, and the commands, leave the text as it is.
pub proof fn law_moving_keeps_text(
    s: EditorView,
    key: Key,
    row_id: Seq<char>,
    id: Seq<char>,
    copy: Seq<CharView>,
)
    requires
        key matches Key::Char(c) ==> is_command(c),
        !(key is Delete),
    ensures
        ({
            let t = s.key_processed(key, row_id, id, copy).0;
            t.rows == s.rows && t.n_bytes == s.n_bytes && t.dirty == s.dirty
        }),
{
}

/// The lengths of the rows are those of the lines.
proof fn lemma_row_lens(s: EditorView)
    ensures
        s.rows.len() == s.text().len(),
        forall|i: int|
            0 <= i < s.rows.len() ==> (#[trigger] s.rows[i]).chars.len() == s.text()[i].len(),
        s.cursor.y < s.rows.len() ==> s.row_len() == s.text()[s.cursor.y as int].len(),
{
    assert forall|i: int| 0 <= i < s.rows.len() implies (#[trigger] s.rows[i]).chars.len()
        == s.text()[i].len() by {
        assert(s.text()[i] == s.rows[i].bytes());
    }
}

/// The lengths of the rows leave room to count a character more.
spec fn rows_countable(s: EditorView) -> bool {
    &&& s.rows.len() < usize::MAX - 4
    &&& forall|i: int|
        0 <= i < s.rows.len() ==> (#[trigger] s.rows[i]).chars.len() < usize::MAX - 4
}

proof fn lemma_moved_in_text(s: EditorView, key: AKey)
    requires
        s.cursor_ok(),
        rows_countable(s),
    ensures
        s.moved(key).cursor_ok(),
{
    if s.cursor.y < s.rows.len() {
        let bytes = s.rows[s.cursor.y as int].bytes();
        lemma_glyph_sizes(bytes, s.tab(), s.rx());
    }
    if s.cursor.y > 0 {
        assert(s.rows[s.cursor.y - 1].chars.len() < usize::MAX);
    }
}

proof fn lemma_deleted_in_text(s: EditorView)
    requires
        s.cursor_ok(),
        rows_countable(s),
    ensures
        s.char_deleted().cursor_ok(),
{
    let t = s.char_deleted();
    lemma_row_lens(s);
    lemma_row_lens(t);
    if s.cursor.x > 0 {
        if cx2rx(s.text()[s.cursor.y as int], s.tab())[s.cursor.x as int] > 0 {
            law_char_before_deleted(s);
        }
    } else if 0 < s.cursor.y < s.rows.len() {
        law_row_merged(s);
    } else if s.cursor.y == s.rows.len() {
        lemma_moved_in_text(s, AKey::Left);
    }
}

proof fn lemma_byte_in_text(
    s: EditorView,
    c: u8,
    row_id: Seq<char>,
    id: Seq<char>,
    copy: Seq<CharView>,
)
    requires
        s.cursor_ok(),
        rows_countable(s),
        s.copies_row(copy),
    ensures
        s.byte_edited(c, row_id, id, copy).cursor_ok(),
{
    let t = s.byte_edited(c, row_id, id, copy);
    let y = s.cursor.y as int;
    lemma_row_lens(s);
    lemma_row_lens(t);
    if c == 0x0d || c == 0x0a {
        if y < s.rows.len() {
            law_new_line_inserted(s, row_id);
        } else {
            let s1 = s.with_rows(s.rows.insert(y, new_row(row_id, Seq::empty())));
            lemma_row_updated(s1, y as nat, false);
        }
    } else if c == BACKSPACE || c == DELETE_BIS {
        lemma_deleted_in_text(s);
    } else if c == REMOVE_LINE {
        if y < s.rows.len() {
            law_row_deleted(s);
        }
    } else if c == DUPLICATE {
        if y < s.rows.len() {
            law_row_duplicated(s, row_id, copy);
        }
    } else if !is_command(c) {
        if y < s.rows.len() {
            law_byte_inserted(s, c, row_id, id);
        } else {
            let s1 = s.with_rows(
                s.rows.push(new_row(row_id, seq![CharView { byte: c, id }])),
            ).screen_cols_updated();
            lemma_row_updated(s1, y as nat, false);
            lemma_row_lens(s1);
        }
    }
}

/// The cursor stays in the text whatever key is pressed, if it was there when the screen was
/// drawn (which puts the row offset not behind the cursor).
pub proof fn law_cursor_stays_in_text(
    s: EditorView,
    key: Key,
    row_id: Seq<char>,
    id: Seq<char>,
    copy: Seq<CharView>,
)
    requires
        s.wf(),
        s.cursor_ok(),
        s.cursor.roff <= s.cursor.y,
        s.key_ok(key),
        s.copies_row(copy),
    ensures
        s.key_processed(key, row_id, id, copy).0.cursor_ok(),
{
    assert forall|i: int| 0 <= i < s.rows.len() implies (#[trigger] s.rows[i]).chars.len()
        < usize::MAX - 4 by {
        lemma_row_fits(s.rows, i, total_bytes(s.rows), s.tab());
    }
    match key {
        Key::Arrow(arrow) => lemma_moved_in_text(s, arrow),
        Key::CtrlArrow(arrow) => lemma_moved_in_text(s, arrow),
        Key::Delete => {
            lemma_moved_in_text(s, AKey::Right);
            assert(s.moved(AKey::Right).rows == s.rows);
            lemma_deleted_in_text(s.moved(AKey::Right));
        },
        Key::Char(c) => lemma_byte_in_text(s, c, row_id, id, copy),
        _ => {},
    }
}

/// With the cursor in the text and room for one more row and byte, every key can be processed
/// but ← (which goes by the size of the last character of the row), a page down without a screen,
/// a copy that there is no room for, and Ctrl-Q when it was not to be pressed any more.
pub proof fn law_keys_are_accepted(s: EditorView, key: Key)
    requires
        s.wf(),
        s.cursor_ok(),
        s.room(1, 1),
        !(key == Key::Arrow(AKey::Left) || key == Key::CtrlArrow(AKey::Left)),
        key == Key::Page(PageKey::Down) ==> 0 < s.screen_rows && s.cursor.roff + 2 * s.screen_rows
            <= usize::MAX,
        key == Key::Char(DUPLICATE) ==> s.duplicate_ok(),
        key == Key::Char(EXIT) ==> s.quit_times > 0,
    ensures
        s.key_ok(key),
{
    lemma_fits(total_bytes(s.rows), total_bytes(s.rows) + 1, s.tab());
}

/// ← takes back →: within a row of ASCII characters, and at the end of any row, from where → goes
/// to the next row or behind the last one.
pub proof fn law_left_undoes_right(s: EditorView)
    requires
        s.in_row(),
        s.row_len() <= usize::MAX,
        s.rows.len() <= usize::MAX,
        s.cursor.x < s.row_len() ==> forall|i: int|
            0 <= i < s.row_len() ==> #[trigger] s.text()[s.cursor.y as int][i] < 0x80,
    ensures
        s.moved(AKey::Right).left_ok(),
        s.moved(AKey::Right).moved(AKey::Left) == s,
{
    let bytes = s.rows[s.cursor.y as int].bytes();
    assert(s.text()[s.cursor.y as int] == bytes);
    if s.cursor.x < s.row_len() {
        lemma_ascii_row(bytes, s.tab(), s.rx());
        lemma_ascii_row(bytes, s.tab(), (width(bytes, s.tab()) - 1) as nat);
    }
}

/// How many bytes and rows there are after a byte of output was inserted.
proof fn lemma_output_byte(s: EditorView, c: u8, ids: Ids)
    requires
        s.cursor_ok(),
        rows_countable(s),
    ensures
        ({
            let t = s.output_byte_inserted(c, ids);
            &&& t.cursor_ok()
            &&& t.config == s.config
            &&& t.rows.len() <= s.rows.len() + 1
            &&& total_bytes(t.rows) <= total_bytes(s.rows) + 1
        }),
{
    let y = s.cursor.y as int;
    let x = s.cursor.x as int;
    let copy = if y < s.rows.len() {
        s.rows[y].chars
    } else {
        Seq::empty()
    };
    if c == 0x0a {
        lemma_byte_in_text(s, c, ids.0, ids.1, copy);
        if x == 0 {
            let row = new_row(ids.0, Seq::empty());
            lemma_total_insert(s.rows, y, row);
            lemma_row_updated(s.with_rows(s.rows.insert(y, row)), y as nat, false);
        } else {
            let row = s.rows[y];
            let cut = row.with_chars(row.chars.take(x));
            let s1 = s.with_rows(s.rows.update(y, cut));
            lemma_total_update(s.rows, y, cut);
            lemma_row_updated(s1, y as nat, false);
            let s2 = s1.row_updated(y as nat, false);
            let new = new_row(ids.0, row.chars.skip(x));
            lemma_total_insert(s2.rows, y + 1, new);
            lemma_row_updated(s2.with_rows(s2.rows.insert(y + 1, new)), (y + 1) as nat, false);
        }
    } else if y < s.rows.len() {
        let row = s.rows[y];
        let new = row.with_chars(row.chars.insert(x, CharView { byte: c, id: ids.1 }));
        lemma_total_update(s.rows, y, new);
        lemma_row_updated(s.with_rows(s.rows.update(y, new)), y as nat, false);
        law_byte_inserted(s, c, ids.0, ids.1);
        lemma_row_lens(s);
        lemma_row_lens(s.byte_inserted(c, ids.0, ids.1));
    } else {
        let new = new_row(ids.0, seq![CharView { byte: c, id: ids.1 }]);
        lemma_total_push(s.rows, new);
        let s1 = s.with_rows(s.rows.push(new)).screen_cols_updated();
        lemma_row_updated(s1, y as nat, false);
        lemma_row_lens(s1);
        lemma_row_lens(s.byte_inserted(c, ids.0, ids.1));
    }
}

/// How many bytes and rows there are after output was inserted.
proof fn lemma_output(s: EditorView, output: Seq<u8>, ids: Seq<Ids>)
    requires
        s.cursor_ok(),
        s.room(output.len(), output.len()),
        ids.len() == output.len(),
    ensures
        ({
            let t = s.output_inserted(output, ids);
            &&& t.cursor_ok()
            &&& t.config == s.config
            &&& t.rows.len() <= s.rows.len() + output.len()
            &&& total_bytes(t.rows) <= total_bytes(s.rows) + output.len()
        }),
    decreases output.len(),
{
    if output.len() > 0 {
        let start = output.drop_last();
        let n = output.len();
        lemma_fits(total_bytes(s.rows) + start.len(), total_bytes(s.rows) + n, s.tab());
        lemma_output(s, start, ids.drop_last());
        let m = s.output_inserted(start, ids.drop_last());
        assert forall|i: int| 0 <= i < m.rows.len() implies (#[trigger] m.rows[i]).chars.len()
            < usize::MAX - 4 by {
            lemma_fits(total_bytes(m.rows), total_bytes(s.rows) + n, s.tab());
            lemma_row_fits(m.rows, i, total_bytes(m.rows), s.tab());
        }
        lemma_output_byte(m, output.last(), ids.last());
    }
}

/// With the cursor in the text and enough room, any output can be inserted.
pub proof fn law_output_is_accepted(s: EditorView, output: Seq<u8>)
    requires
        s.cursor_ok(),
        s.room(output.len(), output.len()),
    ensures
        s.output_ok(output),
{
    assert forall|n: int, ids: Seq<Ids>|
        0 <= n < output.len() && ids.len() == n implies (#[trigger] s.output_inserted(
        output.take(n),
        ids,
    )).output_byte_ok(output[n]) by {
        let start = output.take(n);
        let total = total_bytes(s.rows) + output.len();
        lemma_fits(total_bytes(s.rows) + start.len(), total, s.tab());
        lemma_output(s, start, ids);
        let t = s.output_inserted(start, ids);
        lemma_fits(total_bytes(t.rows) + 1, total, s.tab());
        lemma_fits(total_bytes(t.rows), total, s.tab());
    }
}

/// A byte of output is inserted into the contents at the cursor, which goes behind it.
proof fn lemma_output_step(s: EditorView, c: u8, ids: Ids)
    requires
        s.in_row(),
        rows_countable(s),
    ensures
        ({
            let t = s.output_byte_inserted(c, ids);
            &&& t.contents() == s.contents().insert(s.offset(), c)
            &&& t.offset() == s.offset() + 1
            &&& t.in_row()
        }),
{
    let t = s.output_byte_inserted(c, ids);
    assert(s.rows[s.cursor.y as int].chars.len() < usize::MAX);
    lemma_row_lens(s);
    lemma_row_lens(t);
    if c == 0x0a {
        law_new_line_inserted(s, ids.0);
    } else {
        law_byte_inserted(s, c, ids.0, ids.1);
    }
}

/// Inserting one more byte behind what was inserted.
proof fn lemma_inserted_more(a: Seq<u8>, o: int, start: Seq<u8>, c: u8)
    requires
        0 <= o <= a.len(),
    ensures
        (a.take(o) + start + a.skip(o)).insert(o + start.len(), c) == a.take(o) + start.push(c)
            + a.skip(o),
{
    assert((a.take(o) + start + a.skip(o)).insert(o + start.len(), c) =~= a.take(o) + start.push(c)
        + a.skip(o));
}

/// The cursor stands within the contents.
proof fn lemma_offset(s: EditorView)
    requires
        s.in_row(),
    ensures
        0 <= s.offset() <= s.contents().len(),
{
    lemma_row_lens(s);
    lemma_joined_at(s.text(), s.cursor.y as int);
}

/// Output is inserted into the contents at the cursor, which goes behind it.
pub proof fn law_output_inserted(s: EditorView, output: Seq<u8>, ids: Seq<Ids>)
    requires
        s.in_row(),
        s.room(output.len(), output.len()),
        ids.len() == output.len(),
    ensures
        ({
            let t = s.output_inserted(output, ids);
            &&& t.contents() == s.contents().take(s.offset()) + output + s.contents().skip(
                s.offset(),
            )
            &&& t.offset() == s.offset() + output.len()
            &&& t.in_row()
        }),
    decreases output.len(),
{
    let a = s.contents();
    let o = s.offset();
    lemma_offset(s);
    if output.len() == 0 {
        assert(a =~= a.take(o) + output + a.skip(o));
    } else {
        let start = output.drop_last();
        let total = total_bytes(s.rows) + output.len();
        lemma_fits(total_bytes(s.rows) + start.len(), total, s.tab());
        law_output_inserted(s, start, ids.drop_last());
        lemma_output(s, start, ids.drop_last());
        let m = s.output_inserted(start, ids.drop_last());
        lemma_fits(total_bytes(m.rows), total, s.tab());
        assert forall|i: int| 0 <= i < m.rows.len() implies (#[trigger] m.rows[i]).chars.len()
            < usize::MAX - 4 by {
            lemma_row_fits(m.rows, i, total_bytes(m.rows), s.tab());
        }
        lemma_output_step(m, output.last(), ids.last());
        lemma_inserted_more(a, o, start, output.last());
        assert(start.push(output.last()) =~= output);
    }
}

} // verus!
