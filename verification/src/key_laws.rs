//! What each key does to the text and to the cursor.
use vstd::prelude::*;

use crate::cursor::CursorState;
use crate::execute::Ids;
use crate::file::LINE_FEED;
use crate::keys::{AKey, Key, PageKey};
use crate::laws::{
    law_byte_inserted, law_char_before_deleted, law_inserted_behind_the_text,
    law_new_line_inserted, law_nothing_deleted, law_row_deleted, law_row_duplicated,
    law_row_merged,
};
use crate::row::{char_size, cx2rx, new_row, width, CharView};
use crate::row_laws::{begins_char, column, law_layout, law_layout_end, len_at};
use crate::rows::{lemma_rehighlighted, lemma_row_fits, start_state};
use crate::state::{total_bytes, EditorView, PromptView};
use crate::step::StepView;
use crate::text::decimal;

verus! {

impl EditorView {
    /// The line of the cursor.
    pub open spec fn line_at_cursor(self) -> Seq<u8> {
        self.text()[self.cursor.y as int]
    }

    /// The state after a key, whatever identifiers it uses.
    pub open spec fn after(
        self,
        key: Key,
        row_id: Seq<char>,
        id: Seq<char>,
        copy: Seq<CharView>,
    ) -> EditorView {
        self.key_processed(key, row_id, id, copy).0
    }
}

/// The lengths of a text that can be counted.
proof fn lemma_lens(s: EditorView)
    requires
        s.wf(),
    ensures
        s.rows.len() + 32 <= usize::MAX,
        s.text().len() == s.rows.len(),
        forall|i: int|
            0 <= i < s.rows.len() ==> (#[trigger] s.rows[i]).chars.len() + 32 <= usize::MAX,
        forall|i: int|
            0 <= i < s.rows.len() ==> (#[trigger] s.text()[i]).len() == s.rows[i].chars.len(),
        s.cursor.y < s.rows.len() ==> s.line_at_cursor() == s.rows[s.cursor.y as int].bytes()
            && s.row_len() == s.line_at_cursor().len(),
{
    assert forall|i: int| 0 <= i < s.rows.len() implies (#[trigger] s.rows[i]).chars.len() + 32
        <= usize::MAX by {
        lemma_row_fits(s.rows, i, total_bytes(s.rows), s.tab());
    }
    assert forall|i: int| 0 <= i < s.rows.len() implies (#[trigger] s.text()[i]).len()
        == s.rows[i].chars.len() by {
        assert(s.text()[i] == s.rows[i].bytes());
    }
}

/// The bytes that stand for no key of their own: all but those of Enter, Backspace and the commands.
pub open spec fn is_typed(c: u8) -> bool {
    &&& c != 0x0a && c != 0x0d && c != 0x7f && c != 0x08 && c != 0x12 && c != 0x04
    &&& c != 0x0c && c != 0x10 && c != 0x11 && c != 0x13 && c != 0x0e && c != 0x06
    &&& c != 0x07 && c != 0x05
}

/// A byte that stands for no key of its own is inserted into the contents at the cursor, which goes
/// behind it.
pub proof fn law_typing(
    s: EditorView,
    c: u8,
    row_id: Seq<char>,
    id: Seq<char>,
    copy: Seq<CharView>,
)
    requires
        s.wf(),
        s.in_row(),
        is_typed(c),
    ensures
        ({
            let t = s.after(Key::Char(c), row_id, id, copy);
            &&& t.contents() == s.contents().insert(s.offset(), c)
            &&& t.offset() == s.offset() + 1
            &&& t.cursor.y == s.cursor.y
            &&& t.dirty
        }),
{
    lemma_lens(s);
    law_byte_inserted(s, c, row_id, id);
}

/// Enter inserts a line feed into the contents at the cursor, which goes behind it.
pub proof fn law_enter(
    s: EditorView,
    c: u8,
    row_id: Seq<char>,
    id: Seq<char>,
    copy: Seq<CharView>,
)
    requires
        s.wf(),
        s.in_row(),
        c == 0x0d || c == 0x0a,
    ensures
        ({
            let t = s.after(Key::Char(c), row_id, id, copy);
            &&& t.contents() == s.contents().insert(s.offset(), LINE_FEED)
            &&& t.offset() == s.offset() + 1
            &&& t.cursor.x == 0 && t.cursor.y == s.cursor.y + 1
            &&& t.dirty
        }),
{
    lemma_lens(s);
    law_new_line_inserted(s, row_id);
}

/// Behind the last row, a byte that is typed begins a new line, and Enter adds an empty one.
pub proof fn law_typing_behind_the_text(
    s: EditorView,
    c: u8,
    row_id: Seq<char>,
    id: Seq<char>,
    copy: Seq<CharView>,
)
    requires
        s.wf(),
        s.cursor.y == s.rows.len(),
        s.cursor.x == 0,
        c == 0x0a || c == 0x0d || is_typed(c),
    ensures
        ({
            let t = s.after(Key::Char(c), row_id, id, copy);
            t.dirty && if c == 0x0a || c == 0x0d {
                t.text() == s.text().push(Seq::empty()) && t.cursor.x == 0 && t.cursor.y
                    == s.cursor.y + 1
            } else {
                t.text() == s.text().push(seq![c]) && t.cursor.x == 1 && t.cursor.y == s.cursor.y
            }
        }),
{
    lemma_lens(s);
    law_inserted_behind_the_text(s, c, row_id, id);
}

/// Backspace and Ctrl-H remove the character that ends at the cursor, which goes to where the
/// character began.
pub proof fn law_backspace(
    s: EditorView,
    c: u8,
    p: nat,
    row_id: Seq<char>,
    id: Seq<char>,
    copy: Seq<CharView>,
)
    requires
        s.wf(),
        s.in_row(),
        c == 0x7f || c == 0x08,
        p < s.cursor.x,
        begins_char(s.line_at_cursor(), p),
        p + len_at(s.line_at_cursor(), p) == s.cursor.x,
    ensures
        ({
            let t = s.after(Key::Char(c), row_id, id, copy);
            let n = s.cursor.x - p;
            &&& t.contents() == s.contents().take(s.offset() - n) + s.contents().skip(s.offset())
            &&& t.cursor == (CursorState { x: p as usize, ..s.cursor })
            &&& t.offset() == s.offset() - n
            &&& t.dirty
        }),
{
    lemma_lens(s);
    let line = s.line_at_cursor();
    law_layout(line, s.tab(), p);
    assert(column(line, s.tab(), s.cursor.x as nat) == cx2rx(line, s.tab())[s.cursor.x as int]);
    law_char_before_deleted(s);
}

/// At the beginning of a row that is not the first one, Backspace and Ctrl-H remove the line feed
/// before it.
pub proof fn law_backspace_joins_rows(
    s: EditorView,
    c: u8,
    row_id: Seq<char>,
    id: Seq<char>,
    copy: Seq<CharView>,
)
    requires
        s.wf(),
        c == 0x7f || c == 0x08,
        s.cursor.x == 0,
        0 < s.cursor.y < s.rows.len(),
    ensures
        ({
            let t = s.after(Key::Char(c), row_id, id, copy);
            &&& t.contents() == s.contents().remove(s.offset() - 1)
            &&& t.offset() == s.offset() - 1
            &&& t.cursor.y == s.cursor.y - 1
            &&& t.cursor.x == s.text()[s.cursor.y - 1].len()
            &&& t.dirty
        }),
{
    lemma_lens(s);
    assert(s.rows[s.cursor.y - 1].chars.len() <= usize::MAX);
    law_row_merged(s);
}

/// At the beginning of the text Backspace changes nothing, and behind the last row it only goes to
/// the end of that row.
pub proof fn law_backspace_at_the_ends(
    s: EditorView,
    c: u8,
    row_id: Seq<char>,
    id: Seq<char>,
    copy: Seq<CharView>,
)
    requires
        s.wf(),
        c == 0x7f || c == 0x08,
        s.cursor.x == 0,
        s.cursor.y == 0 || s.cursor.y == s.rows.len(),
    ensures
        ({
            let t = s.after(Key::Char(c), row_id, id, copy);
            &&& t.text() == s.text() && t.dirty == s.dirty
            &&& s.cursor.y == 0 ==> t.cursor == s.cursor
            &&& s.cursor.y > 0 ==> t.cursor.y == s.cursor.y - 1 && t.cursor.x
                == s.text()[s.cursor.y - 1].len()
        }),
{
    lemma_lens(s);
    law_nothing_deleted(s);
    if s.cursor.y > 0 {
        assert(s.rows[s.cursor.y - 1].chars.len() + 32 <= usize::MAX);
        assert(s.text()[s.cursor.y - 1].len() == s.rows[s.cursor.y - 1].chars.len());
    }
}

/// Right goes over the character that begins at the cursor.
pub proof fn law_right(
    s: EditorView,
    row_id: Seq<char>,
    id: Seq<char>,
    copy: Seq<CharView>,
)
    requires
        s.wf(),
        s.cursor.y < s.rows.len(),
        s.cursor.x < s.row_len(),
        begins_char(s.line_at_cursor(), s.cursor.x as nat),
    ensures
        ({
            let n = len_at(s.line_at_cursor(), s.cursor.x as nat);
            let t = s.after(Key::Arrow(AKey::Right), row_id, id, copy);
            &&& t.cursor == (CursorState { x: (s.cursor.x + n) as usize, ..s.cursor })
            &&& t.cursor.x <= s.row_len()
            &&& begins_char(s.line_at_cursor(), t.cursor.x as nat)
            &&& s.after(Key::CtrlArrow(AKey::Right), row_id, id, copy) == t
        }),
{
    lemma_lens(s);
    law_layout(s.line_at_cursor(), s.tab(), s.cursor.x as nat);
    assert(s.rx() == column(s.line_at_cursor(), s.tab(), s.cursor.x as nat));
}

/// At the end of a row, Right goes to the beginning of the next one; behind the last row it stays.
/// Left goes from the beginning of a row to the end of the one before.
pub proof fn law_row_ends(
    s: EditorView,
    row_id: Seq<char>,
    id: Seq<char>,
    copy: Seq<CharView>,
)
    requires
        s.wf(),
        s.cursor_ok(),
    ensures
        s.in_row() && s.cursor.x == s.row_len() ==> s.after(
            Key::Arrow(AKey::Right),
            row_id,
            id,
            copy,
        ).cursor == (CursorState { x: 0, y: (s.cursor.y + 1) as usize, ..s.cursor }),
        s.cursor.y == s.rows.len() ==> s.after(Key::Arrow(AKey::Right), row_id, id, copy).cursor
            == s.cursor,
        s.cursor.x == 0 && s.cursor.y > 0 ==> s.after(
            Key::Arrow(AKey::Left),
            row_id,
            id,
            copy,
        ).cursor == (CursorState {
            x: s.text()[s.cursor.y - 1].len() as usize,
            y: (s.cursor.y - 1) as usize,
            ..s.cursor
        }),
        s.cursor.x == 0 && s.cursor.y == 0 ==> s.after(
            Key::Arrow(AKey::Left),
            row_id,
            id,
            copy,
        ).cursor == s.cursor,
{
    lemma_lens(s);
    if s.cursor.y > 0 {
        assert(s.rows[s.cursor.y - 1].chars.len() + 32 <= usize::MAX);
        assert(s.text()[s.cursor.y - 1].len() == s.rows[s.cursor.y - 1].chars.len());
    }
}

/// The length of row `y`, 0 behind the last one.
pub open spec fn len_of_row(s: EditorView, y: int) -> int {
    if 0 <= y < s.rows.len() {
        s.text()[y].len() as int
    } else {
        0
    }
}

/// Up and Down go to the row before and behind, as far to the right as that row reaches; the first
/// row and the place behind the last one are not left.
pub proof fn law_up_and_down(
    s: EditorView,
    row_id: Seq<char>,
    id: Seq<char>,
    copy: Seq<CharView>,
)
    requires
        s.wf(),
        s.cursor_ok(),
    ensures
        ({
            let up = s.after(Key::Arrow(AKey::Up), row_id, id, copy);
            let y = if s.cursor.y > 0 {
                s.cursor.y - 1
            } else {
                0
            };
            &&& up.cursor.y == y
            &&& up.cursor.x == if s.cursor.x <= len_of_row(s, y) {
                s.cursor.x as int
            } else {
                len_of_row(s, y)
            }
        }),
        ({
            let down = s.after(Key::Arrow(AKey::Down), row_id, id, copy);
            let y = if s.cursor.y < s.rows.len() {
                s.cursor.y + 1
            } else {
                s.cursor.y as int
            };
            &&& down.cursor.y == y
            &&& down.cursor.x == if s.cursor.x <= len_of_row(s, y) {
                s.cursor.x as int
            } else {
                len_of_row(s, y)
            }
        }),
{
    lemma_lens(s);
    if s.cursor.y > 0 {
        assert(s.text()[s.cursor.y - 1].len() == s.rows[s.cursor.y - 1].chars.len());
        assert(s.rows[s.cursor.y - 1].chars.len() + 32 <= usize::MAX);
    }
    if s.cursor.y + 1 < s.rows.len() {
        assert(s.text()[s.cursor.y + 1].len() == s.rows[s.cursor.y + 1].chars.len());
        assert(s.rows[s.cursor.y + 1].chars.len() + 32 <= usize::MAX);
    }
}

/// Home goes to the beginning of the row, End to its end.
pub proof fn law_home_and_end(
    s: EditorView,
    row_id: Seq<char>,
    id: Seq<char>,
    copy: Seq<CharView>,
)
    requires
        s.wf(),
    ensures
        s.after(Key::Home, row_id, id, copy).cursor == (CursorState { x: 0, ..s.cursor }),
        s.after(Key::End, row_id, id, copy).cursor == (CursorState {
            x: len_of_row(s, s.cursor.y as int) as usize,
            ..s.cursor
        }),
{
    lemma_lens(s);
}

/// A page down shows the rows behind those that were shown, a page up those before them: the
/// screen begins where it ended, or ends where it began, as far as there are rows.
pub proof fn law_pages(
    s: EditorView,
    row_id: Seq<char>,
    id: Seq<char>,
    copy: Seq<CharView>,
)
    requires
        s.wf(),
        s.screen_rows > 0,
    ensures
        s.cursor.roff + 2 * s.screen_rows - 1 <= s.rows.len() ==> {
            let t = s.after(Key::Page(PageKey::Down), row_id, id, copy).scrolled();
            &&& t.cursor.roff == s.cursor.roff + s.screen_rows
            &&& t.cursor.y == t.cursor.roff + s.screen_rows - 1
        },
        s.cursor.roff + 2 * s.screen_rows - 1 > s.rows.len() ==> s.after(
            Key::Page(PageKey::Down),
            row_id,
            id,
            copy,
        ).cursor.y == s.rows.len(),
        s.cursor.roff >= s.screen_rows ==> {
            let t = s.after(Key::Page(PageKey::Up), row_id, id, copy).scrolled();
            &&& t.cursor.roff == s.cursor.roff - s.screen_rows
            &&& t.cursor.y == t.cursor.roff
        },
        s.cursor.roff < s.screen_rows ==> s.after(
            Key::Page(PageKey::Up),
            row_id,
            id,
            copy,
        ).cursor.y == 0,
        forall|page: PageKey|
            {
                let t = #[trigger] s.after(Key::Page(page), row_id, id, copy);
                let n = len_of_row(s, t.cursor.y as int);
                t.cursor.x == if s.cursor.x <= n {
                    s.cursor.x as int
                } else {
                    n
                }
            },
{
    lemma_lens(s);
    assert forall|page: PageKey|
        {
            let t = #[trigger] s.after(Key::Page(page), row_id, id, copy);
            let n = len_of_row(s, t.cursor.y as int);
            t.cursor.x == if s.cursor.x <= n {
                s.cursor.x as int
            } else {
                n
            }
        } by {
        let t = s.after(Key::Page(page), row_id, id, copy);
        let y = t.cursor.y as int;
        if y < s.rows.len() {
            assert(s.rows[y].chars.len() + 32 <= usize::MAX);
            assert(s.text()[y].len() == s.rows[y].chars.len());
        }
    }
}

/// Delete removes the character that begins at the cursor, and nothing else; the cursor stays.
pub proof fn law_delete(
    s: EditorView,
    row_id: Seq<char>,
    id: Seq<char>,
    copy: Seq<CharView>,
)
    requires
        s.wf(),
        s.cursor.y < s.rows.len(),
        s.cursor.x < s.row_len(),
        begins_char(s.line_at_cursor(), s.cursor.x as nat),
    ensures
        ({
            let n = len_at(s.line_at_cursor(), s.cursor.x as nat);
            let t = s.after(Key::Delete, row_id, id, copy);
            &&& t.contents() == s.contents().take(s.offset()) + s.contents().skip(s.offset() + n)
            &&& t.cursor == s.cursor
            &&& t.dirty
        }),
{
    let line = s.line_at_cursor();
    let x = s.cursor.x as nat;
    let n = len_at(line, x);
    lemma_lens(s);
    law_layout(line, s.tab(), x);
    law_right(s, row_id, id, copy);
    let m = s.moved(AKey::Right);
    assert(m.rows == s.rows && m.tab() == s.tab());
    assert(m.cursor.x == x + n);
    assert(column(line, s.tab(), x + n) == cx2rx(line, s.tab())[(x + n) as int]);
    law_char_before_deleted(m);
    assert(m.contents() == s.contents());
    assert(m.offset() == s.offset() + n);
}

/// At the end of a row that is not the last one, Delete removes the line feed behind the cursor,
/// which stays. At the end of the text it changes nothing.
pub proof fn law_delete_joins_rows(
    s: EditorView,
    row_id: Seq<char>,
    id: Seq<char>,
    copy: Seq<CharView>,
)
    requires
        s.wf(),
        s.in_row(),
        s.cursor.x == s.row_len(),
    ensures
        ({
            let t = s.after(Key::Delete, row_id, id, copy);
            &&& t.contents() == if s.cursor.y + 1 < s.rows.len() {
                s.contents().remove(s.offset())
            } else {
                s.contents()
            }
            &&& t.cursor == s.cursor
            &&& t.dirty == (s.dirty || s.cursor.y + 1 < s.rows.len())
        }),
{
    lemma_lens(s);
    let y = s.cursor.y as int;
    let m = s.moved(AKey::Right);
    assert(m.rows == s.rows);
    assert(m.cursor == (CursorState { x: 0, y: (y + 1) as usize, ..s.cursor }));
    if y + 1 < s.rows.len() {
        assert(m.rows[y].chars.len() <= usize::MAX);
        law_row_merged(m);
        lemma_offset_behind(s.text(), y);
        assert(m.contents() == s.contents());
    }
}

/// Where the line behind line `y` begins in the contents.
proof fn lemma_offset_behind(l: Seq<Seq<u8>>, y: int)
    requires
        0 <= y < l.len(),
    ensures
        crate::laws::text_before(l, y + 1).len() == crate::laws::text_before(l, y).len()
            + l[y].len() + 1,
{
    let start = l.take(y + 1);
    assert(start.drop_last() =~= l.take(y));
    assert(start.last() == l[y]);
    if y == 0 {
        assert(start[0] == l[0]);
    }
}

/// Behind the last row Delete does what Backspace does: it goes to the end of that row. Ctrl-R and
/// Ctrl-D do nothing there.
pub proof fn law_behind_the_text(
    s: EditorView,
    row_id: Seq<char>,
    id: Seq<char>,
    copy: Seq<CharView>,
)
    requires
        s.wf(),
        s.cursor.y == s.rows.len(),
        s.cursor.x == 0,
    ensures
        ({
            let t = s.after(Key::Delete, row_id, id, copy);
            &&& t.rows == s.rows && t.dirty == s.dirty
            &&& t.cursor == s.after(Key::Char(0x7f), row_id, id, copy).cursor
        }),
        ({
            let t = s.after(Key::Char(0x12), row_id, id, copy);
            t.rows == s.rows && t.dirty == s.dirty && t.cursor == s.cursor
        }),
        ({
            let t = s.after(Key::Char(0x04), row_id, id, copy);
            t.rows == s.rows && t.dirty == s.dirty && t.cursor == s.cursor
        }),
{
    lemma_lens(s);
    let m = s.moved(AKey::Right);
    assert(m == s);
    law_nothing_deleted(s);
}

/// A byte of the output of a command does to the text and the cursor what typing it does, a line
/// feed what Enter does.
pub proof fn law_output_is_typed(s: EditorView, c: u8, ids: Ids, copy: Seq<CharView>)
    requires
        is_typed(c) || c == 0x0a,
    ensures
        ({
            let t = s.output_byte_inserted(c, ids);
            let u = s.after(Key::Char(c), ids.0, ids.1, copy);
            &&& t.rows == u.rows && t.cursor == u.cursor && t.n_bytes == u.n_bytes
            &&& t.dirty == u.dirty
        }),
{
}

/// With Ctrl an arrow key does what it does without.
pub proof fn law_ctrl_arrows(
    s: EditorView,
    arrow: AKey,
    row_id: Seq<char>,
    id: Seq<char>,
    copy: Seq<CharView>,
)
    ensures
        s.key_processed(Key::CtrlArrow(arrow), row_id, id, copy) == s.key_processed(
            Key::Arrow(arrow),
            row_id,
            id,
            copy,
        ),
        s.key_ok(Key::CtrlArrow(arrow)) == s.key_ok(Key::Arrow(arrow)),
{
}

/// Ctrl-R removes the line of the cursor, or empties it if it is the last one; Ctrl-D inserts the
/// line once more behind it and goes there.
pub proof fn law_line_commands(
    s: EditorView,
    row_id: Seq<char>,
    id: Seq<char>,
    copy: Seq<CharView>,
)
    requires
        s.wf(),
        s.cursor.y < s.rows.len(),
        s.copies_row(copy),
    ensures
        ({
            let t = s.after(Key::Char(0x12), row_id, id, copy);
            let y = s.cursor.y as int;
            &&& t.text() == if y + 1 < s.rows.len() {
                s.text().remove(y)
            } else {
                s.text().update(y, Seq::empty())
            }
            &&& t.cursor == (CursorState { x: 0, ..s.cursor })
            &&& t.dirty == (s.dirty || y + 1 < s.rows.len() || s.line_at_cursor().len() > 0)
        }),
        ({
            let t = s.after(Key::Char(0x04), row_id, id, copy);
            let y = s.cursor.y as int;
            &&& t.text() == s.text().insert(y + 1, s.line_at_cursor())
            &&& t.cursor == (CursorState { y: (y + 1) as usize, ..s.cursor })
            &&& t.dirty
        }),
{
    lemma_lens(s);
    law_row_deleted(s);
    law_row_duplicated(s, row_id, copy);
}

/// Ctrl-R after Ctrl-D gives the lines back, if there is a line behind.
pub proof fn law_removing_undoes_duplicating(
    s: EditorView,
    row_id: Seq<char>,
    id: Seq<char>,
    copy: Seq<CharView>,
)
    requires
        s.wf(),
        s.cursor.y + 1 < s.rows.len(),
        s.copies_row(copy),
    ensures
        s.after(Key::Char(0x04), row_id, id, copy).after(Key::Char(0x12), row_id, id, copy).text()
            == s.text(),
{
    lemma_lens(s);
    law_line_commands(s, row_id, id, copy);
    let t = s.after(Key::Char(0x04), row_id, id, copy);
    lemma_removed(t, row_id, id, copy);
    assert(s.text().insert(s.cursor.y + 1, s.line_at_cursor()).remove(s.cursor.y + 1)
        =~= s.text());
}

proof fn lemma_removed(s: EditorView, row_id: Seq<char>, id: Seq<char>, copy: Seq<CharView>)
    requires
        s.cursor.y + 1 < s.text().len() <= usize::MAX,
    ensures
        s.after(Key::Char(0x12), row_id, id, copy).text() == s.text().remove(s.cursor.y as int),
{
    let t = s.current_row_deleted();
    assert(s.rows.len() == s.text().len());
    law_row_deleted(s);
    assert(s.after(Key::Char(0x12), row_id, id, copy).rows == t.rows);
}

/// Ctrl-Q leaves the program if the text is not modified or it was pressed often enough, and else
/// counts down. No other key leaves the program.
pub proof fn law_quit_key(
    s: EditorView,
    key: Key,
    row_id: Seq<char>,
    id: Seq<char>,
    copy: Seq<CharView>,
)
    requires
        s.quit_times > 0,
    ensures
        s.key_processed(key, row_id, id, copy).1 is Quit <==> key == Key::Char(0x11) && (!s.dirty
            || s.quit_times == 1),
        key == Key::Char(0x11) && s.dirty && s.quit_times > 1 ==> {
            let t = s.after(key, row_id, id, copy);
            let n = (s.quit_times - 1) as nat;
            &&& t.quit_times == n && t.rows == s.rows
            &&& t.status_msg == Some(
                "Press Ctrl+Q "@ + decimal(n) + " more "@ + (if n == 1 {
                    "time"@
                } else {
                    "times"@
                }) + " to quit."@,
            )
        },
        key != Key::Char(0x11) ==> s.after(key, row_id, id, copy).quit_times
            == s.config.quit_times,
{
}

/// What the commands ask for: Ctrl-S saves under the name of the text or asks for one, Ctrl-N asks
/// for a name, Ctrl-F for a query (keeping the place of the cursor), Ctrl-G for a line, Ctrl-E for
/// a command, and Ctrl-P refreshes a document that has a remote replica. They leave the text and
/// the cursor as they are; all other keys but Ctrl-Q ask for nothing.
pub proof fn law_commands(
    s: EditorView,
    key: Key,
    row_id: Seq<char>,
    id: Seq<char>,
    copy: Seq<CharView>,
)
    requires
        key != Key::Char(0x11),
    ensures
        ({
            let (t, step) = s.key_processed(key, row_id, id, copy);
            &&& step == match key {
                Key::Char(0x13u8) => match s.file_name {
                    Some(name) => StepView::Save(name),
                    None => StepView::Prompt(Some(PromptView::Save(Seq::empty()))),
                },
                Key::Char(0x0eu8) => StepView::Prompt(Some(PromptView::Save(Seq::empty()))),
                Key::Char(0x06u8) => StepView::Prompt(
                    Some(PromptView::Find(Seq::empty(), s.cursor, None)),
                ),
                Key::Char(0x07u8) => StepView::Prompt(Some(PromptView::GoTo(Seq::empty()))),
                Key::Char(0x05u8) => StepView::Prompt(Some(PromptView::Execute(Seq::empty()))),
                Key::Char(0x10u8) => if s.remote_url is Some {
                    StepView::RefreshReplica
                } else {
                    StepView::Prompt(None)
                },
                _ => StepView::Prompt(None),
            }
            &&& (key matches Key::Char(c) && (c == 0x13 || c == 0x0e || c == 0x06 || c == 0x07 || c
                == 0x05 || c == 0x10 || c == 0x0c)) || key is Escape ==> t.rows == s.rows
                && t.cursor == s.cursor && t.dirty == s.dirty && t.n_bytes == s.n_bytes
        }),
{
}

/// Within a row Left goes back by as many bytes as the last character of the row has.
pub proof fn law_left(
    s: EditorView,
    last: nat,
    row_id: Seq<char>,
    id: Seq<char>,
    copy: Seq<CharView>,
)
    requires
        s.wf(),
        s.in_row(),
        last < s.row_len(),
        begins_char(s.line_at_cursor(), last),
        last + len_at(s.line_at_cursor(), last) == s.row_len(),
        0 < s.cursor.x,
        s.row_len() - last <= s.cursor.x,
    ensures
        ({
            let t = s.after(Key::Arrow(AKey::Left), row_id, id, copy);
            &&& s.key_ok(Key::Arrow(AKey::Left))
            &&& t.cursor == (CursorState {
                x: (s.cursor.x - (s.row_len() - last)) as usize,
                ..s.cursor
            })
            &&& s.after(Key::CtrlArrow(AKey::Left), row_id, id, copy) == t
        }),
{
    lemma_lens(s);
    let line = s.line_at_cursor();
    law_layout(line, s.tab(), last);
    law_layout_end(line, s.tab());
    assert(char_size(line, s.tab(), (width(line, s.tab()) - 1) as nat) == len_at(
        line,
        last,
    ));
    assert(s.last_char_size() == s.row_len() - last);
}

/// Two states differ at most in what a key can change: the text, the cursor, the columns left of
/// the text, the warnings and the message.
pub open spec fn same_rest(s: EditorView, t: EditorView) -> bool {
    &&& t == EditorView {
        rows: t.rows,
        n_bytes: t.n_bytes,
        dirty: t.dirty,
        cursor: t.cursor,
        ln_pad: t.ln_pad,
        screen_cols: t.screen_cols,
        quit_times: t.quit_times,
        status_msg: t.status_msg,
        ..s
    }
    &&& t.cursor.roff == s.cursor.roff && t.cursor.coff == s.cursor.coff
}

proof fn lemma_deleted_rest(s: EditorView)
    ensures
        same_rest(s, s.char_deleted()),
        s.char_deleted().status_msg == s.status_msg,
{
}

proof fn lemma_inserted_rest(
    s: EditorView,
    c: u8,
    row_id: Seq<char>,
    id: Seq<char>,
    copy: Seq<CharView>,
)
    ensures
        same_rest(s, s.byte_inserted(c, row_id, id)),
        same_rest(s, s.new_line_inserted(row_id)),
        same_rest(s, s.row_duplicated(row_id, copy)),
        s.byte_inserted(c, row_id, id).status_msg == s.status_msg,
        s.new_line_inserted(row_id).status_msg == s.status_msg,
        s.row_duplicated(row_id, copy).status_msg == s.status_msg,
{
}

proof fn lemma_removed_rest(s: EditorView)
    ensures
        same_rest(s, s.current_row_deleted()),
        s.current_row_deleted().status_msg == s.status_msg,
{
    if s.cursor.y < s.rows.len() {
        let cleared = s.row_cleared().with_cursor(s.cursor.next_line());
        assert(same_rest(s, cleared));
        lemma_deleted_rest(cleared);
    }
}

proof fn lemma_byte_rest(
    s: EditorView,
    c: u8,
    row_id: Seq<char>,
    id: Seq<char>,
    copy: Seq<CharView>,
)
    ensures
        same_rest(s, s.byte_edited(c, row_id, id, copy)),
        s.byte_edited(c, row_id, id, copy).status_msg == s.status_msg,
{
    lemma_deleted_rest(s);
    lemma_inserted_rest(s, c, row_id, id, copy);
    lemma_removed_rest(s);
}

proof fn lemma_moved_rest(s: EditorView, arrow: AKey)
    ensures
        same_rest(s, s.moved(arrow)),
        s.moved(arrow).status_msg == s.status_msg,
{
}

proof fn lemma_key_rest(s: EditorView, key: Key)
    ensures
        same_rest(s, s.key_edited(key)),
        s.key_edited(key).status_msg == s.status_msg,
{
    match key {
        Key::Arrow(arrow) => {
            lemma_moved_rest(s, arrow);
        },
        Key::CtrlArrow(arrow) => {
            lemma_moved_rest(s, arrow);
        },
        Key::Delete => {
            lemma_moved_rest(s, AKey::Right);
            let m = s.moved(AKey::Right);
            lemma_deleted_rest(m);
            lemma_rest_is_transitive(s, m, m.char_deleted());
        },
        _ => {},
    }
}

proof fn lemma_rest_is_transitive(a: EditorView, b: EditorView, c: EditorView)
    requires
        same_rest(a, b),
        same_rest(b, c),
    ensures
        same_rest(a, c),
{
}

/// A key changes the text, the cursor, the warnings and the message of Ctrl-Q, and nothing else;
/// where the screen begins stays until it is refreshed.
pub proof fn law_keys_keep_the_rest(
    s: EditorView,
    key: Key,
    row_id: Seq<char>,
    id: Seq<char>,
    copy: Seq<CharView>,
)
    ensures
        same_rest(s, s.after(key, row_id, id, copy)),
        key != Key::Char(0x11) ==> s.after(key, row_id, id, copy).status_msg == s.status_msg,
{
    if key != Key::Char(0x11) {
        let e = match key {
            Key::Char(c) => s.byte_edited(c, row_id, id, copy),
            _ => s.key_edited(key),
        };
        assert(same_rest(s, e) && e.status_msg == s.status_msg) by {
            match key {
                Key::Char(c) => {
                    lemma_byte_rest(s, c, row_id, id, copy);
                },
                _ => {
                    lemma_key_rest(s, key);
                },
            }
        }
        assert(same_rest(s, EditorView { quit_times: s.config.quit_times, ..e }));
    }
}

/// The identifiers of the rows.
pub open spec fn row_ids(s: EditorView) -> Seq<Seq<char>> {
    Seq::new(s.rows.len(), |i: int| s.rows[i].uuid)
}

proof fn lemma_updated_ids(s: EditorView, y: nat, once: bool)
    ensures
        row_ids(s.row_updated(y, once)) == row_ids(s),
{
    lemma_rehighlighted(s.rows, s.syntax, y, start_state(s.rows, y), once);
    let t = s.row_updated(y, once);
    assert forall|i: int| 0 <= i < s.rows.len() implies row_ids(t)[i] == row_ids(s)[i] by {
        assert(t.rows[i] == s.rows[i].with_state(t.rows[i].hl_state));
    }
    assert(row_ids(t) =~= row_ids(s));
}

/// A row keeps its identifier whatever is typed or deleted in it. A row that begins at the cursor
/// stays the same row when an empty one is inserted before it; what is split off is a new row. Of
/// rows that are joined the first one stays.
pub proof fn law_rows_keep_their_identifiers(
    s: EditorView,
    c: u8,
    row_id: Seq<char>,
    id: Seq<char>,
    copy: Seq<CharView>,
)
    requires
        s.wf(),
        s.in_row(),
        s.copies_row(copy),
    ensures
        ({
            let y = s.cursor.y as int;
            let ids = row_ids(s);
            &&& row_ids(s.byte_inserted(c, row_id, id)) == ids
            &&& s.cursor.x == 0 ==> row_ids(s.new_line_inserted(row_id)) == ids.insert(y, row_id)
            &&& s.cursor.x > 0 ==> row_ids(s.new_line_inserted(row_id)) == ids.insert(
                y + 1,
                row_id,
            )
            &&& s.cursor.x > 0 ==> row_ids(s.char_deleted()) == ids
            &&& s.cursor.x == 0 && y > 0 ==> row_ids(s.char_deleted()) == ids.remove(y)
            &&& row_ids(s.row_duplicated(row_id, copy)) == ids.insert(y + 1, row_id)
        }),
{
    let y = s.cursor.y as int;
    let x = s.cursor.x as int;
    let row = s.rows[y];
    let ids = row_ids(s);
    let typed = s.with_rows(
        s.rows.update(y, row.with_chars(row.chars.insert(x, CharView { byte: c, id }))),
    );
    lemma_updated_ids(typed, y as nat, false);
    assert(row_ids(typed) =~= ids);
    assert(row_ids(s.byte_inserted(c, row_id, id)) =~= ids);
    let copied = s.with_rows(s.rows.insert(y + 1, new_row(row_id, copy)));
    lemma_updated_ids(copied, (y + 1) as nat, false);
    assert(row_ids(copied) =~= ids.insert(y + 1, row_id));
    assert(row_ids(s.row_duplicated(row_id, copy)) =~= ids.insert(y + 1, row_id));
    if x == 0 {
        let s1 = s.with_rows(s.rows.insert(y, new_row(row_id, Seq::empty())));
        lemma_updated_ids(s1, y as nat, false);
        assert(row_ids(s1) =~= ids.insert(y, row_id));
        assert(row_ids(s.new_line_inserted(row_id)) =~= ids.insert(y, row_id));
        if y > 0 {
            let previous = s.rows[y - 1];
            let merged = previous.with_chars(previous.chars + row.chars);
            let s2 = s.with_rows(s.rows.remove(y).update(y - 1, merged));
            lemma_updated_ids(s2, (y - 1) as nat, true);
            lemma_updated_ids(s2.row_updated((y - 1) as nat, true), y as nat, false);
            assert(row_ids(s2) =~= ids.remove(y));
            assert(row_ids(s.char_deleted()) =~= ids.remove(y));
        }
    } else {
        let cut = s.with_rows(s.rows.update(y, row.with_chars(row.chars.take(x))));
        lemma_updated_ids(cut, y as nat, false);
        let s0 = cut.row_updated(y as nat, false);
        assert(row_ids(cut) =~= ids);
        assert(s0.rows.len() == row_ids(s0).len());
        let s1 = s0.with_rows(s0.rows.insert(y + 1, new_row(row_id, row.chars.skip(x))));
        lemma_updated_ids(s1, (y + 1) as nat, false);
        assert(row_ids(s1) =~= row_ids(s0).insert(y + 1, row_id));
        assert(row_ids(s.new_line_inserted(row_id)) =~= ids.insert(y + 1, row_id));
        let col = cx2rx(row.bytes(), s.tab())[x];
        if col != 0 {
            let n = char_size(row.bytes(), s.tab(), (col - 1) as nat);
            let rest = row.chars.take(x - n) + row.chars.skip(x);
            let s2 = s.with_rows(s.rows.update(y, row.with_chars(rest)));
            lemma_updated_ids(s2, y as nat, false);
            assert(row_ids(s2) =~= ids);
        }
        assert(row_ids(s.char_deleted()) =~= ids);
    }
}

/// Without a prompt a key does to the text, the cursor and the counters what it does outside of
/// prompts, and the prompt that it opens is the one that the next key goes to.
pub proof fn law_keys_without_prompt(
    s: EditorView,
    key: Key,
    row_id: Seq<char>,
    id: Seq<char>,
    copy: Seq<CharView>,
)
    requires
        s.prompt_mode is None,
    ensures
        ({
            let (t, step) = s.key_handled(key, row_id, id, copy);
            let (u, asked) = s.key_processed(key, row_id, id, copy);
            &&& t.rows == u.rows && t.cursor == u.cursor && t.n_bytes == u.n_bytes && t.dirty
                == u.dirty && t.quit_times == u.quit_times && t.status_msg == u.status_msg
            &&& match asked {
                StepView::Prompt(mode) => t.prompt_mode == mode && step == StepView::Prompt(None),
                _ => t.prompt_mode is None && step == asked,
            }
        }),
{
    assert(s.without_prompt() == s);
}

} // verus!
