//! Comments that reach over the end of a line.
use vstd::prelude::*;

use crate::row::{bytes_of, char_size, cx2rx, new_row, CharView, RowView};
use crate::rows::{
    is_highlighted, law_update_highlights, lemma_rehighlighted, rehighlighted, start_state,
};
use crate::session_laws::all_highlighted;
use crate::state::EditorView;
use crate::syntax::{stands_at, state_from, step, ConfView, HlState};

verus! {

/// The token that changes the state: outside of a comment that which starts one, inside that which
/// ends it.
pub open spec fn awaited(start: Seq<u8>, end: Seq<u8>, state: HlState) -> Seq<u8> {
    match state {
        HlState::Normal => start,
        HlState::MultiLineComment => end,
    }
}

/// From position `i` up to `j` no token changes the state.
proof fn lemma_skip(
    bytes: Seq<u8>,
    start: Seq<u8>,
    end: Seq<u8>,
    i: nat,
    j: nat,
    state: HlState,
)
    requires
        i <= j <= bytes.len(),
        forall|k: int|
            i <= k < j ==> !(#[trigger] stands_at(bytes, awaited(start, end, state), k)),
    ensures
        state_from(bytes, start, end, i, state) == state_from(bytes, start, end, j, state),
    decreases j - i,
{
    if i < j {
        assert(!stands_at(bytes, awaited(start, end, state), i as int));
        lemma_skip(bytes, start, end, i + 1, j, state);
    }
}

/// What stands before position `i` does not matter behind it.
proof fn lemma_behind(
    a: Seq<u8>,
    b: Seq<u8>,
    start: Seq<u8>,
    end: Seq<u8>,
    i: nat,
    state: HlState,
)
    ensures
        state_from(a + b, start, end, a.len() + i, state) == state_from(b, start, end, i, state),
    decreases b.len() - i,
{
    if i < b.len() {
        lemma_stands_behind(a, b, start, i as int);
        lemma_stands_behind(a, b, end, i as int);
        lemma_behind(a, b, start, end, i + 1, HlState::Normal);
        lemma_behind(a, b, start, end, i + 1, HlState::MultiLineComment);
        let m = i + step(start);
        let n = i + step(end);
        if m < b.len() {
            lemma_behind(a, b, start, end, m, HlState::MultiLineComment);
        } else {
            let state = HlState::MultiLineComment;
            assert(state_from(a + b, start, end, a.len() + m, state) == state);
            assert(state_from(b, start, end, m, state) == state);
        }
        if n < b.len() {
            lemma_behind(a, b, start, end, n, HlState::Normal);
        } else {
            assert(state_from(a + b, start, end, a.len() + n, HlState::Normal) is Normal);
            assert(state_from(b, start, end, n, HlState::Normal) is Normal);
        }
        assert(a.len() + i + step(start) == a.len() + m);
        assert(a.len() + i + step(end) == a.len() + n);
    }
}

proof fn lemma_stands_behind(a: Seq<u8>, b: Seq<u8>, token: Seq<u8>, i: int)
    requires
        0 <= i,
    ensures
        stands_at(a + b, token, a.len() + i) == stands_at(b, token, i),
{
    if i + token.len() <= b.len() {
        assert((a + b).subrange(a.len() + i, a.len() + i + token.len()) =~= b.subrange(
            i,
            i + token.len(),
        ));
    }
}

/// A row without the token that is waited for leaves the state as it is: outside of a comment one
/// without a start token, inside one without an end token. Where there are no such comments, every
/// row does.
pub proof fn law_state_is_kept(syntax: ConfView, bytes: Seq<u8>, state: HlState)
    requires
        syntax.ml_comment_delims matches Some((start, end)) ==> forall|k: int|
            0 <= k < bytes.len() ==> !(#[trigger] stands_at(bytes, awaited(start, end, state), k)),
    ensures
        syntax.next_state(bytes, state) == state,
{
    if let Some((start, end)) = syntax.ml_comment_delims {
        lemma_skip(bytes, start, end, 0, bytes.len(), state);
    }
}

/// The first token that is waited for changes the state: a start token opens a comment, an end
/// token closes it, and then what stands behind it counts.
pub proof fn law_token_changes_state(
    syntax: ConfView,
    start: Seq<u8>,
    end: Seq<u8>,
    a: Seq<u8>,
    b: Seq<u8>,
    state: HlState,
)
    requires
        syntax.ml_comment_delims == Some((start, end)),
        ({
            let token = awaited(start, end, state);
            token.len() > 0 && forall|k: int|
                0 <= k < a.len() ==> !(#[trigger] stands_at(a + token + b, token, k))
        }),
    ensures
        state is Normal ==> syntax.next_state(a + start + b, state) == syntax.next_state(
            b,
            HlState::MultiLineComment,
        ),
        state is MultiLineComment ==> syntax.next_state(a + end + b, state) == syntax.next_state(
            b,
            HlState::Normal,
        ),
{
    let token = awaited(start, end, state);
    let bytes = a + token + b;
    lemma_skip(bytes, start, end, 0, a.len(), state);
    assert(bytes.subrange(a.len() as int, (a.len() + token.len()) as int) =~= token);
    assert(stands_at(bytes, token, a.len() as int));
    let other = if state is Normal {
        HlState::MultiLineComment
    } else {
        HlState::Normal
    };
    assert(state_from(bytes, start, end, a.len(), state) == state_from(
        bytes,
        start,
        end,
        a.len() + token.len(),
        other,
    ));
    lemma_behind(a + token, b, start, end, 0, other);
}

proof fn lemma_changed_row(s: EditorView, y: int, row: RowView)
    requires
        0 <= y < s.rows.len(),
        all_highlighted(s),
        row.hl_state == s.rows[y].hl_state,
    ensures
        all_highlighted(s.with_rows(s.rows.update(y, row)).row_updated(y as nat, false)),
{
    let rows = s.rows.update(y, row);
    assert forall|i: int| 0 <= i < rows.len() && i != y implies #[trigger] is_highlighted(
        rows,
        s.syntax,
        i,
    ) by {
        assert(is_highlighted(s.rows, s.syntax, i));
    }
    law_update_highlights(rows, s.syntax, y as nat);
    lemma_rehighlighted(rows, s.syntax, y as nat, start_state(rows, y as nat), false);
}

proof fn lemma_state_after_merge(s: EditorView)
    requires
        0 < s.cursor.y < s.rows.len(),
        all_highlighted(s),
    ensures
        all_highlighted(s.row_merged()),
{
    let y = s.cursor.y as int;
    let previous = s.rows[y - 1];
    let merged = previous.with_chars(previous.chars + s.rows[y].chars);
    let rows = s.rows.remove(y).update(y - 1, merged);
    let state = start_state(rows, (y - 1) as nat);
    let once = rehighlighted(rows, s.syntax, (y - 1) as nat, state, true);
    let next = s.syntax.next_state(rows[y - 1].bytes(), state);
    assert(once == rows.update(y - 1, rows[y - 1].with_state(next)));
    assert forall|i: int| 0 <= i < once.len() && i != y implies #[trigger] is_highlighted(
        once,
        s.syntax,
        i,
    ) by {
        if i < y - 1 {
            assert(is_highlighted(s.rows, s.syntax, i));
        } else if i > y {
            assert(is_highlighted(s.rows, s.syntax, i + 1));
            assert(once[i] == s.rows[i + 1]);
            assert(once[i - 1] == s.rows[i]);
        }
    }
    law_update_highlights(once, s.syntax, y as nat);
    lemma_rehighlighted(once, s.syntax, y as nat, start_state(once, y as nat), false);
}

/// Typing and deleting keep all highlight states right: a byte that is inserted, a character that
/// is deleted, rows that are joined, and a row that is removed.
pub proof fn law_highlights_follow(s: EditorView, c: u8, row_id: Seq<char>, id: Seq<char>)
    requires
        all_highlighted(s),
        s.cursor.y < s.rows.len() <= usize::MAX,
    ensures
        all_highlighted(s.byte_inserted(c, row_id, id)),
        all_highlighted(s.char_deleted()),
        all_highlighted(s.current_row_deleted()),
{
    let y = s.cursor.y as int;
    let x = s.cursor.x as int;
    let row = s.rows[y];
    lemma_changed_row(s, y, row.with_chars(row.chars.insert(x, CharView { byte: c, id })));
    assert(all_highlighted(s.byte_inserted(c, row_id, id)));
    if x > 0 {
        let col = cx2rx(row.bytes(), s.tab())[x];
        if !(x > row.chars.len() || col == 0) {
            let n = char_size(row.bytes(), s.tab(), (col - 1) as nat);
            lemma_changed_row(s, y, row.with_chars(row.chars.take(x - n) + row.chars.skip(x)));
        }
    } else if y > 0 {
        lemma_state_after_merge(s);
    }
    assert(all_highlighted(s.char_deleted()));
    lemma_removed_row(s);
}

proof fn lemma_removed_row(s: EditorView)
    requires
        all_highlighted(s),
        s.cursor.y < s.rows.len() <= usize::MAX,
    ensures
        all_highlighted(s.current_row_deleted()),
{
    let y = s.cursor.y as int;
    let rows = s.rows.update(y, s.rows[y].with_chars(Seq::empty()));
    lemma_changed_row(s, y, s.rows[y].with_chars(Seq::empty()));
    lemma_rehighlighted(rows, s.syntax, y as nat, start_state(rows, y as nat), false);
    let cleared = s.row_cleared().with_cursor(s.cursor.next_line());
    assert(all_highlighted(cleared)) by {
        assert(cleared.rows == s.with_rows(rows).row_updated(y as nat, false).rows);
        assert forall|i: int| 0 <= i < cleared.rows.len() implies #[trigger] is_highlighted(
            cleared.rows,
            cleared.syntax,
            i,
        ) by {
            assert(is_highlighted(
                s.with_rows(rows).row_updated(y as nat, false).rows,
                s.syntax,
                i,
            ));
        }
    }
    if y + 1 < s.rows.len() {
        lemma_state_after_merge(cleared);
    }
}

/// Enter at the beginning of a row keeps all highlight states right.
pub proof fn law_highlights_follow_enter(s: EditorView, row_id: Seq<char>)
    requires
        all_highlighted(s),
        s.cursor.x == 0,
        s.cursor.y <= s.rows.len(),
    ensures
        all_highlighted(s.new_line_inserted(row_id)),
{
    let y = s.cursor.y as int;
    let new = new_row(row_id, Seq::empty());
    let rows = s.rows.insert(y, new);
    let state = start_state(rows, y as nat);
    assert(bytes_of(Seq::<CharView>::empty()) =~= Seq::<u8>::empty());
    assert(s.syntax.next_state(new.bytes(), state) == state);
    let updated = rows.update(y, new.with_state(state));
    assert forall|i: int| 0 <= i < updated.len() implies #[trigger] is_highlighted(
        updated,
        s.syntax,
        i,
    ) by {
        if i < y {
            assert(is_highlighted(s.rows, s.syntax, i));
        } else if i > y {
            assert(is_highlighted(s.rows, s.syntax, i - 1));
            assert(updated[i] == s.rows[i - 1]);
            if i > y + 1 {
                assert(updated[i - 1] == s.rows[i - 2]);
            }
        }
    }
    assert(rows[y] == new);
    if state != HlState::Normal {
        law_update_highlights(updated, s.syntax, (y + 1) as nat);
        lemma_rehighlighted(updated, s.syntax, (y + 1) as nat, state, false);
        assert(start_state(updated, (y + 1) as nat) == state);
    }
    let result = rehighlighted(rows, s.syntax, y as nat, state, false);
    assert(result == if state != HlState::Normal {
        rehighlighted(updated, s.syntax, (y + 1) as nat, state, false)
    } else {
        updated
    });
    assert(s.new_line_inserted(row_id).rows == result);
    assert forall|i: int| 0 <= i < result.len() implies #[trigger] is_highlighted(
        result,
        s.syntax,
        i,
    ) by {}
}

/// Computing the states anew from row `i` on leaves the rows before it as they are, and makes the
/// state of row `i` right.
proof fn lemma_first_updated(
    rows: Seq<RowView>,
    syntax: ConfView,
    i: nat,
    state: HlState,
)
    requires
        i < rows.len(),
    ensures
        ({
            let r = rehighlighted(rows, syntax, i, state, false);
            &&& r.len() == rows.len()
            &&& forall|k: int| 0 <= k < i ==> #[trigger] r[k] == rows[k]
            &&& r[i as int] == rows[i as int].with_state(
                syntax.next_state(rows[i as int].bytes(), state),
            )
        }),
    decreases rows.len() - i,
{
    let next = syntax.next_state(rows[i as int].bytes(), state);
    let updated = rows.update(i as int, rows[i as int].with_state(next));
    if next != rows[i as int].hl_state && i + 1 < rows.len() {
        lemma_first_updated(updated, syntax, i + 1, next);
        assert(rehighlighted(updated, syntax, i + 1, next, false)[i as int] == updated[i as int]);
    } else if next != rows[i as int].hl_state {
        assert(rehighlighted(updated, syntax, i + 1, next, false) == updated);
    }
}

/// A row that Enter splits off, and a copy of a row, have the right highlight state, and so have
/// all rows before them.
pub proof fn law_highlights_of_new_rows(s: EditorView, row_id: Seq<char>, copy: Seq<CharView>)
    requires
        all_highlighted(s),
        s.cursor.y < s.rows.len(),
        0 < s.cursor.x <= s.row_len(),
    ensures
        ({
            let t = s.new_line_inserted(row_id);
            forall|i: int| 0 <= i <= s.cursor.y + 1 ==> #[trigger] is_highlighted(t.rows, s.syntax, i)
        }),
        ({
            let t = s.row_duplicated(row_id, copy);
            forall|i: int| 0 <= i <= s.cursor.y + 1 ==> #[trigger] is_highlighted(t.rows, s.syntax, i)
        }),
{
    let y = s.cursor.y as int;
    let row = s.rows[y];
    let x = s.cursor.x as int;
    lemma_changed_row(s, y, row.with_chars(row.chars.take(x)));
    let cut = s.with_rows(s.rows.update(y, row.with_chars(row.chars.take(x))));
    lemma_rehighlighted(cut.rows, s.syntax, y as nat, start_state(cut.rows, y as nat), false);
    let s0 = cut.row_updated(y as nat, false);
    lemma_inserted_row(s0, y + 1, new_row(row_id, row.chars.skip(x)));
    lemma_inserted_row(s, y + 1, new_row(row_id, copy));
    assert(s.new_line_inserted(row_id).rows == s0.with_rows(
        s0.rows.insert(y + 1, new_row(row_id, row.chars.skip(x))),
    ).row_updated((y + 1) as nat, false).rows);
    assert(s.row_duplicated(row_id, copy).rows == s.with_rows(
        s.rows.insert(y + 1, new_row(row_id, copy)),
    ).row_updated((y + 1) as nat, false).rows);
}

proof fn lemma_inserted_row(s: EditorView, y: int, row: RowView)
    requires
        0 < y <= s.rows.len(),
        all_highlighted(s),
    ensures
        ({
            let t = s.with_rows(s.rows.insert(y, row)).row_updated(y as nat, false);
            forall|i: int| 0 <= i <= y ==> #[trigger] is_highlighted(t.rows, s.syntax, i)
        }),
{
    let rows = s.rows.insert(y, row);
    let t = s.with_rows(rows).row_updated(y as nat, false);
    lemma_first_updated(rows, s.syntax, y as nat, start_state(rows, y as nat));
    assert forall|i: int| 0 <= i <= y implies #[trigger] is_highlighted(t.rows, s.syntax, i) by {
        if i < y {
            assert(is_highlighted(s.rows, s.syntax, i));
            assert(t.rows[i] == rows[i]);
            if i > 0 {
                assert(t.rows[i - 1] == rows[i - 1]);
            }
        } else {
            assert(t.rows[y - 1] == rows[y - 1]);
        }
    }
}

} // verus!
