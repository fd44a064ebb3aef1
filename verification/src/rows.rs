//! Sequences of rows: their bytes, and the highlight state that runs through them.
use vstd::prelude::*;

use crate::row::{fits, tab_width, Row, RowView};
use crate::state::{laid_out, row_views, total_bytes};
use crate::syntax::{Conf, ConfView, HlState};

verus! {

pub proof fn lemma_total_push(rows: Seq<RowView>, row: RowView)
    ensures
        total_bytes(rows.push(row)) == total_bytes(rows) + row.chars.len(),
{
    assert(rows.push(row).drop_last() == rows);
}

pub proof fn lemma_total_update(rows: Seq<RowView>, i: int, row: RowView)
    requires
        0 <= i < rows.len(),
    ensures
        total_bytes(rows.update(i, row)) == total_bytes(rows) - rows[i].chars.len()
            + row.chars.len(),
        rows[i].chars.len() <= total_bytes(rows),
    decreases rows.len(),
{
    if i == rows.len() - 1 {
        assert(rows.update(i, row).drop_last() == rows.drop_last());
    } else {
        assert(rows.update(i, row).drop_last() == rows.drop_last().update(i, row));
        lemma_total_update(rows.drop_last(), i, row);
    }
}

pub proof fn lemma_total_insert(rows: Seq<RowView>, i: int, row: RowView)
    requires
        0 <= i <= rows.len(),
    ensures
        total_bytes(rows.insert(i, row)) == total_bytes(rows) + row.chars.len(),
    decreases rows.len(),
{
    if i == rows.len() {
        assert(rows.insert(i, row) == rows.push(row));
        lemma_total_push(rows, row);
    } else {
        assert(rows.insert(i, row).drop_last() == rows.drop_last().insert(i, row));
        assert(rows.insert(i, row).last() == rows.last());
        lemma_total_insert(rows.drop_last(), i, row);
    }
}

pub proof fn lemma_total_remove(rows: Seq<RowView>, i: int)
    requires
        0 <= i < rows.len(),
    ensures
        total_bytes(rows.remove(i)) == total_bytes(rows) - rows[i].chars.len(),
{
    assert(rows.remove(i).insert(i, rows[i]) == rows);
    lemma_total_insert(rows.remove(i), i, rows[i]);
}

/// The first rows have not more bytes than all of them.
pub proof fn lemma_total_prefix(rows: Seq<RowView>, n: int)
    requires
        0 <= n <= rows.len(),
    ensures
        total_bytes(rows.take(n)) <= total_bytes(rows),
    decreases rows.len() - n,
{
    if n < rows.len() {
        assert(rows.take(n + 1).drop_last() == rows.take(n));
        lemma_total_prefix(rows, n + 1);
    } else {
        assert(rows.take(n) == rows);
    }
}

/// Two texts whose rows have the same lengths have the same number of bytes.
pub proof fn lemma_total_same(a: Seq<RowView>, b: Seq<RowView>)
    requires
        a.len() == b.len(),
        forall|i: int| 0 <= i < a.len() ==> (#[trigger] a[i]).chars.len() == b[i].chars.len(),
    ensures
        total_bytes(a) == total_bytes(b),
    decreases a.len(),
{
    if a.len() > 0 {
        assert forall|i: int| 0 <= i < a.len() - 1 implies (#[trigger] a.drop_last()[i]).chars.len()
            == b.drop_last()[i].chars.len() by {
            assert(a[i].chars.len() == b[i].chars.len());
        }
        lemma_total_same(a.drop_last(), b.drop_last());
        assert(a[a.len() - 1].chars.len() == b[a.len() - 1].chars.len());
    }
}

/// What can be laid out as a whole can be laid out in parts.
pub proof fn lemma_fits(n: nat, m: nat, tab: nat)
    requires
        fits(m, tab),
        n <= m,
    ensures
        fits(n, tab),
        m + 32 <= usize::MAX,
{
    assert((n + 32) * tab_width(tab) <= (m + 32) * tab_width(tab)) by (nonlinear_arith)
        requires
            n <= m,
            tab_width(tab) >= 1,
    ;
    assert((m + 32) * tab_width(tab) >= m + 32) by (nonlinear_arith)
        requires
            tab_width(tab) >= 1,
    ;
}

/// Each row can be laid out if the whole text can.
pub proof fn lemma_row_fits(rows: Seq<RowView>, i: int, total: nat, tab: nat)
    requires
        0 <= i < rows.len(),
        total_bytes(rows) <= total,
        fits(total, tab),
    ensures
        fits(rows[i].chars.len(), tab),
        rows[i].chars.len() + 32 <= usize::MAX,
{
    lemma_total_update(rows, i, rows[i]);
    lemma_fits(rows[i].chars.len(), total, tab);
}

/// The highlight state with which row `y` begins.
pub open spec fn start_state(rows: Seq<RowView>, y: nat) -> HlState {
    if y > 0 {
        rows[y - 1].hl_state
    } else {
        HlState::Normal
    }
}

/// The rows after the highlight states were computed anew from row `i` on, which begins with
/// `state`: up to the first row whose state does not change, or only that of row `i`.
pub open spec fn rehighlighted(
    rows: Seq<RowView>,
    syntax: ConfView,
    i: nat,
    state: HlState,
    once: bool,
) -> Seq<RowView>
    decreases rows.len() - i,
{
    if i >= rows.len() {
        rows
    } else {
        let next = syntax.next_state(rows[i as int].bytes(), state);
        let updated = rows.update(i as int, rows[i as int].with_state(next));
        if once || next == rows[i as int].hl_state {
            updated
        } else {
            rehighlighted(updated, syntax, i + 1, next, once)
        }
    }
}

/// The rows after all the highlight states from row `i` on were computed anew.
pub open spec fn all_rehighlighted(
    rows: Seq<RowView>,
    syntax: ConfView,
    i: nat,
    state: HlState,
) -> Seq<RowView>
    decreases rows.len() - i,
{
    if i >= rows.len() {
        rows
    } else {
        let next = syntax.next_state(rows[i as int].bytes(), state);
        all_rehighlighted(
            rows.update(i as int, rows[i as int].with_state(next)),
            syntax,
            i + 1,
            next,
        )
    }
}

/// Two texts differ at most in their highlight states.
pub open spec fn same_text(a: Seq<RowView>, b: Seq<RowView>) -> bool {
    &&& a.len() == b.len()
    &&& forall|i: int| 0 <= i < a.len() ==> #[trigger] a[i] == b[i].with_state(a[i].hl_state)
}

pub proof fn lemma_rehighlighted(
    rows: Seq<RowView>,
    syntax: ConfView,
    i: nat,
    state: HlState,
    once: bool,
)
    ensures
        same_text(rehighlighted(rows, syntax, i, state, once), rows),
        total_bytes(rehighlighted(rows, syntax, i, state, once)) == total_bytes(rows),
    decreases rows.len() - i,
{
    let result = rehighlighted(rows, syntax, i, state, once);
    if i < rows.len() {
        let next = syntax.next_state(rows[i as int].bytes(), state);
        let updated = rows.update(i as int, rows[i as int].with_state(next));
        if !(once || next == rows[i as int].hl_state) {
            lemma_rehighlighted(updated, syntax, i + 1, next, once);
        }
        assert forall|k: int| 0 <= k < rows.len() implies #[trigger] result[k]
            == rows[k].with_state(result[k].hl_state) by {
            assert(updated[k] == rows[k].with_state(updated[k].hl_state));
        }
    }
    assert forall|k: int| 0 <= k < rows.len() implies (#[trigger] result[k]).chars.len()
        == rows[k].chars.len() by {
        assert(result[k] == rows[k].with_state(result[k].hl_state));
    }
    lemma_total_same(result, rows);
}

pub proof fn lemma_all_rehighlighted(
    rows: Seq<RowView>,
    syntax: ConfView,
    i: nat,
    state: HlState,
)
    ensures
        same_text(all_rehighlighted(rows, syntax, i, state), rows),
        total_bytes(all_rehighlighted(rows, syntax, i, state)) == total_bytes(rows),
    decreases rows.len() - i,
{
    let result = all_rehighlighted(rows, syntax, i, state);
    if i < rows.len() {
        let next = syntax.next_state(rows[i as int].bytes(), state);
        let updated = rows.update(i as int, rows[i as int].with_state(next));
        lemma_all_rehighlighted(updated, syntax, i + 1, next);
        assert forall|k: int| 0 <= k < rows.len() implies #[trigger] result[k]
            == rows[k].with_state(result[k].hl_state) by {
            assert(updated[k] == rows[k].with_state(updated[k].hl_state));
        }
    }
    assert forall|k: int| 0 <= k < rows.len() implies (#[trigger] result[k]).chars.len()
        == rows[k].chars.len() by {
        assert(result[k] == rows[k].with_state(result[k].hl_state));
    }
    lemma_total_same(result, rows);
}

/// Computes the layout and the highlight state of row `y`, and those of the rows behind it up to
/// the first one whose state does not change, unless only row `y` is wanted.
pub fn update_rows(rows: &mut Vec<Row>, syntax: &Conf, tab: usize, y: usize, once: bool)
    requires
        y <= old(rows)@.len(),
        fits(total_bytes(row_views(old(rows)@)), tab as nat),
        forall|i: int|
            0 <= i < old(rows)@.len() && i != y ==> (#[trigger] old(rows)@[i]).laid_out(tab as nat),
    ensures
        row_views(final(rows)@) == rehighlighted(
            row_views(old(rows)@),
            syntax@,
            y as nat,
            start_state(row_views(old(rows)@), y as nat),
            once,
        ),
        laid_out(final(rows)@, tab as nat),
{
    let ghost before = row_views(rows@);
    let mut state = if y > 0 { rows[y - 1].hl_state } else { HlState::Normal };
    let mut i: usize = y;
    while i < rows.len()
        invariant
            y <= i <= rows@.len(),
            before == row_views(old(rows)@),
            rows@.len() == before.len(),
            fits(total_bytes(before), tab as nat),
            total_bytes(row_views(rows@)) == total_bytes(before),
            rehighlighted(
                before,
                syntax@,
                y as nat,
                start_state(before, y as nat),
                once,
            ) == rehighlighted(row_views(rows@), syntax@, i as nat, state, once),
            once ==> i == y,
            forall|k: int|
                0 <= k < rows@.len() && (i == y ==> k != y) ==> (#[trigger] rows@[k]).laid_out(
                    tab as nat,
                ),
        decreases rows@.len() - i,
    {
        let ghost old_views = row_views(rows@);
        proof {
            lemma_row_fits(old_views, i as int, total_bytes(before), tab as nat);
        }
        let previous = rows[i].hl_state;
        assert(old_views[i as int].hl_state == previous);
        state = rows[i].update(syntax, state, tab);
        assert(row_views(rows@) =~= old_views.update(
            i as int,
            old_views[i as int].with_state(state),
        ));
        proof {
            lemma_total_update(old_views, i as int, old_views[i as int].with_state(state));
        }
        if once || state == previous {
            return;
        }
        i = i + 1;
    }
}

/// Computes the layout and the highlight state of all the rows.
pub fn update_all(rows: &mut Vec<Row>, syntax: &Conf, tab: usize)
    requires
        fits(total_bytes(row_views(old(rows)@)), tab as nat),
        laid_out(old(rows)@, tab as nat),
    ensures
        row_views(final(rows)@) == all_rehighlighted(
            row_views(old(rows)@),
            syntax@,
            0,
            HlState::Normal,
        ),
        laid_out(final(rows)@, tab as nat),
{
    let ghost before = row_views(rows@);
    let mut state = HlState::Normal;
    let mut i: usize = 0;
    while i < rows.len()
        invariant
            i <= rows@.len(),
            before == row_views(old(rows)@),
            rows@.len() == before.len(),
            fits(total_bytes(before), tab as nat),
            total_bytes(row_views(rows@)) == total_bytes(before),
            all_rehighlighted(before, syntax@, 0, HlState::Normal) == all_rehighlighted(
                row_views(rows@),
                syntax@,
                i as nat,
                state,
            ),
            laid_out(rows@, tab as nat),
        decreases rows@.len() - i,
    {
        let ghost old_views = row_views(rows@);
        proof {
            lemma_row_fits(old_views, i as int, total_bytes(before), tab as nat);
        }
        state = rows[i].update(syntax, state, tab);
        assert(row_views(rows@) =~= old_views.update(
            i as int,
            old_views[i as int].with_state(state),
        ));
        proof {
            lemma_total_update(old_views, i as int, old_views[i as int].with_state(state));
        }
        i = i + 1;
    }
}

/// The highlight state of row `i` follows from its text and the state of the row before it.
pub open spec fn is_highlighted(rows: Seq<RowView>, syntax: ConfView, i: int) -> bool {
    rows[i].hl_state == syntax.next_state(rows[i].bytes(), start_state(rows, i as nat))
}

/// Updating a row makes all highlight states right, if those of all other rows were.
pub proof fn law_update_highlights(rows: Seq<RowView>, syntax: ConfView, y: nat)
    requires
        forall|i: int|
            0 <= i < rows.len() && i != y ==> #[trigger] is_highlighted(rows, syntax, i),
    ensures
        ({
            let updated = rehighlighted(rows, syntax, y, start_state(rows, y), false);
            forall|i: int| 0 <= i < rows.len() ==> #[trigger] is_highlighted(updated, syntax, i)
        }),
    decreases rows.len() - y,
{
    let result = rehighlighted(rows, syntax, y, start_state(rows, y), false);
    if y < rows.len() {
        let next = syntax.next_state(rows[y as int].bytes(), start_state(rows, y));
        let updated = rows.update(y as int, rows[y as int].with_state(next));
        let stops = next == rows[y as int].hl_state;
        assert forall|i: int| 0 <= i < rows.len() && (stops || i != y + 1) implies
            #[trigger] is_highlighted(updated, syntax, i) by {
            if i != y {
                assert(is_highlighted(rows, syntax, i));
            }
        }
        if !stops {
            assert(start_state(updated, y + 1) == next);
            law_update_highlights(updated, syntax, y + 1);
            assert(result == rehighlighted(updated, syntax, y + 1, next, false));
        } else {
            assert(result == updated);
        }
    } else {
        assert(result == rows);
    }
    assert forall|i: int| 0 <= i < rows.len() implies #[trigger] is_highlighted(
        result,
        syntax,
        i,
    ) by {}
}

/// Updating all rows from row `y` on makes their highlight states right, if those of the rows
/// before were.
pub proof fn law_update_all_highlights(rows: Seq<RowView>, syntax: ConfView, y: nat)
    requires
        forall|i: int| 0 <= i < rows.len() && i < y ==> #[trigger] is_highlighted(rows, syntax, i),
    ensures
        ({
            let updated = all_rehighlighted(rows, syntax, y, start_state(rows, y));
            forall|i: int| 0 <= i < rows.len() ==> #[trigger] is_highlighted(updated, syntax, i)
        }),
    decreases rows.len() - y,
{
    let result = all_rehighlighted(rows, syntax, y, start_state(rows, y));
    if y < rows.len() {
        let next = syntax.next_state(rows[y as int].bytes(), start_state(rows, y));
        let updated = rows.update(y as int, rows[y as int].with_state(next));
        assert forall|i: int| 0 <= i < rows.len() && i < y + 1 implies #[trigger] is_highlighted(
            updated,
            syntax,
            i,
        ) by {
            if i != y {
                assert(is_highlighted(rows, syntax, i));
            }
        }
        assert(start_state(updated, y + 1) == next);
        law_update_all_highlights(updated, syntax, y + 1);
        assert(result == all_rehighlighted(updated, syntax, y + 1, next));
    } else {
        assert(result == rows);
    }
    assert forall|i: int| 0 <= i < rows.len() implies #[trigger] is_highlighted(
        result,
        syntax,
        i,
    ) by {}
}

} // verus!
