//! Searching the text.
use vstd::arithmetic::div_mod::{
    lemma_add_mod_noop_right, lemma_mod_add_multiples_vanish, lemma_mod_self_0,
    lemma_small_mod, lemma_sub_mod_noop_right,
};
use vstd::prelude::*;
use vstd::string::*;
use vstd::utf8::encode_utf8;

use crate::cursor::CursorState;
use crate::file::row_bytes;
use crate::row::{collect_bytes, cx2rx, lemma_column, tab_width, RowView};
use crate::rows::{lemma_row_fits, lemma_total_update};
use crate::search::{occurs_at, slice_find};
use crate::state::{row_views, total_bytes, Editor, EditorView};
use crate::syntax::stands_at;

verus! {

/// The first place of `query` in `bytes` from position `from` on.
pub open spec fn first_place(bytes: Seq<u8>, query: Seq<u8>, from: nat) -> Option<nat>
    decreases bytes.len() - from + 1,
{
    if from + query.len() > bytes.len() {
        None
    } else if stands_at(bytes, query, from as int) {
        Some(from)
    } else {
        first_place(bytes, query, from + 1)
    }
}

/// The row that is searched in the `k`-th place, of `n` rows, starting behind (or before) row
/// `start` and going round.
pub open spec fn visited(start: int, k: int, n: int, forward: bool) -> int {
    if forward {
        (start + k) % n
    } else {
        (start - k) % n
    }
}

pub open spec fn holds(row: RowView, query: Seq<u8>) -> bool {
    first_place(row.bytes(), query, 0) is Some
}

/// The first row that holds the query, of those searched from the `k`-th place on.
pub open spec fn found_row(
    rows: Seq<RowView>,
    query: Seq<u8>,
    start: int,
    forward: bool,
    k: nat,
) -> Option<int>
    decreases rows.len() - k + 1,
{
    let i = visited(start, k as int, rows.len() as int, forward);
    if k > rows.len() {
        None
    } else if holds(rows[i], query) {
        Some(i)
    } else {
        found_row(rows, query, start, forward, k + 1)
    }
}

impl EditorView {
    /// The row behind which the search begins: the last match, or the last row.
    pub open spec fn search_start(self, last_match: Option<usize>) -> int {
        match last_match {
            Some(row) => row as int,
            None => if self.rows.len() > 0 {
                self.rows.len() - 1
            } else {
                0
            },
        }
    }

    /// The row of the match.
    pub open spec fn found(
        self,
        query: Seq<char>,
        last_match: Option<usize>,
        forward: bool,
    ) -> Option<int> {
        found_row(self.rows, encode_utf8(query), self.search_start(last_match), forward, 1)
    }

    /// The cursor was moved to the match in row `i`, which is shown as matched.
    pub open spec fn match_shown(self, i: int, query: Seq<char>) -> EditorView {
        let q = encode_utf8(query);
        let bytes = self.rows[i].bytes();
        let x = first_place(bytes, q, 0)->0 as int;
        let rx = cx2rx(bytes, self.tab())[x];
        self.with_rows(
            self.rows.update(
                i,
                self.rows[i].with_match(
                    Some(std::ops::Range { start: rx as usize, end: (rx + q.len()) as usize }),
                ),
            ),
        ).with_cursor(CursorState { x: x as usize, y: i as usize, coff: 0, ..self.cursor })
    }

    /// The state after a search.
    pub open spec fn searched(
        self,
        query: Seq<char>,
        last_match: Option<usize>,
        forward: bool,
    ) -> EditorView {
        match self.found(query, last_match, forward) {
            Some(i) => self.match_shown(i, query),
            None => self,
        }
    }

    /// The row numbers can be added.
    pub open spec fn find_ok(self, last_match: Option<usize>) -> bool {
        last_match matches Some(row) ==> row < self.rows.len() || row + self.rows.len()
            <= usize::MAX
    }

    /// No row is matched any longer: row `i` was, if it is given.
    pub open spec fn match_cleared(self, last_match: Option<usize>) -> EditorView {
        match last_match {
            Some(i) => self.with_rows(
                self.rows.update(i as int, self.rows[i as int].with_match(None)),
            ),
            None => self,
        }
    }
}

proof fn lemma_occurs(bytes: Seq<u8>, query: Seq<u8>, i: int)
    requires
        0 <= i,
    ensures
        occurs_at(bytes, query, i) == stands_at(bytes, query, i),
{
    if i + query.len() <= bytes.len() {
        let part = bytes.subrange(i, i + query.len());
        if occurs_at(bytes, query, i) {
            assert forall|k: int| 0 <= k < query.len() implies part[k] == query[k] by {
                assert(bytes[i + k] == part[k]);
                assert(bytes[i + k] == query[k]);
            }
            assert(part =~= query);
        }
        if stands_at(bytes, query, i) {
            assert forall|k: int| 0 <= k < query.len() implies bytes[i + k] == #[trigger] query[k] by {
                assert(bytes[i + k] == part[k]);
            }
        }
    }
}

/// What the first place is: the query stands there, and nowhere before.
pub proof fn lemma_first_place(bytes: Seq<u8>, query: Seq<u8>, from: nat)
    ensures
        match first_place(bytes, query, from) {
            Some(i) => from <= i && stands_at(bytes, query, i as int) && forall|j: int|
                from <= j < i ==> !stands_at(bytes, query, j),
            None => forall|j: int| from <= j ==> !stands_at(bytes, query, j),
        },
    decreases bytes.len() - from + 1,
{
    if from + query.len() <= bytes.len() && !stands_at(bytes, query, from as int) {
        lemma_first_place(bytes, query, from + 1);
    }
}

/// The index of the first place of the query.
fn find_bytes(bytes: &Vec<u8>, query: &[u8]) -> (r: Option<usize>)
    requires
        bytes@.len() < usize::MAX,
    ensures
        match r {
            Some(i) => first_place(bytes@, query@, 0) == Some(i as nat),
            None => first_place(bytes@, query@, 0) is None,
        },
{
    let r = slice_find(bytes.as_slice(), query);
    proof {
        lemma_first_place(bytes@, query@, 0);
        let first = first_place(bytes@, query@, 0);
        if let Some(i) = r {
            lemma_occurs(bytes@, query@, i as int);
        }
        if let Some(i) = first {
            lemma_occurs(bytes@, query@, i as int);
        }
        match (r, first) {
            (Some(i), Some(j)) => {
                if i < j {
                    assert(!stands_at(bytes@, query@, i as int));
                }
                if j < i {
                    assert(!occurs_at(bytes@, query@, j as int));
                }
            },
            (Some(i), None) => {
                assert(!stands_at(bytes@, query@, i as int));
            },
            (None, Some(j)) => {
                assert(!occurs_at(bytes@, query@, j as int));
            },
            (None, None) => {},
        }
    }
    r
}

proof fn lemma_visited_step(start: int, k: int, n: int, forward: bool, current: int)
    requires
        n > 0,
        k >= 0,
        current == if k == 0 {
            start
        } else {
            visited(start, k, n, forward)
        },
    ensures
        (current + if forward {
            1int
        } else {
            n - 1
        }) % n == visited(start, k + 1, n, forward),
        0 <= visited(start, k + 1, n, forward) < n,
{
    if forward {
        lemma_add_mod_noop_right(1, start + k, n);
    } else {
        lemma_add_mod_noop_right(n - 1, start - k, n);
        lemma_mod_add_multiples_vanish(start - k - 1, n);
    }
}

impl Editor {
    /// Try to find a query, this is called after pressing Ctrl-F and for each key that is pressed.
    /// `last_match` is the last row that was matched, `forward` indicates whether to search
    /// forward or backward. Returns the row of a new match, or `None` if the search was
    /// unsuccessful.
    pub fn find(&mut self, query: &str, last_match: &Option<usize>, forward: bool) -> (r: Option<
        usize,
    >)
        requires
            old(self).wf(),
            old(self)@.find_ok(*last_match),
        ensures
            final(self).wf(),
            final(self)@ == old(self)@.searched(query@, *last_match, forward),
            match r {
                Some(i) => old(self)@.found(query@, *last_match, forward) == Some(i as int),
                None => old(self)@.found(query@, *last_match, forward) is None,
            },
    {
        let ghost s0 = self@;
        let q = query.as_bytes();
        assert(q@ == encode_utf8(query@));
        let num_rows = self.rows.len();
        assert(num_rows == s0.rows.len());
        let mut current: usize = match last_match {
            Some(row) => *row,
            None => num_rows.saturating_sub(1),
        };
        let ghost start = s0.search_start(*last_match);
        let mut k: usize = 0;
        while k < num_rows
            invariant
                k <= num_rows,
                *self == *old(self),
                self@ == s0,
                self.wf(),
                q@ == encode_utf8(query@),
                num_rows == self.rows@.len() == s0.rows.len(),
                current == if k == 0 {
                    start
                } else {
                    visited(start, k as int, num_rows as int, forward)
                },
                num_rows > 0 ==> current < num_rows || current + num_rows <= usize::MAX,
                num_rows + 32 <= usize::MAX,
                start == s0.search_start(*last_match),
                s0.found(query@, *last_match, forward) == found_row(
                    s0.rows,
                    q@,
                    start,
                    forward,
                    (k + 1) as nat,
                ),
            decreases num_rows - k,
        {
            proof {
                lemma_visited_step(start, k as int, num_rows as int, forward, current as int);
            }
            current = next_row(current, num_rows, forward);
            let ghost i = current as int;
            let ghost bytes = self.rows@[i]@.bytes();
            proof {
                lemma_row_fits(s0.rows, i, total_bytes(s0.rows), s0.tab());
                assert(s0.rows[i] == self.rows@[i]@);
            }
            let row_bytes = collect_bytes(&self.rows[current].chars);
            if let Some(cx) = find_bytes(&row_bytes, q) {
                proof {
                    lemma_match_fits(*self, i, q@, cx as nat);
                    assert(s0.found(query@, *last_match, forward) == Some(i));
                }
                self.cursor.y = current;
                self.cursor.x = cx;
                // Try to reset the column offset; if the match is after the offset, this will be
                // updated in self.cursor.scroll() so that the result is visible
                self.cursor.coff = 0;
                let rx = self.rows[current].cx2rx[cx];
                self.rows[current].match_segment = Some(rx..rx + q.len());
                proof {
                    let new = s0.rows[i].with_match(
                        Some(std::ops::Range { start: rx, end: (rx + q@.len()) as usize }),
                    );
                    assert(self.rows@[i]@ == new);
                    assert(row_views(self.rows@) =~= s0.rows.update(i, new));
                    lemma_total_update(s0.rows, i, new);
                    assert(self@ == s0.match_shown(i, query@));
                }
                return Some(current);
            }
            k = k + 1;
        }
        None
    }

    /// Forget the match in row `row_idx`.
    pub fn clear_match(&mut self, row_idx: usize)
        requires
            old(self).wf(),
            row_idx < old(self).rows@.len(),
        ensures
            final(self).wf(),
            final(self)@ == old(self)@.match_cleared(Some(row_idx)),
    {
        let ghost s0 = self@;
        let ghost i = row_idx as int;
        self.rows[row_idx].match_segment = None;
        proof {
            let new = s0.rows[i].with_match(None);
            assert(self.rows@[i]@ == new);
            assert(row_views(self.rows@) =~= s0.rows.update(i, new));
            lemma_total_update(s0.rows, i, new);
        }
    }
}

/// A match can be shown.
proof fn lemma_match_fits(ed: Editor, i: int, q: Seq<u8>, cx: nat)
    requires
        ed.wf(),
        0 <= i < ed.rows@.len(),
        first_place(ed.rows@[i]@.bytes(), q, 0) == Some(cx),
    ensures
        cx < ed.rows@[i].cx2rx@.len(),
        ed.rows@[i].cx2rx@[cx as int] == cx2rx(ed.rows@[i]@.bytes(), ed@.tab())[cx as int],
        ed.rows@[i].cx2rx@[cx as int] + q.len() <= usize::MAX,
        cx + q.len() <= ed.rows@[i].chars@.len(),
{
    let bytes = ed.rows@[i]@.bytes();
    let tab = ed@.tab();
    lemma_first_place(bytes, q, 0);
    assert(ed@.rows[i] == ed.rows@[i]@);
    lemma_row_fits(ed@.rows, i, total_bytes(ed@.rows), tab);
    crate::row::lemma_tables(bytes, tab);
    lemma_column(bytes, tab, cx);
    let t = tab_width(tab);
    assert(cx * t + (bytes.len() - cx) <= (bytes.len() + 32) * t) by (nonlinear_arith)
        requires
            t >= 1,
            cx <= bytes.len(),
    ;
    assert(crate::row::nats(ed.rows@[i].cx2rx@)[cx as int] == ed.rows@[i].cx2rx@[cx as int]);
}

/// The row behind, or before, the current one, going round.
fn next_row(current: usize, num_rows: usize, forward: bool) -> (r: usize)
    requires
        num_rows > 0,
        current + num_rows <= usize::MAX || current < num_rows,
    ensures
        r == (current + if forward {
            1int
        } else {
            num_rows - 1
        }) % num_rows as int,
        r < num_rows,
{
    if forward {
        if current < num_rows {
            if current == num_rows - 1 {
                proof {
                    lemma_mod_self_0(num_rows as int);
                }
                0
            } else {
                proof {
                    lemma_small_mod((current + 1) as nat, num_rows as nat);
                }
                current + 1
            }
        } else {
            (current + 1) % num_rows
        }
    } else if current < num_rows {
        if current == 0 {
            proof {
                lemma_small_mod((num_rows - 1) as nat, num_rows as nat);
            }
            num_rows - 1
        } else {
            proof {
                lemma_mod_add_multiples_vanish(current - 1, num_rows as int);
                lemma_small_mod((current - 1) as nat, num_rows as nat);
            }
            current - 1
        }
    } else {
        (current + (num_rows - 1)) % num_rows
    }
}

/// A match is a row that holds the query, and no row that was searched before it does.
pub proof fn law_found_row(
    rows: Seq<RowView>,
    query: Seq<u8>,
    start: int,
    forward: bool,
    k: nat,
)
    requires
        k >= 1,
    ensures
        match found_row(rows, query, start, forward, k) {
            Some(i) => 0 <= i < rows.len() && holds(rows[i], query) && exists|m: int|
                k <= m <= rows.len() && i == #[trigger] visited(
                    start,
                    m,
                    rows.len() as int,
                    forward,
                ) && forall|j: int|
                    k <= j < m ==> !holds(
                        rows[#[trigger] visited(start, j, rows.len() as int, forward)],
                        query,
                    ),
            None => forall|j: int|
                k <= j <= rows.len() ==> !holds(
                    rows[#[trigger] visited(start, j, rows.len() as int, forward)],
                    query,
                ),
        },
    decreases rows.len() - k + 1,
{
    let n = rows.len() as int;
    if k <= rows.len() {
        let i = visited(start, k as int, n, forward);
        assert(0 <= i < n) by {
            vstd::arithmetic::div_mod::lemma_mod_bound(start + k, n);
            vstd::arithmetic::div_mod::lemma_mod_bound(start - k, n);
        }
        if !holds(rows[i], query) {
            law_found_row(rows, query, start, forward, k + 1);
            if let Some(found) = found_row(rows, query, start, forward, k + 1) {
                let m = choose|m: int|
                    k + 1 <= m <= rows.len() && found == #[trigger] visited(start, m, n, forward)
                        && forall|j: int|
                        k + 1 <= j < m ==> !holds(
                            rows[#[trigger] visited(start, j, n, forward)],
                            query,
                        );
                assert(found == visited(start, m, n, forward));
            }
        }
    }
}

proof fn lemma_every_row_visited(start: int, n: int, forward: bool, i: int)
    requires
        0 <= i < n,
    ensures
        exists|k: int| 1 <= k <= n && #[trigger] visited(start, k, n, forward) == i,
{
    let k = 1 + if forward {
        (i - start - 1) % n
    } else {
        (start - 1 - i) % n
    };
    if forward {
        lemma_add_mod_noop_right(start + 1, i - start - 1, n);
    } else {
        lemma_sub_mod_noop_right(start - 1, start - 1 - i, n);
    }
    lemma_small_mod(i as nat, n as nat);
    assert(visited(start, k, n, forward) == i);
}

/// A search fails only if no row holds the query.
pub proof fn law_search_is_complete(
    s: EditorView,
    query: Seq<char>,
    last_match: Option<usize>,
    forward: bool,
)
    ensures
        s.found(query, last_match, forward) is None <==> forall|i: int|
            0 <= i < s.rows.len() ==> !holds(#[trigger] s.rows[i], encode_utf8(query)),
{
    let q = encode_utf8(query);
    let start = s.search_start(last_match);
    let n = s.rows.len() as int;
    law_found_row(s.rows, q, start, forward, 1);
    if s.found(query, last_match, forward) is None {
        assert forall|i: int| 0 <= i < n implies !holds(#[trigger] s.rows[i], q) by {
            lemma_every_row_visited(start, n, forward, i);
            let k = choose|k: int| 1 <= k <= n && #[trigger] visited(start, k, n, forward) == i;
            assert(!holds(s.rows[visited(start, k, n, forward)], q));
        }
    }
}

proof fn lemma_match_keeps_text(
    rows: Seq<RowView>,
    i: int,
    segment: Option<std::ops::Range<usize>>,
)
    requires
        0 <= i < rows.len(),
    ensures
        row_bytes(rows.update(i, rows[i].with_match(segment))) == row_bytes(rows),
{
    assert(row_bytes(rows.update(i, rows[i].with_match(segment))) =~= row_bytes(rows));
}

/// A search leaves the text as it is.
pub proof fn law_search_keeps_text(
    s: EditorView,
    query: Seq<char>,
    last_match: Option<usize>,
    forward: bool,
)
    ensures
        ({
            let t = s.searched(query, last_match, forward);
            t.text() == s.text() && t.n_bytes == s.n_bytes && t.dirty == s.dirty
        }),
{
    let q = encode_utf8(query);
    law_found_row(s.rows, q, s.search_start(last_match), forward, 1);
    if let Some(i) = s.found(query, last_match, forward) {
        let t = s.match_shown(i, query);
        lemma_match_keeps_text(s.rows, i, t.rows[i].match_segment);
    }
}

/// Forgetting a match leaves the text as it is.
pub proof fn law_match_cleared_keeps_text(s: EditorView, last_match: Option<usize>)
    requires
        last_match matches Some(i) ==> i < s.rows.len(),
    ensures
        ({
            let t = s.match_cleared(last_match);
            t.text() == s.text() && t.n_bytes == s.n_bytes && t.dirty == s.dirty
        }),
{
    if let Some(i) = last_match {
        lemma_match_keeps_text(s.rows, i as int, None);
    }
}

/// After a successful search the query stands at the cursor, and nowhere before it in its line.
pub proof fn law_match_at_cursor(
    s: EditorView,
    query: Seq<char>,
    last_match: Option<usize>,
    forward: bool,
)
    requires
        s.wf(),
        s.found(query, last_match, forward) is Some,
    ensures
        ({
            let t = s.searched(query, last_match, forward);
            let line = s.text()[t.cursor.y as int];
            &&& t.cursor.y < s.rows.len()
            &&& stands_at(line, encode_utf8(query), t.cursor.x as int)
            &&& forall|j: int|
                0 <= j < t.cursor.x ==> !stands_at(line, encode_utf8(query), j)
        }),
{
    let q = encode_utf8(query);
    law_found_row(s.rows, q, s.search_start(last_match), forward, 1);
    let i = s.found(query, last_match, forward)->0;
    lemma_first_place(s.rows[i].bytes(), q, 0);
    lemma_row_fits(s.rows, i, total_bytes(s.rows), s.tab());
    assert(s.text()[i] == s.rows[i].bytes());
}

} // verus!
