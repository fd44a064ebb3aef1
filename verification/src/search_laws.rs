//! What the search prompt finds.
use vstd::arithmetic::div_mod::{lemma_mod_add_multiples_vanish, lemma_small_mod};
use vstd::prelude::*;
use vstd::utf8::encode_utf8;

use crate::cursor::CursorState;
use crate::find::{
    first_place, holds, law_found_row, law_match_at_cursor, law_match_cleared_keeps_text,
    law_search_is_complete, law_search_keeps_text, lemma_first_place, visited,
};
use crate::keys::{AKey, Key};
use crate::prompt::{prompted, search_direction, PromptStateView};
use crate::row::{cx2rx, RowView};
use crate::rows::{lemma_row_fits, lemma_total_same};
use crate::state::{total_bytes, EditorView, PromptView};
use crate::step::StepView;
use crate::syntax::stands_at;

verus! {

/// Whether `query` stands somewhere in `line`.
pub open spec fn contains_query(line: Seq<u8>, query: Seq<u8>) -> bool {
    exists|x: int|
        0 <= x <= line.len() - query.len() && #[trigger] line.subrange(x, x + query.len()) == query
}

proof fn lemma_holds(row: RowView, query: Seq<u8>)
    ensures
        holds(row, query) == contains_query(row.bytes(), query),
{
    let line = row.bytes();
    lemma_first_place(line, query, 0);
    if holds(row, query) {
        let x = first_place(line, query, 0)->0 as int;
        assert(line.subrange(x, x + query.len()) == query);
    }
    if contains_query(line, query) {
        let x = choose|x: int|
            0 <= x <= line.len() - query.len() && #[trigger] line.subrange(x, x + query.len())
                == query;
        assert(stands_at(line, query, x));
    }
}

/// Row `i` is the nearest one behind row `r` that holds the query, going round: no row strictly
/// between does.
pub open spec fn nearest_behind(text: Seq<Seq<u8>>, query: Seq<u8>, r: int, i: int) -> bool {
    &&& 0 <= i < text.len()
    &&& contains_query(text[i], query)
    &&& forall|k: int|
        0 <= k < text.len() && (if r < i {
            r < k < i
        } else {
            k > r || k < i
        }) ==> !contains_query(#[trigger] text[k], query)
}

/// Row `i` is the nearest one before row `r` that holds the query, going round: no row strictly
/// between does.
pub open spec fn nearest_before(text: Seq<Seq<u8>>, query: Seq<u8>, r: int, i: int) -> bool {
    &&& 0 <= i < text.len()
    &&& contains_query(text[i], query)
    &&& forall|k: int|
        0 <= k < text.len() && (if i < r {
            i < k < r
        } else {
            k < r || k > i
        }) ==> !contains_query(#[trigger] text[k], query)
}

/// No row holds the query.
pub open spec fn nowhere(text: Seq<Seq<u8>>, query: Seq<u8>) -> bool {
    forall|k: int| 0 <= k < text.len() ==> !contains_query(#[trigger] text[k], query)
}

/// The remainder of a number that is at most one round off.
proof fn lemma_round(a: int, n: int)
    requires
        n > 0,
        -n <= a < 2 * n,
    ensures
        a % n == if a < 0 {
            a + n
        } else if a < n {
            a
        } else {
            a - n
        },
{
    if a < 0 {
        lemma_mod_add_multiples_vanish(a, n);
        lemma_small_mod((a + n) as nat, n as nat);
    } else if a < n {
        lemma_small_mod(a as nat, n as nat);
    } else {
        lemma_mod_add_multiples_vanish(a - n, n);
        lemma_small_mod((a - n) as nat, n as nat);
    }
}

/// What a search finds, started behind or before row `r`.
proof fn lemma_found(s: EditorView, query: Seq<char>, r: usize, forward: bool)
    requires
        r < s.rows.len(),
    ensures
        match s.found(query, Some(r), forward) {
            Some(i) => if forward {
                nearest_behind(s.text(), encode_utf8(query), r as int, i)
            } else {
                nearest_before(s.text(), encode_utf8(query), r as int, i)
            },
            None => nowhere(s.text(), encode_utf8(query)),
        },
{
    let q = encode_utf8(query);
    let n = s.rows.len() as int;
    let start = r as int;
    assert forall|k: int| 0 <= k < n implies holds(#[trigger] s.rows[k], q) == contains_query(
        s.text()[k],
        q,
    ) by {
        lemma_holds(s.rows[k], q);
        assert(s.text()[k] == s.rows[k].bytes());
    }
    law_found_row(s.rows, q, start, forward, 1);
    match s.found(query, Some(r), forward) {
        Some(i) => {
            let m = choose|m: int|
                1 <= m <= n && i == #[trigger] visited(start, m, n, forward) && forall|j: int|
                    1 <= j < m ==> !holds(s.rows[#[trigger] visited(start, j, n, forward)], q);
            if forward {
                lemma_round(start + m, n);
            } else {
                lemma_round(start - m, n);
            }
            assert forall|k: int|
                0 <= k < n && (if forward {
                    if start < i {
                        start < k < i
                    } else {
                        k > start || k < i
                    }
                } else {
                    if i < start {
                        i < k < start
                    } else {
                        k < start || k > i
                    }
                }) implies !contains_query(#[trigger] s.text()[k], q) by {
                let j = if forward {
                    if k > start {
                        k - start
                    } else {
                        k - start + n
                    }
                } else {
                    if k < start {
                        start - k
                    } else {
                        start - k + n
                    }
                };
                if forward {
                    lemma_round(start + j, n);
                } else {
                    lemma_round(start - j, n);
                }
                assert(visited(start, j, n, forward) == k);
                assert(!holds(s.rows[k], q));
            }
            assert(holds(s.rows[i], q) == contains_query(s.text()[i], q));
        },
        None => {
            law_search_is_complete(s, query, Some(r), forward);
            assert forall|k: int| 0 <= k < n implies !contains_query(#[trigger] s.text()[k], q) by {
                assert(!holds(s.rows[k], q));
            }
        },
    }
}

/// What a search from the start finds: the first row that holds the query.
proof fn lemma_found_first(s: EditorView, query: Seq<char>)
    ensures
        match s.found(query, None, true) {
            Some(i) => 0 <= i < s.rows.len() && contains_query(s.text()[i], encode_utf8(query))
                && forall|k: int|
                0 <= k < i ==> !contains_query(#[trigger] s.text()[k], encode_utf8(query)),
            None => nowhere(s.text(), encode_utf8(query)),
        },
{
    let q = encode_utf8(query);
    if s.rows.len() > 0 {
        let last = s.rows.len() - 1;
        if s.rows.len() <= usize::MAX {
            lemma_found(s, query, last as usize, true);
            assert(s.found(query, None, true) == s.found(query, Some(last as usize), true));
        } else {
            lemma_found_from_last(s, query);
        }
    }
}

/// The same for texts of any length.
proof fn lemma_found_from_last(s: EditorView, query: Seq<char>)
    requires
        s.rows.len() > 0,
    ensures
        match s.found(query, None, true) {
            Some(i) => 0 <= i < s.rows.len() && contains_query(s.text()[i], encode_utf8(query))
                && forall|k: int|
                0 <= k < i ==> !contains_query(#[trigger] s.text()[k], encode_utf8(query)),
            None => nowhere(s.text(), encode_utf8(query)),
        },
{
    let q = encode_utf8(query);
    let n = s.rows.len() as int;
    assert forall|k: int| 0 <= k < n implies holds(#[trigger] s.rows[k], q) == contains_query(
        s.text()[k],
        q,
    ) by {
        lemma_holds(s.rows[k], q);
        assert(s.text()[k] == s.rows[k].bytes());
    }
    law_found_row(s.rows, q, n - 1, true, 1);
    match s.found(query, None, true) {
        Some(i) => {
            let m = choose|m: int|
                1 <= m <= n && i == #[trigger] visited(n - 1, m, n, true) && forall|j: int|
                    1 <= j < m ==> !holds(s.rows[#[trigger] visited(n - 1, j, n, true)], q);
            lemma_round(n - 1 + m, n);
            assert forall|k: int| 0 <= k < i implies !contains_query(#[trigger] s.text()[k], q) by {
                lemma_round(n + k, n);
                assert(visited(n - 1, k + 1, n, true) == k);
                assert(!holds(s.rows[k], q));
            }
            assert(holds(s.rows[i], q) == contains_query(s.text()[i], q));
        },
        None => {
            law_search_is_complete(s, query, None, true);
            assert forall|k: int| 0 <= k < n implies !contains_query(#[trigger] s.text()[k], q) by {
                assert(!holds(s.rows[k], q));
            }
        },
    }
}

/// The cursor stands at the first place of the query in row `i`, and the screen begins at the left
/// edge.
pub open spec fn cursor_at_match(s: EditorView, query: Seq<u8>, i: int) -> bool {
    &&& s.cursor.y == i
    &&& s.cursor.x + query.len() <= s.text()[i].len()
    &&& s.text()[i].subrange(s.cursor.x as int, s.cursor.x + query.len()) == query
    &&& forall|x: int|
        0 <= x < s.cursor.x ==> #[trigger] s.text()[i].subrange(x, x + query.len()) != query
    &&& s.cursor.coff == 0
}

proof fn lemma_cleared(s: EditorView, last_match: Option<usize>)
    requires
        s.wf(),
        last_match matches Some(r) ==> r < s.rows.len(),
    ensures
        ({
            let t = s.without_status().match_cleared(last_match);
            &&& t.wf()
            &&& t.text() == s.text()
            &&& t.rows.len() == s.rows.len()
            &&& t.cursor == s.cursor
        }),
{
    let t = s.without_status().match_cleared(last_match);
    law_match_cleared_keeps_text(s.without_status(), last_match);
    lemma_total_same(t.rows, s.rows);
}

proof fn lemma_at_match(
    s: EditorView,
    query: Seq<char>,
    last_match: Option<usize>,
    forward: bool,
)
    requires
        s.wf(),
        s.found(query, last_match, forward) is Some,
    ensures
        cursor_at_match(
            s.searched(query, last_match, forward),
            encode_utf8(query),
            s.found(query, last_match, forward)->0,
        ),
{
    let q = encode_utf8(query);
    let i = s.found(query, last_match, forward)->0;
    let t = s.searched(query, last_match, forward);
    law_match_at_cursor(s, query, last_match, forward);
    law_search_keeps_text(s, query, last_match, forward);
    law_found_row(s.rows, q, s.search_start(last_match), forward, 1);
    let line = s.text()[i];
    assert forall|x: int| 0 <= x < t.cursor.x implies #[trigger] line.subrange(x, x + q.len())
        != q by {
        assert(!stands_at(line, q, x));
    }
}

/// The row from which the arrow keys go on: that of the last match, or the last row if there is
/// none.
pub open spec fn search_from(s: EditorView, last_match: Option<usize>) -> int {
    if last_match is Some {
        last_match->0 as int
    } else {
        s.rows.len() - 1
    }
}

/// In the search prompt, Down, Right and Ctrl-F lead to the nearest row behind the last match that
/// holds the query, Up and Left to the nearest one before it, going round. The cursor goes to the
/// query there, and the place it had before the search is kept. If no row holds the query, the
/// cursor stays.
pub proof fn law_next_match(
    s: EditorView,
    query: Seq<char>,
    saved: CursorState,
    last_match: Option<usize>,
    key: Key,
)
    requires
        s.wf(),
        s.rows.len() > 0,
        last_match matches Some(r) ==> r < s.rows.len(),
        key == Key::Arrow(AKey::Down) || key == Key::Arrow(AKey::Right) || key == Key::Char(0x06)
            || key == Key::Arrow(AKey::Up) || key == Key::Arrow(AKey::Left),
    ensures
        s.prompt_ok(PromptView::Find(query, saved, last_match), key),
        ({
            let (t, step) = s.prompt_processed(PromptView::Find(query, saved, last_match), key);
            let q = encode_utf8(query);
            let r = search_from(s, last_match);
            let back = key == Key::Arrow(AKey::Up) || key == Key::Arrow(AKey::Left);
            match step {
                StepView::Prompt(Some(PromptView::Find(b, c, Some(i)))) => {
                    &&& b == query && c == saved
                    &&& back ==> nearest_before(s.text(), q, r, i as int)
                    &&& !back ==> nearest_behind(s.text(), q, r, i as int)
                    &&& t.text() == s.text()
                    &&& cursor_at_match(t, q, i as int)
                },
                StepView::Prompt(Some(PromptView::Find(b, c, None))) => {
                    &&& b == query && c == saved
                    &&& nowhere(s.text(), q)
                    &&& t.cursor == s.cursor && t.text() == s.text()
                },
                _ => false,
            }
        }),
{
    let m = s.without_status().match_cleared(last_match);
    let back = key == Key::Arrow(AKey::Up) || key == Key::Arrow(AKey::Left);
    lemma_cleared(s, last_match);
    let r = search_from(s, last_match) as usize;
    lemma_found(m, query, r, !back);
    assert(m.found(query, last_match, !back) == m.found(query, Some(r), !back));
    law_search_keeps_text(m, query, last_match, !back);
    if m.found(query, last_match, !back) is Some {
        lemma_at_match(m, query, last_match, !back);
    }
}

/// Every other key but Enter, Escape and Ctrl-Q starts the search anew, with the query that it
/// leaves: a printable ASCII character is added to it, and Backspace and Ctrl-H take the last one
/// back. The search leads to the first row that holds the query.
pub proof fn law_query_entered(
    s: EditorView,
    buffer: Seq<char>,
    saved: CursorState,
    last_match: Option<usize>,
    key: Key,
)
    requires
        s.wf(),
        last_match matches Some(r) ==> r < s.rows.len(),
        key != Key::Escape && key != Key::Char(0x0d) && key != Key::Char(0x11),
        key != Key::Char(0x06) && !(key is Arrow),
    ensures
        ({
            let (t, step) = s.prompt_processed(PromptView::Find(buffer, saved, last_match), key);
            let query = match key {
                Key::Char(c) => if 0x20 <= c && c < 0x7f {
                    buffer.push(c as char)
                } else if (c == 0x7f || c == 0x08) && buffer.len() > 0 {
                    buffer.drop_last()
                } else {
                    buffer
                },
                _ => buffer,
            };
            let q = encode_utf8(query);
            match step {
                StepView::Prompt(Some(PromptView::Find(b, k, Some(i)))) => {
                    &&& b == query && k == saved
                    &&& i < s.rows.len()
                    &&& contains_query(s.text()[i as int], q)
                    &&& forall|j: int| 0 <= j < i ==> !contains_query(#[trigger] s.text()[j], q)
                    &&& t.text() == s.text()
                    &&& cursor_at_match(t, q, i as int)
                },
                StepView::Prompt(Some(PromptView::Find(b, k, None))) => {
                    &&& b == query && k == saved
                    &&& nowhere(s.text(), q)
                    &&& t.cursor == s.cursor && t.text() == s.text()
                },
                _ => false,
            }
        }),
{
    let m = s.without_status().match_cleared(last_match);
    let query = match key {
        Key::Char(c) => if 0x20 <= c && c < 0x7f {
            buffer.push(c as char)
        } else if (c == 0x7f || c == 0x08) && buffer.len() > 0 {
            buffer.drop_last()
        } else {
            buffer
        },
        _ => buffer,
    };
    lemma_cleared(s, last_match);
    lemma_found_first(m, query);
    law_search_keeps_text(m, query, None, true);
    if m.found(query, None, true) is Some {
        lemma_at_match(m, query, None, true);
    }
}

/// Enter ends the search where it has led to.
pub proof fn law_search_completed(
    s: EditorView,
    query: Seq<char>,
    saved: CursorState,
    last_match: Option<usize>,
)
    requires
        s.wf(),
        last_match matches Some(r) ==> r < s.rows.len(),
    ensures
        ({
            let (t, step) = s.prompt_processed(
                PromptView::Find(query, saved, last_match),
                Key::Char(0x0d),
            );
            &&& step == StepView::Prompt(None)
            &&& t == EditorView { rows: t.rows, status_msg: None, ..s }
            &&& t.text() == s.text()
        }),
{
    lemma_cleared(s, last_match);
}

/// Of rows that hold the query, the nearest before the nearest behind is the first one.
proof fn lemma_back_and_forth(text: Seq<Seq<u8>>, query: Seq<u8>, r: int, i: int, k: int)
    requires
        0 <= r < text.len(),
        contains_query(text[r], query),
        nearest_behind(text, query, r, i),
        nearest_before(text, query, i, k),
    ensures
        k == r,
{
    if k != r {
        if k < i {
            // r must not lie strictly between k and i, nor k between r and i
            if r < i {
                if r > k {
                    assert(!contains_query(text[r], query));
                } else {
                    assert(!contains_query(text[k], query));
                }
            } else {
                assert(!contains_query(text[k], query));
            }
        } else {
            if r < i {
                assert(!contains_query(text[r], query));
            } else if r > k {
                assert(!contains_query(text[r], query));
            } else if k > r {
                assert(!contains_query(text[k], query));
            }
        }
    }
}

/// Up takes back Down: from a match, the row before the row behind is that of the match.
pub proof fn law_up_undoes_down(
    s: EditorView,
    query: Seq<char>,
    saved: CursorState,
    r: usize,
)
    requires
        s.wf(),
        r < s.rows.len(),
        contains_query(s.text()[r as int], encode_utf8(query)),
    ensures
        ({
            let (t, step) = s.prompt_processed(
                PromptView::Find(query, saved, Some(r)),
                Key::Arrow(AKey::Down),
            );
            &&& step matches StepView::Prompt(Some(mode)) && t.prompt_processed(
                mode,
                Key::Arrow(AKey::Up),
            ).1 == StepView::Prompt(Some(PromptView::Find(query, saved, Some(r))))
        }),
{
    let (t, step) = s.prompt_processed(
        PromptView::Find(query, saved, Some(r)),
        Key::Arrow(AKey::Down),
    );
    law_next_match(s, query, saved, Some(r), Key::Arrow(AKey::Down));
    let m = s.without_status().match_cleared(Some(r));
    lemma_cleared(s, Some(r));
    let i = match step {
        StepView::Prompt(Some(PromptView::Find(_, _, Some(i)))) => i,
        _ => 0,
    };
    assert(t.wf()) by {
        lemma_searched_wf(m, query, Some(r), true);
    }
    law_next_match(t, query, saved, Some(i), Key::Arrow(AKey::Up));
    let k = match t.prompt_processed(
        PromptView::Find(query, saved, Some(i)),
        Key::Arrow(AKey::Up),
    ).1 {
        StepView::Prompt(Some(PromptView::Find(_, _, Some(k)))) => k,
        _ => 0,
    };
    assert(contains_query(t.text()[r as int], encode_utf8(query)));
    lemma_back_and_forth(s.text(), encode_utf8(query), r as int, i as int, k as int);
}

proof fn lemma_searched_wf(
    s: EditorView,
    query: Seq<char>,
    last_match: Option<usize>,
    forward: bool,
)
    requires
        s.wf(),
    ensures
        s.searched(query, last_match, forward).wf(),
        s.searched(query, last_match, forward).rows.len() == s.rows.len(),
{
    let t = s.searched(query, last_match, forward);
    law_found_row(s.rows, encode_utf8(query), s.search_start(last_match), forward, 1);
    lemma_total_same(t.rows, s.rows);
}

/// The rows that are shown as matched: at most that of the last match.
pub open spec fn only_marked(s: EditorView, row: Option<usize>) -> bool {
    forall|i: int|
        0 <= i < s.rows.len() && row != Some(i as usize) ==> (
        #[trigger] s.rows[i]).match_segment is None
}

/// Of all rows only that of the last match is shown as matched: from its column on, for as many
/// columns as the query has bytes. When the search is left, no row is.
pub proof fn law_match_is_marked(
    s: EditorView,
    buffer: Seq<char>,
    saved: CursorState,
    last_match: Option<usize>,
    key: Key,
)
    requires
        s.wf(),
        last_match matches Some(r) ==> r < s.rows.len(),
        only_marked(s, last_match),
    ensures
        ({
            let (t, step) = s.prompt_processed(PromptView::Find(buffer, saved, last_match), key);
            match step {
                StepView::Prompt(Some(PromptView::Find(query, _, Some(i)))) => {
                    let c = cx2rx(s.text()[i as int], s.tab())[t.cursor.x as int];
                    &&& only_marked(t, Some(i))
                    &&& t.rows[i as int].match_segment == Some(
                        std::ops::Range {
                            start: c as usize,
                            end: (c + encode_utf8(query).len()) as usize,
                        },
                    )
                },
                _ => only_marked(t, None),
            }
        }),
{
    let m = s.without_status().match_cleared(last_match);
    lemma_cleared(s, last_match);
    assert(only_marked(m, None)) by {
        assert forall|i: int| 0 <= i < m.rows.len() implies (
        #[trigger] m.rows[i]).match_segment is None by {
            if last_match != Some(i as usize) {
                assert(s.rows[i].match_segment is None);
                if let Some(r) = last_match {
                    assert(r != i) by {
                        if r == i {
                            assert(last_match == Some(i as usize));
                        }
                    }
                }
            }
        }
    }
    if let PromptStateView::Active(query) = prompted(buffer, key) {
        let (start, forward) = search_direction(key, last_match);
        let q = encode_utf8(query);
        law_found_row(m.rows, q, m.search_start(start), forward, 1);
        if let Some(i) = m.found(query, start, forward) {
            let t = m.match_shown(i, query);
            assert(m.text()[i] == m.rows[i].bytes());
            lemma_first_place(m.rows[i].bytes(), q, 0);
            lemma_row_fits(m.rows, i, total_bytes(m.rows), m.tab());
            assert forall|k: int|
                0 <= k < t.rows.len() && Some(i as usize) != Some(k as usize) implies (
            #[trigger] t.rows[k]).match_segment is None by {
                assert(m.rows[k].match_segment is None);
            }
        }
    }
}

} // verus!
