//! What holds from the start of the editor on: of its window, of what is loaded, and of saving.
use vstd::prelude::*;

use crate::config::Config;
use crate::document::{
    char_in, chars_in, document, row_in, rows_in, rows_of, DocumentError, BYTE_KEY, CHARS_KEY,
    ID_KEY, ROWS_KEY,
};
use crate::exchange::{ExchangeView, ReplyView, RequestView};
use crate::file::{lines, LINE_FEED};
use crate::json::Json;
use crate::remote::{is_url, password_set, user_set, username_set, ConnectionView, UrlView};
use crate::row::RowView;
use crate::rows::{is_highlighted, law_update_all_highlights, lemma_all_rehighlighted};
use crate::screen_laws::fills_window;
use crate::session::{started, PlanView, SaveOutcomeView};
use crate::state::{countable, total_bytes, AdapterReadyFor, EditorView, PromptView, HELP_MESSAGE};
use crate::syntax::{ConfView, HlState};
use crate::text::decimal;

verus! {

/// All highlight states are right.
pub open spec fn all_highlighted(s: EditorView) -> bool {
    forall|i: int| 0 <= i < s.rows.len() ==> #[trigger] is_highlighted(s.rows, s.syntax, i)
}

/// A window is filled: with the text, but for the two last lines, and with the line numbers.
/// Nothing else changes.
pub proof fn law_window(s: EditorView, rows: usize, cols: usize)
    ensures
        ({
            let t = s.window_resized(rows, cols);
            &&& t.window_width == cols
            &&& rows >= 2 ==> t.screen_rows + 2 == rows
            &&& rows < 2 ==> t.screen_rows == 0
            &&& fills_window(t)
            &&& t == EditorView {
                window_width: t.window_width,
                screen_rows: t.screen_rows,
                screen_cols: t.screen_cols,
                ln_pad: t.ln_pad,
                ..s
            }
        }),
{
}

/// The editor starts without a text, a name, a user or a prompt, with all its warnings left, and
/// shows the help.
pub proof fn law_start(config: Config, rows: usize, cols: usize)
    ensures
        ({
            let s = started(config, rows, cols);
            &&& s.rows.len() == 0 && s.n_bytes == 0 && !s.dirty
            &&& s.cursor.x == 0 && s.cursor.y == 0 && s.cursor.roff == 0 && s.cursor.coff == 0
            &&& s.file_name is None && s.remote_url is None && s.username is None
            &&& s.password is None && s.prompt_mode is None && s.ready_for is None
            &&& s.quit_times == s.config.quit_times && s.config == config
            &&& s.status_msg == Some(HELP_MESSAGE@)
            &&& s.syntax.ml_comment_delims is None
            &&& s.cursor_ok()
            &&& fills_window(s)
        }),
{
}

/// Rows that are loaded are the text; their bytes are counted, the highlight states are right and
/// the window is filled. Nothing else changes.
pub proof fn law_rows_loaded(s: EditorView, rows: Seq<RowView>)
    requires
        total_bytes(rows) <= u64::MAX,
    ensures
        ({
            let t = s.rows_loaded(rows);
            &&& t.rows.len() == rows.len()
            &&& forall|i: int|
                0 <= i < rows.len() ==> (#[trigger] t.rows[i]).uuid == rows[i].uuid
                    && t.rows[i].chars == rows[i].chars && t.rows[i].match_segment
                    == rows[i].match_segment
            &&& t.n_bytes == total_bytes(rows)
            &&& all_highlighted(t)
            &&& fills_window(t)
            &&& t == EditorView {
                rows: t.rows,
                n_bytes: t.n_bytes,
                ln_pad: t.ln_pad,
                screen_cols: t.screen_cols,
                ..s
            }
        }),
{
    let t = s.rows_loaded(rows);
    lemma_all_rehighlighted(rows, s.syntax, 0, HlState::Normal);
    law_update_all_highlights(rows, s.syntax, 0);
    assert forall|i: int| 0 <= i < rows.len() implies (#[trigger] t.rows[i]).uuid == rows[i].uuid
        && t.rows[i].chars == rows[i].chars && t.rows[i].match_segment == rows[i].match_segment by {
        assert(t.rows[i] == rows[i].with_state(t.rows[i].hl_state));
    }
}

/// The lines of a file hold no line feeds, and there is one line more than there are line feeds.
pub proof fn law_lines(bytes: Seq<u8>)
    ensures
        ({
            let l = lines(bytes);
            &&& l.len() == 1 + count(bytes, LINE_FEED)
            &&& forall|i: int| 0 <= i < l.len() ==> !(#[trigger] l[i]).contains(LINE_FEED)
        }),
    decreases bytes.len(),
{
    let l = lines(bytes);
    if bytes.len() > 0 {
        law_lines(bytes.drop_last());
        let before = lines(bytes.drop_last());
        assert forall|i: int| 0 <= i < l.len() implies !(#[trigger] l[i]).contains(LINE_FEED) by {
            if bytes.last() != LINE_FEED && i == l.len() - 1 {
                let line = before[i];
                assert(l[i] == line.push(bytes.last()));
                if l[i].contains(LINE_FEED) {
                    let k = choose|k: int| 0 <= k < l[i].len() && l[i][k] == LINE_FEED;
                    assert(line[k] == LINE_FEED);
                    assert(line.contains(LINE_FEED));
                }
            } else if i < before.len() {
                assert(l[i] == before[i]);
            }
        }
    }
}

/// How often `c` stands in `bytes`.
pub open spec fn count(bytes: Seq<u8>, c: u8) -> nat
    decreases bytes.len(),
{
    if bytes.len() == 0 {
        0
    } else {
        count(bytes.drop_last(), c) + if bytes.last() == c {
            1nat
        } else {
            0nat
        }
    }
}

/// A document is read as a whole or not at all: each of its values is a row of the text, and each
/// value of a row a character.
pub proof fn law_document_is_read_whole(values: Seq<Json>)
    ensures
        match rows_in(values) {
            Some(rows) => rows.len() == values.len() && forall|i: int|
                0 <= i < values.len() ==> Some(rows[i]) == row_in(#[trigger] values[i]),
            None => exists|i: int| 0 <= i < values.len() && row_in(#[trigger] values[i]) is None,
        },
        match chars_in(values) {
            Some(chars) => chars.len() == values.len() && forall|i: int|
                0 <= i < values.len() ==> Some(chars[i]) == char_in(#[trigger] values[i]),
            None => exists|i: int| 0 <= i < values.len() && char_in(#[trigger] values[i]) is None,
        },
    decreases values.len(),
{
    if values.len() > 0 {
        let start = values.drop_last();
        law_document_is_read_whole(start);
        assert(values[values.len() - 1] == values.last());
        match rows_in(values) {
            Some(rows) => {
                assert forall|i: int| 0 <= i < values.len() implies Some(rows[i]) == row_in(
                    #[trigger] values[i],
                ) by {
                    if i < start.len() {
                        assert(start[i] == values[i]);
                    }
                }
            },
            None => {
                if row_in(values.last()) is Some {
                    let i = choose|i: int| 0 <= i < start.len() && row_in(#[trigger] start[i]) is None;
                    assert(values[i] == start[i]);
                }
            },
        }
        match chars_in(values) {
            Some(chars) => {
                assert forall|i: int| 0 <= i < values.len() implies Some(chars[i]) == char_in(
                    #[trigger] values[i],
                ) by {
                    if i < start.len() {
                        assert(start[i] == values[i]);
                    }
                }
            },
            None => {
                if char_in(values.last()) is Some {
                    let i = choose|i: int|
                        0 <= i < start.len() && char_in(#[trigger] start[i]) is None;
                    assert(values[i] == start[i]);
                }
            },
        }
    }
}

/// The document that the replicas share is an object with one list of rows; a row is an object with
/// its identifier and a list of characters, a character an object with its identifier and its byte
/// in decimal notation.
pub proof fn law_document_form(rows: Seq<RowView>, i: int, k: int)
    requires
        0 <= i < rows.len(),
        0 <= k < rows[i].chars.len(),
    ensures
        ({
            let c = rows[i].chars[k];
            let character = map![
                "#"@ => Json::Text(decimal(c.byte as nat)),
                "_id"@ => Json::Text(c.id),
            ];
            let row = document(rows)["\u{0394}rows\u{266D}"@]->List_0[i]->Object_0;
            &&& document(rows).dom() =~= set!["\u{0394}rows\u{266D}"@]
            &&& document(rows)["\u{0394}rows\u{266D}"@]->List_0.len() == rows.len()
            &&& document(rows)["\u{0394}rows\u{266D}"@]->List_0[i] is Object
            &&& row.dom() =~= set!["_id"@, "\u{0394}c\u{266D}"@]
            &&& row["_id"@] == Json::Text(rows[i].uuid)
            &&& row["\u{0394}c\u{266D}"@]->List_0.len() == rows[i].chars.len()
            &&& row["\u{0394}c\u{266D}"@]->List_0[k] == Json::Object(character)
        }),
{
    reveal_strlit("_id");
    reveal_strlit("\u{0394}c\u{266D}");
    assert(ID_KEY@[0] != CHARS_KEY@[0]);
}

/// Of a row, and of a character, only the members are read that the editor writes: others may stand
/// beside them.
pub proof fn law_other_members(a: Map<Seq<char>, Json>, b: Map<Seq<char>, Json>)
    requires
        forall|key: Seq<char>|
            key == "_id"@ || key == "#"@ || key == "\u{0394}c\u{266D}"@ ==> (
            #[trigger] a.contains_key(key) == b.contains_key(key) && a[key] == b[key]),
    ensures
        row_in(Json::Object(a)) == row_in(Json::Object(b)),
        char_in(Json::Object(a)) == char_in(Json::Object(b)),
{
    assert(a.contains_key(ID_KEY@) == b.contains_key(ID_KEY@));
    assert(a.contains_key(BYTE_KEY@) == b.contains_key(BYTE_KEY@));
    assert(a.contains_key(CHARS_KEY@) == b.contains_key(CHARS_KEY@));
}

/// A document that does not stand for a text, or for one that is too large, leaves all as it is.
pub proof fn law_unusable_document(s: EditorView, data: Map<Seq<char>, Json>)
    ensures
        rows_of(data) is None ==> s.deserialized(Ok(data)) == (
            s,
            Err::<nat, DocumentError>(DocumentError::Malformed),
        ),
        rows_of(data) matches Some(rows) ==> !countable(total_bytes(rows), rows.len(), s.tab())
            ==> s.deserialized(Ok(data)) == (s, Err::<nat, DocumentError>(DocumentError::TooLarge)),
        !data.contains_key(ROWS_KEY@) ==> rows_of(data) is None,
{
}

/// An exchange changes nothing but the text, the message and the URL that is connected to: the
/// first two only when a document was read, the last one only when it is connected to.
pub proof fn law_exchange_keeps_the_rest(s: EditorView, exchange: ExchangeView, reply: ReplyView)
    ensures
        ({
            let t = s.advanced(exchange, reply).0;
            let reads = exchange is LoadRead || exchange is SaveRead || exchange is RefreshRead;
            let connects = exchange is LoadNew || exchange is SaveCommit;
            &&& !reads && !connects ==> t == s
            &&& connects ==> t == EditorView { remote_url: t.remote_url, ..s }
            &&& reads ==> t.remote_url == s.remote_url
            &&& t == EditorView {
                rows: t.rows,
                n_bytes: t.n_bytes,
                ln_pad: t.ln_pad,
                screen_cols: t.screen_cols,
                status_msg: t.status_msg,
                remote_url: t.remote_url,
                ..s
            }
        }),
{
}

/// A document is connected to with the user's name and password, as far as they are known.
pub proof fn law_user_in_url(s: EditorView, u: UrlView)
    requires
        is_url(u),
        s.remote_url != Some(u.text),
    ensures
        s.username is None && s.password is None ==> s.connection(u) == ConnectionView::Connect(
            u.text,
        ),
        s.connection(u) matches ConnectionView::Connect(url) ==> {
            &&& s.username matches Some(name) ==> s.password is None ==> Some(url) == username_set(
                u.source,
                name,
            )
            &&& s.password matches Some(word) ==> s.username is None ==> Some(url) == password_set(
                u.source,
                word,
            )
            &&& s.username matches Some(name) ==> s.password matches Some(word) ==> Some(url)
                == user_set(u.source, name, word)
        },
        s.connection(u) is Refused ==> s.username is Some || s.password is Some,
{
}

/// A pod is not reached before a user's name is known: the user is asked for it, and it is kept
/// what was to be done. All other documents are loaded or saved at once.
pub proof fn law_plans(s: EditorView, u: UrlView)
    ensures
        ({
            let needs_name = "solid"@.is_prefix_of(u.scheme) && u.username.len() == 0
                && s.username is None;
            let (l, load) = s.load_planned(Some(u));
            let (t, save) = s.save_planned(Some(u));
            &&& l == EditorView {
                ready_for: Some(AdapterReadyFor::LOADING),
                prompt_mode: if needs_name {
                    Some(PromptView::Username(Seq::empty()))
                } else {
                    s.prompt_mode
                },
                ..s
            }
            &&& t == EditorView { ready_for: Some(AdapterReadyFor::SAVING), ..l }
            &&& needs_name ==> load is NotReady && save is NotReady
            &&& !needs_name ==> load == PlanView::Exchange(
                ExchangeView::LoadNew(u),
                RequestView::NewLocal,
            )
            &&& !needs_name ==> save == PlanView::Exchange(s.save_begun(u).0, s.save_begun(u).1)
        }),
        s.load_planned(None) == (s, PlanView::File),
        s.save_planned(None) == (s, PlanView::File),
{
}

/// How a save ended is shown; only a text that was saved is not modified any longer, and nothing
/// else changes.
pub proof fn law_save_is_shown(s: EditorView, name: Seq<char>, text: Seq<char>)
    ensures
        s.save_handled(name, SaveOutcomeView::Saved(text)) == (EditorView {
            dirty: false,
            status_msg: Some(text + " written to "@ + name),
            ..s
        }),
        s.save_handled(name, SaveOutcomeView::Failed(text)) == (EditorView {
            status_msg: Some("Can't save! I/O error: "@ + text),
            ..s
        }),
        s.save_handled(name, SaveOutcomeView::NotReady) == s,
{
}

/// A text that was saved under a new name has this name, and the syntax that was found for it; its
/// lines are the same, and the highlight states are right. A text that was not saved, or whose
/// syntax could not be looked up, stays as it is.
pub proof fn law_save_as(
    s: EditorView,
    name: Seq<char>,
    saved: bool,
    lookup: Result<Option<ConfView>, Seq<char>>,
)
    ensures
        ({
            let (t, r) = s.save_as_handled(name, saved, lookup);
            &&& !saved || lookup is Err ==> t == s
            &&& r is Err <==> saved && lookup is Err
            &&& r matches Err(reason) ==> lookup == Err::<Option<ConfView>, Seq<char>>(reason)
            &&& saved && lookup is Ok ==> {
                &&& t.file_name == Some(name)
                &&& lookup->Ok_0 is Some ==> t.syntax == lookup->Ok_0->0
                &&& lookup->Ok_0 is None ==> t.syntax == s.syntax
                &&& t.text() == s.text()
                &&& t.chars() == s.chars()
                &&& all_highlighted(t)
                &&& t == EditorView {
                    file_name: t.file_name,
                    syntax: t.syntax,
                    rows: t.rows,
                    ..s
                }
            }
        }),
{
    let t = s.save_as_handled(name, saved, lookup).0;
    if saved && lookup is Ok {
        lemma_all_rehighlighted(s.rows, t.syntax, 0, HlState::Normal);
        law_update_all_highlights(s.rows, t.syntax, 0);
        assert forall|i: int| 0 <= i < s.rows.len() implies (#[trigger] t.rows[i]).chars
            == s.rows[i].chars by {
            assert(t.rows[i] == s.rows[i].with_state(t.rows[i].hl_state));
        }
        assert(t.text() =~= s.text()) by {
            assert forall|i: int| 0 <= i < s.rows.len() implies t.text()[i] == s.text()[i] by {
                assert(t.rows[i].chars == s.rows[i].chars);
            }
        }
        assert(t.chars() =~= s.chars()) by {
            assert forall|i: int| 0 <= i < s.rows.len() implies t.chars()[i] == s.chars()[i] by {
                assert(t.rows[i].chars == s.rows[i].chars);
            }
        }
    }
}

/// No prompt follows a save, unless the user is asked for a name for the document that is open.
pub proof fn law_after_save(s: EditorView, name: Seq<char>, outcome: SaveOutcomeView)
    ensures
        ({
            let t = s.save_ended(name, outcome);
            let waits = outcome is NotReady && s.file_name == Some(name);
            &&& waits ==> t == s
            &&& !waits ==> t.prompt_mode is None
            &&& t == EditorView { prompt_mode: t.prompt_mode, status_msg: t.status_msg, ..s }
            &&& !(outcome is NotReady) ==> t.status_msg == s.status_msg
            &&& outcome is NotReady && !waits ==> t.status_msg == Some("No username"@)
        }),
{
}

} // verus!
