//! What the exchanges do from their beginning to their end, whatever the replies are.
use vstd::prelude::*;

use crate::document::document;
use crate::exchange::{load_begun, ExchangeView, ReplyView, RequestView};
use crate::file::row_bytes;
use crate::json::Json;
use crate::remote::UrlView;
use crate::row::RowView;
use crate::session::{law_document_gives_text_back, law_unread_document_keeps_text};
use crate::state::{countable, total_bytes, EditorView};
use crate::text::decimal;

verus! {

/// What was asked for in the course of an exchange, and the state it led to.
pub struct Course {
    pub state: EditorView,
    pub exchange: ExchangeView,
    pub requests: Seq<RequestView>,
}

/// An exchange that was begun and then given replies one after the other.
pub open spec fn course(
    s: EditorView,
    begun: (ExchangeView, RequestView),
    replies: Seq<ReplyView>,
) -> Course
    decreases replies.len(),
{
    if replies.len() == 0 {
        Course { state: s, exchange: begun.0, requests: seq![begun.1] }
    } else {
        let before = course(s, begun, replies.drop_last());
        let (state, exchange, request) = before.state.advanced(before.exchange, replies.last());
        Course { state, exchange, requests: before.requests.push(request) }
    }
}

/// Each reply is of the kind that was waited for when it came.
pub open spec fn all_expected(
    s: EditorView,
    begun: (ExchangeView, RequestView),
    replies: Seq<ReplyView>,
) -> bool
    decreases replies.len(),
{
    replies.len() > 0 ==> {
        &&& all_expected(s, begun, replies.drop_last())
        &&& course(s, begun, replies.drop_last()).exchange.expects(replies.last())
    }
}

proof fn lemma_course_push(
    s: EditorView,
    begun: (ExchangeView, RequestView),
    replies: Seq<ReplyView>,
    reply: ReplyView,
)
    ensures
        ({
            let before = course(s, begun, replies);
            let (state, exchange, request) = before.state.advanced(before.exchange, reply);
            course(s, begun, replies.push(reply)) == (Course {
                state,
                exchange,
                requests: before.requests.push(request),
            })
        }),
        all_expected(s, begun, replies.push(reply)) == (all_expected(s, begun, replies) && course(
            s,
            begun,
            replies,
        ).exchange.expects(reply)),
{
    assert(replies.push(reply).drop_last() == replies);
}

/// The way in which the document of `u` is reached: by connecting to it, or by reading its replica
/// again if it is connected to already.
pub open spec fn reaching(s: EditorView, u: UrlView) -> RequestView {
    if s.remote_url == Some(u.text) {
        RequestView::ReloadRemote
    } else {
        RequestView::Connect(s.auth_url(u)->0)
    }
}

/// The document can be reached.
pub open spec fn can_reach(s: EditorView, u: UrlView) -> bool {
    s.remote_url == Some(u.text) || s.auth_url(u) is Some
}

/// A refresh asks for seven operations in this order, whatever items the meld gives: what is
/// staged is taken down before the changes of others come in, and staged again before the document
/// is read. Until then the text stays as it is, and then it is the document that was read.
#[verifier::rlimit(50)]
pub proof fn law_refresh(
    s: EditorView,
    items: Seq<Seq<char>>,
    read: Result<Map<Seq<char>, Json>, Seq<char>>,
)
    ensures
        ({
            let replies = seq![
                ReplyView::Done,
                ReplyView::Done,
                ReplyView::Done,
                ReplyView::Melded(items),
                ReplyView::Done,
                ReplyView::Done,
            ];
            let waiting = course(s, s.refresh_begun(), replies);
            let end = course(s, s.refresh_begun(), replies.push(ReplyView::Document(read)));
            &&& all_expected(s, s.refresh_begun(), replies.push(ReplyView::Document(read)))
            &&& waiting.state == s
            &&& waiting.requests == seq![
                RequestView::Update(document(s.rows)),
                RequestView::Stage,
                RequestView::Unstage,
                RequestView::MeldFromRemote,
                RequestView::RefreshLocal,
                RequestView::ReplayStage,
                RequestView::Read,
            ]
            &&& end.state == s.deserialized(read).0
            &&& end.exchange is Ended
            &&& end.requests.last() == match s.deserialized(read).1 {
                Ok(_) => RequestView::Finished,
                Err(e) => RequestView::Unreadable(e),
            }
        }),
{
    let b = s.refresh_begun();
    let r0 = Seq::<ReplyView>::empty();
    let r1 = r0.push(ReplyView::Done);
    let r2 = r1.push(ReplyView::Done);
    let r3 = r2.push(ReplyView::Done);
    let r4 = r3.push(ReplyView::Melded(items));
    let r5 = r4.push(ReplyView::Done);
    let r6 = r5.push(ReplyView::Done);
    lemma_course_push(s, b, r0, ReplyView::Done);
    lemma_course_push(s, b, r1, ReplyView::Done);
    lemma_course_push(s, b, r2, ReplyView::Done);
    lemma_course_push(s, b, r3, ReplyView::Melded(items));
    lemma_course_push(s, b, r4, ReplyView::Done);
    lemma_course_push(s, b, r5, ReplyView::Done);
    lemma_course_push(s, b, r6, ReplyView::Document(read));
    let replies = seq![
        ReplyView::Done,
        ReplyView::Done,
        ReplyView::Done,
        ReplyView::Melded(items),
        ReplyView::Done,
        ReplyView::Done,
    ];
    assert(r6 =~= replies);
    assert(course(s, b, r6).requests =~= seq![
        RequestView::Update(document(s.rows)),
        RequestView::Stage,
        RequestView::Unstage,
        RequestView::MeldFromRemote,
        RequestView::RefreshLocal,
        RequestView::ReplayStage,
        RequestView::Read,
    ]);
}

/// In the course of a refresh the document is read only after the stage was replayed, and that
/// only after it was dropped: over every sequence of replies.
pub proof fn law_refresh_replays_before_reading(s: EditorView, replies: Seq<ReplyView>, i: int)
    requires
        all_expected(s, s.refresh_begun(), replies),
        0 <= i < course(s, s.refresh_begun(), replies).requests.len(),
        course(s, s.refresh_begun(), replies).requests[i] is Read,
    ensures
        ({
            let requests = course(s, s.refresh_begun(), replies).requests;
            exists|j: int, k: int|
                0 <= j < k < i && (#[trigger] requests[j]) is Unstage && (
                #[trigger] requests[k]) is ReplayStage
        }),
{
    lemma_refresh_requests(s, replies);
    let requests = course(s, s.refresh_begun(), replies).requests;
    assert(requests[2] is Unstage);
    assert(requests[5] is ReplayStage);
}

/// The position of an exchange in the course of a refresh, and the request that led to it.
spec fn refresh_place(n: int) -> (ExchangeView, RequestView) {
    if n == 1 {
        (ExchangeView::RefreshStage, RequestView::Stage)
    } else if n == 2 {
        (ExchangeView::RefreshUnstage, RequestView::Unstage)
    } else if n == 3 {
        (ExchangeView::RefreshMeld, RequestView::MeldFromRemote)
    } else if n == 4 {
        (ExchangeView::RefreshPull, RequestView::RefreshLocal)
    } else if n == 5 {
        (ExchangeView::RefreshReplay, RequestView::ReplayStage)
    } else {
        (ExchangeView::RefreshRead, RequestView::Read)
    }
}

proof fn lemma_refresh_requests(s: EditorView, replies: Seq<ReplyView>)
    requires
        all_expected(s, s.refresh_begun(), replies),
    ensures
        ({
            let c = course(s, s.refresh_begun(), replies);
            &&& replies.len() <= 7
            &&& c.requests.len() == replies.len() + 1
            &&& c.requests[0] is Update
            &&& forall|i: int|
                1 <= i <= 6 && i < c.requests.len() ==> #[trigger] c.requests[i] == refresh_place(
                    i,
                ).1
            &&& replies.len() == 0 ==> c.exchange is RefreshUpdate
            &&& 1 <= replies.len() <= 6 ==> c.exchange == refresh_place(replies.len() as int).0
            &&& replies.len() == 7 ==> c.exchange is Ended && (c.requests[7] is Finished
                || c.requests[7] is Unreadable)
        }),
    decreases replies.len(),
{
    if replies.len() > 0 {
        lemma_refresh_requests(s, replies.drop_last());
        let before = course(s, s.refresh_begun(), replies.drop_last());
        let c = course(s, s.refresh_begun(), replies);
        assert forall|i: int| 1 <= i <= 6 && i < c.requests.len() implies #[trigger] c.requests[i]
            == refresh_place(i).1 by {
            if i < before.requests.len() {
                assert(c.requests[i] == before.requests[i]);
            }
        }
        assert(c.requests[0] == before.requests[0]);
    }
}

/// Loading makes a new local replica, takes over what the remote one holds, and shows the document
/// that is then read, with the number of its characters.
pub proof fn law_load(
    s: EditorView,
    u: UrlView,
    items: Seq<Seq<char>>,
    rows: Seq<RowView>,
)
    requires
        can_reach(s, u),
        countable(total_bytes(rows), rows.len(), s.tab()),
    ensures
        ({
            let replies = seq![
                ReplyView::Done,
                ReplyView::Done,
                ReplyView::Melded(items),
                ReplyView::Done,
                ReplyView::Document(Ok(document(rows))),
            ];
            let end = course(s, load_begun(u), replies);
            &&& all_expected(s, load_begun(u), replies)
            &&& end.requests == seq![
                RequestView::NewLocal,
                reaching(s, u),
                RequestView::MeldFromRemote,
                RequestView::ReloadLocal,
                RequestView::Read,
                RequestView::Finished,
            ]
            &&& end.exchange is Ended
            &&& end.state.remote_url == Some(u.text)
            &&& end.state.text() == row_bytes(rows)
            &&& end.state.n_bytes == total_bytes(rows)
            &&& end.state.status_msg == Some(decimal(total_bytes(rows)) + " characters read"@)
        }),
{
    let b = load_begun(u);
    let doc = ReplyView::Document(Ok(document(rows)));
    let r0 = Seq::<ReplyView>::empty();
    let r1 = r0.push(ReplyView::Done);
    let r2 = r1.push(ReplyView::Done);
    let r3 = r2.push(ReplyView::Melded(items));
    let r4 = r3.push(ReplyView::Done);
    lemma_course_push(s, b, r0, ReplyView::Done);
    lemma_course_push(s, b, r1, ReplyView::Done);
    lemma_course_push(s, b, r2, ReplyView::Melded(items));
    lemma_course_push(s, b, r3, ReplyView::Done);
    lemma_course_push(s, b, r4, doc);
    law_document_gives_text_back(s.connected(u), rows);
    assert(r4.push(doc) =~= seq![
        ReplyView::Done,
        ReplyView::Done,
        ReplyView::Melded(items),
        ReplyView::Done,
        doc,
    ]);
    assert(course(s, b, r4.push(doc)).requests =~= seq![
        RequestView::NewLocal,
        reaching(s, u),
        RequestView::MeldFromRemote,
        RequestView::ReloadLocal,
        RequestView::Read,
        RequestView::Finished,
    ]);
}

/// The name of what was committed: that of the first block, or "Nothing".
pub open spec fn saved_name(blocks: Option<Seq<Seq<char>>>) -> Seq<char> {
    if blocks is Some && blocks->0.len() > 0 {
        blocks->0[0]
    } else {
        "Nothing"@
    }
}

/// What is asked for up to the meld: a modified text is staged first, and what is staged is
/// committed.
pub open spec fn first_requests(s: EditorView, u: UrlView) -> Seq<RequestView> {
    (if s.dirty {
        seq![RequestView::Update(document(s.rows))]
    } else {
        seq![]
    }) + seq![RequestView::Commit, reaching(s, u), RequestView::MeldFromRemote]
}

/// The replies up to the meld.
pub open spec fn first_replies(
    s: EditorView,
    blocks: Option<Seq<Seq<char>>>,
    items: Seq<Seq<char>>,
) -> Seq<ReplyView> {
    (if s.dirty {
        seq![ReplyView::Done]
    } else {
        seq![]
    }) + seq![ReplyView::Committed(blocks), ReplyView::Done, ReplyView::Melded(items)]
}

/// What is asked for at the end: what was committed is sent, and nothing else is.
pub open spec fn last_requests(blocks: Option<Seq<Seq<char>>>) -> Seq<RequestView> {
    (if blocks is Some {
        seq![RequestView::MeldToRemote]
    } else {
        seq![]
    }) + seq![RequestView::Saved(saved_name(blocks))]
}

/// The reply to what is asked for at the end.
pub open spec fn last_replies(
    blocks: Option<Seq<Seq<char>>>,
    sent: Seq<Seq<char>>,
) -> Seq<ReplyView> {
    if blocks is Some {
        seq![ReplyView::Melded(sent)]
    } else {
        seq![]
    }
}

proof fn lemma_first_replies(
    s: EditorView,
    u: UrlView,
    blocks: Option<Seq<Seq<char>>>,
    items: Seq<Seq<char>>,
)
    requires
        can_reach(s, u),
    ensures
        ({
            let replies = first_replies(s, blocks, items);
            let begun = s.save_begun(u);
            let before = course(s, begun, replies.drop_last());
            &&& all_expected(s, begun, replies)
            &&& replies.last() == ReplyView::Melded(items)
            &&& before.state == s.connected(u)
            &&& before.requests == first_requests(s, u)
            &&& before.exchange == ExchangeView::SaveMeld(
                if blocks is Some {
                    Some(saved_name(blocks))
                } else {
                    None
                },
            )
        }),
{
    let b = s.save_begun(u);
    let r0 = Seq::<ReplyView>::empty();
    let r1 = if s.dirty {
        r0.push(ReplyView::Done)
    } else {
        r0
    };
    let r2 = r1.push(ReplyView::Committed(blocks));
    let r3 = r2.push(ReplyView::Done);
    if s.dirty {
        lemma_course_push(s, b, r0, ReplyView::Done);
    }
    lemma_course_push(s, b, r1, ReplyView::Committed(blocks));
    lemma_course_push(s, b, r2, ReplyView::Done);
    lemma_course_push(s, b, r3, ReplyView::Melded(items));
    assert(r3.push(ReplyView::Melded(items)) =~= first_replies(s, blocks, items));
    assert(first_replies(s, blocks, items).drop_last() =~= r3);
    assert(course(s, b, r3).requests =~= first_requests(s, u));
}

/// Saving when nobody else has changed the document: the text stays as it is, and what was
/// committed is sent.
pub proof fn law_save_alone(
    s: EditorView,
    u: UrlView,
    blocks: Option<Seq<Seq<char>>>,
    sent: Seq<Seq<char>>,
)
    requires
        can_reach(s, u),
    ensures
        ({
            let replies = first_replies(s, blocks, Seq::empty()) + last_replies(blocks, sent);
            let end = course(s, s.save_begun(u), replies);
            &&& all_expected(s, s.save_begun(u), replies)
            &&& end.requests == first_requests(s, u) + last_requests(blocks)
            &&& end.exchange is Ended
            &&& end.state == EditorView { remote_url: Some(u.text), ..s }
        }),
{
    let b = s.save_begun(u);
    let first = first_replies(s, blocks, Seq::empty());
    lemma_first_replies(s, u, blocks, Seq::empty());
    assert(first.drop_last().push(first.last()) =~= first);
    lemma_course_push(s, b, first.drop_last(), first.last());
    if blocks is Some {
        lemma_course_push(s, b, first, ReplyView::Melded(sent));
    }
    let replies = first + last_replies(blocks, sent);
    assert(replies =~= if blocks is Some {
        first.push(ReplyView::Melded(sent))
    } else {
        first
    });
    assert(course(s, b, replies).requests =~= first_requests(s, u) + last_requests(blocks));
}

/// Saving when others have changed the document: whatever was melded is read into the text before
/// the exchange ends, whether or not there was something to commit.
#[verifier::rlimit(50)]
pub proof fn law_save_with_others(
    s: EditorView,
    u: UrlView,
    blocks: Option<Seq<Seq<char>>>,
    items: Seq<Seq<char>>,
    rows: Seq<RowView>,
    sent: Seq<Seq<char>>,
)
    requires
        can_reach(s, u),
        items.len() > 0,
        countable(total_bytes(rows), rows.len(), s.tab()),
    ensures
        ({
            let replies = first_replies(s, blocks, items) + seq![
                ReplyView::Done,
                ReplyView::Document(Ok(document(rows))),
            ] + last_replies(blocks, sent);
            let end = course(s, s.save_begun(u), replies);
            &&& all_expected(s, s.save_begun(u), replies)
            &&& end.requests == first_requests(s, u) + seq![
                RequestView::ReloadLocal,
                RequestView::Read,
            ] + last_requests(blocks)
            &&& end.exchange is Ended
            &&& end.state.remote_url == Some(u.text)
            &&& end.state.text() == row_bytes(rows)
            &&& end.state.n_bytes == total_bytes(rows)
        }),
{
    let b = s.save_begun(u);
    let doc = ReplyView::Document(Ok(document(rows)));
    let first = first_replies(s, blocks, items);
    lemma_first_replies(s, u, blocks, items);
    assert(first.drop_last().push(first.last()) =~= first);
    lemma_course_push(s, b, first.drop_last(), first.last());
    lemma_course_push(s, b, first, ReplyView::Done);
    lemma_course_push(s, b, first.push(ReplyView::Done), doc);
    law_document_gives_text_back(s.connected(u), rows);
    let read = first.push(ReplyView::Done).push(doc);
    if blocks is Some {
        lemma_course_push(s, b, read, ReplyView::Melded(sent));
    }
    let replies = first + seq![ReplyView::Done, doc] + last_replies(blocks, sent);
    assert(replies =~= if blocks is Some {
        read.push(ReplyView::Melded(sent))
    } else {
        read
    });
    assert(course(s, b, replies).requests =~= first_requests(s, u) + seq![
        RequestView::ReloadLocal,
        RequestView::Read,
    ] + last_requests(blocks));
}

/// A document that cannot be reached is neither loaded nor saved, and a document that stands for
/// no text ends the exchange without changing the text.
pub proof fn law_failed_exchanges(
    s: EditorView,
    u: UrlView,
    blocks: Option<Seq<Seq<char>>>,
    committed: Option<Seq<char>>,
    read: Result<Map<Seq<char>, Json>, Seq<char>>,
)
    ensures
        !can_reach(s, u) ==> {
            &&& s.advanced(load_begun(u).0, ReplyView::Done) == (
                s,
                ExchangeView::Ended,
                RequestView::Refused,
            )
            &&& s.advanced(ExchangeView::SaveCommit(u), ReplyView::Committed(blocks)) == (
                s,
                ExchangeView::Ended,
                RequestView::Refused,
            )
        },
        s.deserialized(read).1 is Err ==> {
            &&& s.advanced(ExchangeView::LoadRead, ReplyView::Document(read)).0.rows == s.rows
            &&& s.advanced(ExchangeView::SaveRead(committed), ReplyView::Document(read)).0.rows
                == s.rows
            &&& s.advanced(ExchangeView::RefreshRead, ReplyView::Document(read)).0.rows == s.rows
        },
{
}

/// A document that could not be read leaves the text as it is, and loading counts no characters.
pub proof fn law_unread_load(s: EditorView, reason: Seq<char>)
    ensures
        ({
            let (t, e, r) = s.advanced(ExchangeView::LoadRead, ReplyView::Document(Err(reason)));
            &&& t == s.with_status("0 characters read"@)
            &&& e is Ended
            &&& r is Finished
        }),
{
    law_unread_document_keeps_text(s, reason);
    reveal_strlit("0 characters read");
    reveal_strlit(" characters read");
    assert(decimal(0) =~= seq!['0']);
    assert(decimal(0) + " characters read"@ =~= "0 characters read"@);
}

} // verus!
