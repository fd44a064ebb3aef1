//! The exchange of a document with its replicas, step by step.
//!
//! The editor's document has a local replica and a remote one. They are kept outside: an operation
//! on a replica goes to its storage, and may panic on what it finds there. An exchange asks for
//! one operation at a time, and decides from the reply what comes next.
use vstd::prelude::*;
use vstd::string::*;

use crate::document::{document, read_view, DocumentError};
use crate::json::{members, Json, JsonObject};
use crate::remote::{Connection, ConnectionView, RemoteUrl, UrlView};
use crate::state::{text_view, Editor, EditorView};
use crate::text::{decimal, push_decimal, views};

verus! {

/// An operation on the replicas.
pub enum Request {
    /// Make a new, empty local replica.
    NewLocal,
    /// Make the remote replica that this URL stands for.
    Connect(String),
    /// Read the remote replica again.
    ReloadRemote,
    /// Stage this document in the local replica.
    Update(JsonObject),
    /// Commit what is staged in the local replica.
    Commit,
    /// Meld the remote replica into the local one.
    MeldFromRemote,
    /// Meld the local replica into the remote one.
    MeldToRemote,
    /// Read all blocks of the local replica again.
    ReloadLocal,
    /// Read the new blocks of the local replica.
    RefreshLocal,
    /// Take down what is staged in the local replica.
    Stage,
    /// Drop what is staged in the local replica.
    Unstage,
    /// Stage again what was taken down.
    ReplayStage,
    /// Read the document from the local replica.
    Read,
    /// Nothing: the exchange has ended.
    Finished,
    /// Nothing: the document was saved, as what the text says.
    Saved(String),
    /// Nothing: the remote replica cannot have a user name or a password.
    Refused,
    /// Nothing: the document cannot be shown.
    Unreadable(DocumentError),
}

pub enum RequestView {
    NewLocal,
    Connect(Seq<char>),
    ReloadRemote,
    Update(Map<Seq<char>, Json>),
    Commit,
    MeldFromRemote,
    MeldToRemote,
    ReloadLocal,
    RefreshLocal,
    Stage,
    Unstage,
    ReplayStage,
    Read,
    Finished,
    Saved(Seq<char>),
    Refused,
    Unreadable(DocumentError),
}

impl View for Request {
    type V = RequestView;

    open spec fn view(&self) -> RequestView {
        match self {
            Request::NewLocal => RequestView::NewLocal,
            Request::Connect(url) => RequestView::Connect(url@),
            Request::ReloadRemote => RequestView::ReloadRemote,
            Request::Update(data) => RequestView::Update(members(*data)),
            Request::Commit => RequestView::Commit,
            Request::MeldFromRemote => RequestView::MeldFromRemote,
            Request::MeldToRemote => RequestView::MeldToRemote,
            Request::ReloadLocal => RequestView::ReloadLocal,
            Request::RefreshLocal => RequestView::RefreshLocal,
            Request::Stage => RequestView::Stage,
            Request::Unstage => RequestView::Unstage,
            Request::ReplayStage => RequestView::ReplayStage,
            Request::Read => RequestView::Read,
            Request::Finished => RequestView::Finished,
            Request::Saved(text) => RequestView::Saved(text@),
            Request::Refused => RequestView::Refused,
            Request::Unreadable(e) => RequestView::Unreadable(*e),
        }
    }
}

/// What an operation gave.
pub enum Reply {
    /// It was done.
    Done,
    /// A commit: the identifiers of the new blocks in order, `None` if nothing was staged.
    Committed(Option<Vec<String>>),
    /// A meld: the names of the items that are new.
    Melded(Vec<String>),
    /// The document that was read, or why there is none.
    Document(Result<JsonObject, String>),
}

pub enum ReplyView {
    Done,
    Committed(Option<Seq<Seq<char>>>),
    Melded(Seq<Seq<char>>),
    Document(Result<Map<Seq<char>, Json>, Seq<char>>),
}

impl View for Reply {
    type V = ReplyView;

    open spec fn view(&self) -> ReplyView {
        match self {
            Reply::Done => ReplyView::Done,
            Reply::Committed(blocks) => ReplyView::Committed(
                match blocks {
                    Some(ids) => Some(views(ids@)),
                    None => None,
                },
            ),
            Reply::Melded(items) => ReplyView::Melded(views(items@)),
            Reply::Document(read) => ReplyView::Document(read_view(*read)),
        }
    }
}

/// Where an exchange stands: the operation that it waits for, and what it has to remember. While
/// a document is saved, the text is the name of what was committed, if anything was.
pub enum Exchange {
    LoadNew(RemoteUrl),
    LoadConnect,
    LoadMeld,
    LoadReload,
    LoadRead,
    SaveUpdate(RemoteUrl),
    SaveCommit(RemoteUrl),
    SaveConnect(Option<String>),
    SaveMeld(Option<String>),
    SaveReload(Option<String>),
    SaveRead(Option<String>),
    SaveSend(String),
    RefreshUpdate,
    RefreshStage,
    RefreshUnstage,
    RefreshMeld,
    RefreshPull,
    RefreshReplay,
    RefreshRead,
    Ended,
}

pub enum ExchangeView {
    LoadNew(UrlView),
    LoadConnect,
    LoadMeld,
    LoadReload,
    LoadRead,
    SaveUpdate(UrlView),
    SaveCommit(UrlView),
    SaveConnect(Option<Seq<char>>),
    SaveMeld(Option<Seq<char>>),
    SaveReload(Option<Seq<char>>),
    SaveRead(Option<Seq<char>>),
    SaveSend(Seq<char>),
    RefreshUpdate,
    RefreshStage,
    RefreshUnstage,
    RefreshMeld,
    RefreshPull,
    RefreshReplay,
    RefreshRead,
    Ended,
}

impl View for Exchange {
    type V = ExchangeView;

    open spec fn view(&self) -> ExchangeView {
        match self {
            Exchange::LoadNew(u) => ExchangeView::LoadNew(u@),
            Exchange::LoadConnect => ExchangeView::LoadConnect,
            Exchange::LoadMeld => ExchangeView::LoadMeld,
            Exchange::LoadReload => ExchangeView::LoadReload,
            Exchange::LoadRead => ExchangeView::LoadRead,
            Exchange::SaveUpdate(u) => ExchangeView::SaveUpdate(u@),
            Exchange::SaveCommit(u) => ExchangeView::SaveCommit(u@),
            Exchange::SaveConnect(text) => ExchangeView::SaveConnect(text_view(*text)),
            Exchange::SaveMeld(text) => ExchangeView::SaveMeld(text_view(*text)),
            Exchange::SaveReload(text) => ExchangeView::SaveReload(text_view(*text)),
            Exchange::SaveRead(text) => ExchangeView::SaveRead(text_view(*text)),
            Exchange::SaveSend(text) => ExchangeView::SaveSend(text@),
            Exchange::RefreshUpdate => ExchangeView::RefreshUpdate,
            Exchange::RefreshStage => ExchangeView::RefreshStage,
            Exchange::RefreshUnstage => ExchangeView::RefreshUnstage,
            Exchange::RefreshMeld => ExchangeView::RefreshMeld,
            Exchange::RefreshPull => ExchangeView::RefreshPull,
            Exchange::RefreshReplay => ExchangeView::RefreshReplay,
            Exchange::RefreshRead => ExchangeView::RefreshRead,
            Exchange::Ended => ExchangeView::Ended,
        }
    }
}

/// What a commit is called: its first block, or "Nothing".
pub open spec fn commit_name(blocks: Option<Seq<Seq<char>>>) -> Option<Seq<char>> {
    match blocks {
        Some(ids) => Some(
            if ids.len() > 0 {
                ids[0]
            } else {
                "Nothing"@
            },
        ),
        None => None,
    }
}

/// The last part of saving: what was committed is sent to the remote replica.
pub open spec fn save_end(committed: Option<Seq<char>>) -> (ExchangeView, RequestView) {
    match committed {
        Some(text) => (ExchangeView::SaveSend(text), RequestView::MeldToRemote),
        None => (ExchangeView::Ended, RequestView::Saved("Nothing"@)),
    }
}

/// How the remote replica is made ready, if it can be, and what is then waited for.
pub open spec fn connecting(connection: ConnectionView, next: ExchangeView) -> (
    ExchangeView,
    RequestView,
) {
    match connection {
        ConnectionView::Connect(url) => (next, RequestView::Connect(url)),
        ConnectionView::Reload => (next, RequestView::ReloadRemote),
        ConnectionView::Refused => (ExchangeView::Ended, RequestView::Refused),
    }
}

impl ExchangeView {
    /// The reply is of the kind that is waited for.
    pub open spec fn expects(self, reply: ReplyView) -> bool {
        match self {
            ExchangeView::SaveCommit(_) => reply is Committed,
            ExchangeView::LoadMeld => reply is Melded,
            ExchangeView::SaveMeld(_) => reply is Melded,
            ExchangeView::RefreshMeld => reply is Melded,
            ExchangeView::SaveSend(_) => reply is Melded,
            ExchangeView::LoadRead => reply is Document,
            ExchangeView::SaveRead(_) => reply is Document,
            ExchangeView::RefreshRead => reply is Document,
            ExchangeView::Ended => false,
            _ => reply is Done,
        }
    }
}

/// The exchange that begins when a document is loaded: with a new local replica.
pub open spec fn load_begun(u: UrlView) -> (ExchangeView, RequestView) {
    (ExchangeView::LoadNew(u), RequestView::NewLocal)
}

impl EditorView {
    /// The exchange that begins when the changes of the remote replica are integrated: the text is
    /// staged first.
    pub open spec fn refresh_begun(self) -> (ExchangeView, RequestView) {
        (ExchangeView::RefreshUpdate, RequestView::Update(document(self.rows)))
    }

    /// The reply is of the kind that is waited for, and a URL that is connected to can be put
    /// together.
    pub open spec fn advance_ok(self, exchange: ExchangeView, reply: ReplyView) -> bool {
        &&& exchange.expects(reply)
        &&& exchange matches ExchangeView::LoadNew(u) ==> self.connect_ok(u)
        &&& exchange matches ExchangeView::SaveCommit(u) ==> self.connect_ok(u)
    }

    /// The exchange that begins when a document is saved: a modified text is staged first.
    pub open spec fn save_begun(self, u: UrlView) -> (ExchangeView, RequestView) {
        if self.dirty {
            (ExchangeView::SaveUpdate(u), RequestView::Update(document(self.rows)))
        } else {
            (ExchangeView::SaveCommit(u), RequestView::Commit)
        }
    }

    /// The state after a document was read, where the exchange then stands and what it asks for.
    pub open spec fn document_replied(
        self,
        reply: ReplyView,
        end: (ExchangeView, RequestView),
    ) -> (EditorView, ExchangeView, RequestView) {
        let (s, total) = self.deserialized(reply->Document_0);
        match total {
            Ok(_) => (s, end.0, end.1),
            Err(e) => (s, ExchangeView::Ended, RequestView::Unreadable(e)),
        }
    }

    /// The state after a document was loaded.
    pub open spec fn load_replied(self, reply: ReplyView) -> (
        EditorView,
        ExchangeView,
        RequestView,
    ) {
        let (s, total) = self.deserialized(reply->Document_0);
        match total {
            Ok(n) => (
                s.with_status(decimal(n) + " characters read"@),
                ExchangeView::Ended,
                RequestView::Finished,
            ),
            Err(e) => (s, ExchangeView::Ended, RequestView::Unreadable(e)),
        }
    }

    /// The state after a reply, where the exchange then stands and what it asks for.
    pub open spec fn advanced(self, exchange: ExchangeView, reply: ReplyView) -> (
        EditorView,
        ExchangeView,
        RequestView,
    ) {
        match exchange {
            // Loading: a new local replica takes over what the remote one holds.
            ExchangeView::LoadNew(u) => {
                let (e, r) = connecting(self.connection(u), ExchangeView::LoadConnect);
                (self.connected(u), e, r)
            },
            ExchangeView::LoadConnect => (
                self,
                ExchangeView::LoadMeld,
                RequestView::MeldFromRemote,
            ),
            ExchangeView::LoadMeld => (self, ExchangeView::LoadReload, RequestView::ReloadLocal),
            ExchangeView::LoadReload => (self, ExchangeView::LoadRead, RequestView::Read),
            ExchangeView::LoadRead => self.load_replied(reply),
            // Saving: the changes are committed, those of others integrated, and the own ones
            // sent.
            ExchangeView::SaveUpdate(u) => (self, ExchangeView::SaveCommit(u), RequestView::Commit),
            ExchangeView::SaveCommit(u) => {
                let committed = commit_name(reply->Committed_0);
                let (e, r) = connecting(self.connection(u), ExchangeView::SaveConnect(committed));
                (self.connected(u), e, r)
            },
            ExchangeView::SaveConnect(committed) => (
                self,
                ExchangeView::SaveMeld(committed),
                RequestView::MeldFromRemote,
            ),
            ExchangeView::SaveMeld(committed) => if reply->Melded_0.len() > 0 {
                (self, ExchangeView::SaveReload(committed), RequestView::ReloadLocal)
            } else {
                (self, save_end(committed).0, save_end(committed).1)
            },
            ExchangeView::SaveReload(committed) => (
                self,
                ExchangeView::SaveRead(committed),
                RequestView::Read,
            ),
            ExchangeView::SaveRead(committed) => self.document_replied(reply, save_end(committed)),
            ExchangeView::SaveSend(text) => (self, ExchangeView::Ended, RequestView::Saved(text)),
            // Refreshing: the changes are taken down, those of others integrated, and the own
            // ones staged again.
            ExchangeView::RefreshUpdate => (self, ExchangeView::RefreshStage, RequestView::Stage),
            ExchangeView::RefreshStage => (
                self,
                ExchangeView::RefreshUnstage,
                RequestView::Unstage,
            ),
            ExchangeView::RefreshUnstage => (
                self,
                ExchangeView::RefreshMeld,
                RequestView::MeldFromRemote,
            ),
            ExchangeView::RefreshMeld => (
                self,
                ExchangeView::RefreshPull,
                RequestView::RefreshLocal,
            ),
            ExchangeView::RefreshPull => (
                self,
                ExchangeView::RefreshReplay,
                RequestView::ReplayStage,
            ),
            ExchangeView::RefreshReplay => (self, ExchangeView::RefreshRead, RequestView::Read),
            ExchangeView::RefreshRead => self.document_replied(
                reply,
                (ExchangeView::Ended, RequestView::Finished),
            ),
            ExchangeView::Ended => (self, ExchangeView::Ended, RequestView::Finished),
        }
    }
}

fn connect_request(connection: Connection, next: Exchange) -> (r: (Exchange, Request))
    ensures
        (r.0@, r.1@) == connecting(connection@, next@),
{
    match connection {
        Connection::Connect(url) => (next, Request::Connect(url)),
        Connection::Reload => (next, Request::ReloadRemote),
        Connection::Refused => (Exchange::Ended, Request::Refused),
    }
}

fn send_request(committed: Option<String>) -> (r: (Exchange, Request))
    ensures
        (r.0@, r.1@) == save_end(text_view(committed)),
{
    match committed {
        Some(text) => (Exchange::SaveSend(text), Request::MeldToRemote),
        None => (Exchange::Ended, Request::Saved("Nothing".to_string())),
    }
}

fn name_of_commit(blocks: Option<Vec<String>>) -> (r: Option<String>)
    ensures
        text_view(r) == commit_name(
            match blocks {
                Some(ids) => Some(views(ids@)),
                None => None,
            },
        ),
{
    match blocks {
        Some(ids) => {
            assert(views(ids@).len() == ids@.len());
            if ids.len() > 0 {
                Some(ids[0].clone())
            } else {
                Some("Nothing".to_string())
            }
        },
        None => None,
    }
}

impl Exchange {
    /// Whether the reply is of the kind that is waited for.
    pub fn expects(&self, reply: &Reply) -> (r: bool)
        ensures
            r == self@.expects(reply@),
    {
        match (self, reply) {
            (Exchange::Ended, _) => false,
            (Exchange::SaveCommit(_), Reply::Committed(_)) => true,
            (Exchange::SaveCommit(_), _) => false,
            (Exchange::LoadMeld, Reply::Melded(_)) => true,
            (Exchange::LoadMeld, _) => false,
            (Exchange::SaveMeld(_), Reply::Melded(_)) => true,
            (Exchange::SaveMeld(_), _) => false,
            (Exchange::RefreshMeld, Reply::Melded(_)) => true,
            (Exchange::RefreshMeld, _) => false,
            (Exchange::SaveSend(_), Reply::Melded(_)) => true,
            (Exchange::SaveSend(_), _) => false,
            (Exchange::LoadRead, Reply::Document(_)) => true,
            (Exchange::LoadRead, _) => false,
            (Exchange::SaveRead(_), Reply::Document(_)) => true,
            (Exchange::SaveRead(_), _) => false,
            (Exchange::RefreshRead, Reply::Document(_)) => true,
            (Exchange::RefreshRead, _) => false,
            (_, Reply::Done) => true,
            (_, _) => false,
        }
    }
}

impl Editor {
    /// Begin to load the document of a URL.
    pub fn begin_load(u: RemoteUrl) -> (r: (Exchange, Request))
        ensures
            (r.0@, r.1@) == load_begun(u@),
            r.0@ == ExchangeView::LoadNew(u@),
            r.1@ == RequestView::NewLocal,
    {
        (Exchange::LoadNew(u), Request::NewLocal)
    }

    /// Begin to save the document of a URL.
    pub fn begin_save(&self, u: RemoteUrl) -> (r: (Exchange, Request))
        ensures
            (r.0@, r.1@) == self@.save_begun(u@),
    {
        if self.dirty {
            (Exchange::SaveUpdate(u), Request::Update(self.serialize()))
        } else {
            (Exchange::SaveCommit(u), Request::Commit)
        }
    }

    /// Begin to integrate the changes of the remote replica.
    pub fn begin_refresh(&self) -> (r: (Exchange, Request))
        ensures
            (r.0@, r.1@) == self@.refresh_begun(),
            r.0@ == ExchangeView::RefreshUpdate,
            r.1@ == RequestView::Update(document(self@.rows)),
    {
        (Exchange::RefreshUpdate, Request::Update(self.serialize()))
    }

    /// Show a document that was read in the course of an exchange.
    fn take_document(
        &mut self,
        read: Result<JsonObject, String>,
        end: (Exchange, Request),
    ) -> (r: (Exchange, Request))
        requires
            old(self).wf(),
        ensures
            final(self).wf(),
            (final(self)@, r.0@, r.1@) == old(self)@.document_replied(
                ReplyView::Document(read_view(read)),
                (end.0@, end.1@),
            ),
    {
        match self.deserialize(read) {
            Ok(_) => end,
            Err(e) => (Exchange::Ended, Request::Unreadable(e)),
        }
    }

    /// Show a document that was loaded, and how many characters it has.
    fn finish_load(&mut self, read: Result<JsonObject, String>) -> (r: (Exchange, Request))
        requires
            old(self).wf(),
        ensures
            final(self).wf(),
            (final(self)@, r.0@, r.1@) == old(self)@.load_replied(
                ReplyView::Document(read_view(read)),
            ),
    {
        match self.deserialize(read) {
            Ok(total) => {
                let mut msg = String::new();
                push_decimal(&mut msg, total);
                msg.append(" characters read");
                assert(msg@ =~= decimal(total as nat) + " characters read"@);
                self.set_status(msg);
                (Exchange::Ended, Request::Finished)
            },
            Err(e) => (Exchange::Ended, Request::Unreadable(e)),
        }
    }

    /// Whether `advance` can be called.
    pub fn can_advance(&self, exchange: &Exchange, reply: &Reply) -> (r: bool)
        ensures
            r == self@.advance_ok(exchange@, reply@),
    {
        exchange.expects(reply) && match exchange {
            Exchange::LoadNew(u) => self.can_connect(u),
            Exchange::SaveCommit(u) => self.can_connect(u),
            _ => true,
        }
    }

    /// Go on with an exchange after a reply: returns where it then stands and what it asks for.
    pub fn advance(&mut self, exchange: Exchange, reply: Reply) -> (r: (Exchange, Request))
        requires
            old(self).wf(),
            old(self)@.advance_ok(exchange@, reply@),
        ensures
            final(self).wf(),
            (final(self)@, r.0@, r.1@) == old(self)@.advanced(exchange@, reply@),
    {
        match (exchange, reply) {
            (Exchange::LoadNew(u), _) => {
                let connection = self.initialize_remote_replica(&u);
                connect_request(connection, Exchange::LoadConnect)
            },
            (Exchange::LoadConnect, _) => (Exchange::LoadMeld, Request::MeldFromRemote),
            (Exchange::LoadMeld, _) => (Exchange::LoadReload, Request::ReloadLocal),
            (Exchange::LoadReload, _) => (Exchange::LoadRead, Request::Read),
            (Exchange::LoadRead, Reply::Document(read)) => self.finish_load(read),
            // Update local replica from new content
            (Exchange::SaveUpdate(u), _) => (Exchange::SaveCommit(u), Request::Commit),
            (Exchange::SaveCommit(u), Reply::Committed(blocks)) => {
                let committed = name_of_commit(blocks);
                let connection = self.initialize_remote_replica(&u);
                connect_request(connection, Exchange::SaveConnect(committed))
            },
            // Update local replica to integrate remote changes
            (Exchange::SaveConnect(committed), _) => (
                Exchange::SaveMeld(committed),
                Request::MeldFromRemote,
            ),
            (Exchange::SaveMeld(committed), Reply::Melded(melded)) => {
                assert(views(melded@).len() == melded@.len());
                if melded.len() > 0 {
                    // Something was obtained from the remote replica, reload
                    (Exchange::SaveReload(committed), Request::ReloadLocal)
                } else {
                    send_request(committed)
                }
            },
            (Exchange::SaveReload(committed), _) => (Exchange::SaveRead(committed), Request::Read),
            (Exchange::SaveRead(committed), Reply::Document(read)) => {
                let end = send_request(committed);
                self.take_document(read, end)
            },
            (Exchange::SaveSend(text), _) => (Exchange::Ended, Request::Saved(text)),
            // Update local replica from new content
            (Exchange::RefreshUpdate, _) => (Exchange::RefreshStage, Request::Stage),
            // Save the current stage
            (Exchange::RefreshStage, _) => (Exchange::RefreshUnstage, Request::Unstage),
            // Update local replica to integrate remote changes
            (Exchange::RefreshUnstage, _) => (Exchange::RefreshMeld, Request::MeldFromRemote),
            (Exchange::RefreshMeld, _) => (Exchange::RefreshPull, Request::RefreshLocal),
            // Replay stage
            (Exchange::RefreshPull, _) => (Exchange::RefreshReplay, Request::ReplayStage),
            (Exchange::RefreshReplay, _) => (Exchange::RefreshRead, Request::Read),
            (Exchange::RefreshRead, Reply::Document(read)) => self.take_document(
                read,
                (Exchange::Ended, Request::Finished),
            ),
            _ => (Exchange::Ended, Request::Finished),
        }
    }
}

/// How many replies an exchange can still wait for.
pub open spec fn replies_left(exchange: ExchangeView) -> nat {
    match exchange {
        ExchangeView::LoadNew(_) => 5,
        ExchangeView::LoadConnect => 4,
        ExchangeView::LoadMeld => 3,
        ExchangeView::LoadReload => 2,
        ExchangeView::LoadRead => 1,
        ExchangeView::SaveUpdate(_) => 7,
        ExchangeView::SaveCommit(_) => 6,
        ExchangeView::SaveConnect(_) => 5,
        ExchangeView::SaveMeld(_) => 4,
        ExchangeView::SaveReload(_) => 3,
        ExchangeView::SaveRead(_) => 2,
        ExchangeView::SaveSend(_) => 1,
        ExchangeView::RefreshUpdate => 7,
        ExchangeView::RefreshStage => 6,
        ExchangeView::RefreshUnstage => 5,
        ExchangeView::RefreshMeld => 4,
        ExchangeView::RefreshPull => 3,
        ExchangeView::RefreshReplay => 2,
        ExchangeView::RefreshRead => 1,
        ExchangeView::Ended => 0,
    }
}

/// The exchange has nothing more to ask for.
pub open spec fn is_end(request: RequestView) -> bool {
    request is Finished || request is Saved || request is Refused || request is Unreadable
}

/// Every exchange ends: each reply brings it nearer to its end, and it has ended exactly when it
/// has nothing more to ask for.
pub proof fn law_exchanges_end(s: EditorView, exchange: ExchangeView, reply: ReplyView)
    requires
        exchange.expects(reply),
    ensures
        replies_left(s.advanced(exchange, reply).1) < replies_left(exchange),
        s.advanced(exchange, reply).1 is Ended <==> is_end(s.advanced(exchange, reply).2),
{
}

/// An exchange changes the text only when it has read a document.
pub proof fn law_exchange_keeps_text(s: EditorView, exchange: ExchangeView, reply: ReplyView)
    requires
        !(exchange is LoadRead || exchange is SaveRead || exchange is RefreshRead),
    ensures
        s.advanced(exchange, reply).0.rows == s.rows,
        s.advanced(exchange, reply).0.n_bytes == s.n_bytes,
{
}

/// What was committed in the course of saving, once that is known.
pub open spec fn committed(exchange: ExchangeView) -> Option<Seq<char>> {
    match exchange {
        ExchangeView::SaveConnect(text) => text,
        ExchangeView::SaveMeld(text) => text,
        ExchangeView::SaveReload(text) => text,
        ExchangeView::SaveRead(text) => text,
        ExchangeView::SaveSend(text) => Some(text),
        _ => None,
    }
}

/// What was committed is sent, and saving ends with its name; what was not committed is not sent.
pub proof fn law_commits_are_sent(s: EditorView, exchange: ExchangeView, reply: ReplyView)
    requires
        exchange is SaveConnect || exchange is SaveMeld || exchange is SaveReload
            || exchange is SaveRead || exchange is SaveSend,
    ensures
        ({
            let (_, next, request) = s.advanced(exchange, reply);
            &&& !(next is Ended) ==> committed(next) == committed(exchange)
            &&& request is MeldToRemote ==> committed(exchange) is Some
            &&& request matches RequestView::Saved(text) ==> if exchange is SaveSend {
                committed(exchange) == Some(text)
            } else {
                committed(exchange) is None && text == "Nothing"@
            }
        }),
{
}

/// Changes of others are read into the text before the exchange ends: whatever was melded into
/// the local replica while saving.
pub proof fn law_melded_changes_are_read(
    s: EditorView,
    committed: Option<Seq<char>>,
    items: Seq<Seq<char>>,
)
    ensures
        s.advanced(ExchangeView::SaveMeld(committed), ReplyView::Melded(items)).2 is ReloadLocal
            <==> items.len() > 0,
{
}

} // verus!
