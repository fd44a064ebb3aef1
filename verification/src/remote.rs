//! Remote documents: where they are, and when the user is to be asked for a name.
use vstd::prelude::*;
use vstd::string::*;
use vstd::utf8::encode_utf8;

use crate::state::{text_view, AdapterReadyFor, Editor, EditorView, PromptMode, PromptView};

verus! {

/// The parts of a URL that the editor looks at.
pub struct RemoteUrl {
    /// The text that was parsed.
    pub source: String,
    /// The URL in its normal form.
    pub text: String,
    pub scheme: String,
    /// The user name in the URL, empty if there is none.
    pub username: String,
}

pub struct UrlView {
    pub source: Seq<char>,
    pub text: Seq<char>,
    pub scheme: Seq<char>,
    pub username: Seq<char>,
}

impl View for RemoteUrl {
    type V = UrlView;

    open spec fn view(&self) -> UrlView {
        UrlView {
            source: self.source@,
            text: self.text@,
            scheme: self.scheme@,
            username: self.username@,
        }
    }
}

pub open spec fn url_view(u: Option<RemoteUrl>) -> Option<UrlView> {
    match u {
        Some(url) => Some(url@),
        None => None,
    }
}

/// The URL that `url::Url::parse` makes of a text: the text, its serialization, its scheme and its
/// user name; `None` if the text is no absolute URL.
pub uninterp spec fn parsed_url(s: Seq<char>) -> Option<UrlView>;

/// The number of bytes of a text.
pub open spec fn byte_len(s: Seq<char>) -> nat {
    encode_utf8(s).len()
}

/// A text that can be parsed: its characters can be counted with a signed number of 32 bits.
pub open spec fn url_len_ok(s: Seq<char>) -> bool {
    byte_len(s) <= i32::MAX
}

/// The parts belong to the URL that the source stands for.
pub open spec fn is_url(u: UrlView) -> bool {
    parsed_url(u.source) == Some(u)
}

/// The text can be parsed, and the positions in the URL that it stands for, `more` bytes longer,
/// can be counted with 32 bits.
pub open spec fn has_url_room(s: Seq<char>, more: nat) -> bool {
    &&& url_len_ok(s)
    &&& parsed_url(s) matches Some(u) && byte_len(u.text) + more <= u32::MAX
}

/// `url::Url::parse`: whether a text is an absolute URL, and which. The characters of the
/// authority are counted with a signed number of 32 bits, for which the length leaves room.
#[verifier::external_body]
fn parse_url(s: &str) -> (r: Option<RemoteUrl>)
    requires
        url_len_ok(s@),
    ensures
        url_view(r) == parsed_url(s@),
        r matches Some(u) ==> u.source@ == s@,
{
    let u = url::Url::parse(s).ok()?;
    let text = u.as_str().to_string();
    let scheme = u.scheme().to_string();
    let username = u.username().to_string();
    Some(RemoteUrl { source: s.to_string(), text, scheme, username })
}

/// The URL that `url::Url::set_username` makes of the URL that a text stands for; `None` if it
/// cannot have a user name.
pub uninterp spec fn username_set(url: Seq<char>, username: Seq<char>) -> Option<Seq<char>>;

/// `url::Url::set_username`: the URL with this user name. The positions in a URL are counted with
/// 32 bits; a byte of the name takes at most three bytes, and an `@` may be added.
#[verifier::external_body]
fn set_username(url: &str, username: &str) -> (r: Option<String>)
    requires
        has_url_room(url@, 3 * byte_len(username@) + 1),
    ensures
        text_view(r) == username_set(url@, username@),
{
    let mut u = url::Url::parse(url).ok()?;
    u.set_username(username).ok()?;
    Some(u.to_string())
}

/// The URL that `url::Url::set_password` makes of the URL that a text stands for; `None` if it
/// cannot have a password.
pub uninterp spec fn password_set(url: Seq<char>, password: Seq<char>) -> Option<Seq<char>>;

/// `url::Url::set_password`: the URL with this password. The positions in a URL are counted with
/// 32 bits; a byte of the password takes at most three bytes, and `:` and `@` may be added.
#[verifier::external_body]
fn set_password(url: &str, password: &str) -> (r: Option<String>)
    requires
        has_url_room(url@, 3 * byte_len(password@) + 2),
    ensures
        text_view(r) == password_set(url@, password@),
{
    let mut u = url::Url::parse(url).ok()?;
    u.set_password(Some(password)).ok()?;
    Some(u.to_string())
}

/// The URL that `url::Url::set_username` and then `url::Url::set_password` make of the URL that a
/// text stands for; `None` if it cannot have them.
pub uninterp spec fn user_set(
    url: Seq<char>,
    username: Seq<char>,
    password: Seq<char>,
) -> Option<Seq<char>>;

/// `url::Url::set_username` followed by `url::Url::set_password` on the same URL: the URL with
/// this user name and this password. The positions in a URL are counted with 32 bits, as above.
#[verifier::external_body]
fn set_user(url: &str, username: &str, password: &str) -> (r: Option<String>)
    requires
        has_url_room(url@, 3 * (byte_len(username@) + byte_len(password@)) + 3),
    ensures
        text_view(r) == user_set(url@, username@, password@),
{
    let mut u = url::Url::parse(url).ok()?;
    u.set_username(username).ok()?;
    u.set_password(Some(password)).ok()?;
    Some(u.to_string())
}

/// Whether a name can be looked up: whether `remote_url` can be called.
pub fn can_parse(name: &str) -> (r: bool)
    ensures
        r == url_len_ok(name@),
{
    name.as_bytes().len() as u64 <= i32::MAX as u64
}

/// The remote document that a name stands for, `None` if it is the name of a file.
pub fn remote_url(name: &str) -> (r: Option<RemoteUrl>)
    requires
        url_len_ok(name@),
    ensures
        url_view(r) == parsed_url(name@),
        r matches Some(u) ==> is_url(u@) && u.source@ == name@,
{
    parse_url(name)
}

/// Whether the parts belong to the URL that the source stands for.
fn is_consistent(u: &RemoteUrl) -> (r: bool)
    requires
        url_len_ok(u.source@),
    ensures
        r == is_url(u@),
{
    match parse_url(u.source.as_str()) {
        Some(v) => v.text == u.text && v.scheme == u.scheme && v.username == u.username,
        None => false,
    }
}

/// The number of bytes of a text, 0 if there is none.
pub open spec fn option_len(s: Option<Seq<char>>) -> nat {
    match s {
        Some(text) => byte_len(text),
        None => 0,
    }
}

/// How the remote replica is made ready.
pub enum Connection {
    /// It is made anew, from this URL with the user's name and password.
    Connect(String),
    /// It is there already, and is read again.
    Reload,
    /// The URL cannot have a user name or a password.
    Refused,
}

pub enum ConnectionView {
    Connect(Seq<char>),
    Reload,
    Refused,
}

impl View for Connection {
    type V = ConnectionView;

    open spec fn view(&self) -> ConnectionView {
        match self {
            Connection::Connect(url) => ConnectionView::Connect(url@),
            Connection::Reload => ConnectionView::Reload,
            Connection::Refused => ConnectionView::Refused,
        }
    }
}

/// How a document is found.
pub enum Place {
    /// It is a file.
    File,
    /// It is remote, but the user is asked for a name first.
    NotReady,
    /// It is remote.
    Remote(RemoteUrl),
}

pub enum PlaceView {
    File,
    NotReady,
    Remote(UrlView),
}

impl View for Place {
    type V = PlaceView;

    open spec fn view(&self) -> PlaceView {
        match self {
            Place::File => PlaceView::File,
            Place::NotReady => PlaceView::NotReady,
            Place::Remote(u) => PlaceView::Remote(u@),
        }
    }
}

impl EditorView {
    /// Whether the document can be reached: a Solid pod only with a user name.
    pub open spec fn adapter_ready(self, u: UrlView) -> bool {
        !("solid"@.is_prefix_of(u.scheme) && u.username.len() == 0 && self.username is None)
    }

    /// The state after the check whether the document can be reached.
    pub open spec fn adapter_checked(self, u: UrlView) -> EditorView {
        if self.adapter_ready(u) {
            self
        } else {
            EditorView { prompt_mode: Some(PromptView::Username(Seq::empty())), ..self }
        }
    }

    /// The positions in the URL with the user's name and password can be counted with 32 bits,
    /// each byte of the two taking at most three bytes.
    pub open spec fn connect_ok(self, u: UrlView) -> bool {
        &&& url_len_ok(u.source)
        &&& byte_len(u.text) + 3 * (option_len(self.username) + option_len(self.password)) + 3
            <= u32::MAX
    }

    /// The URL with the user's name and password, as far as they are known.
    pub open spec fn auth_url(self, u: UrlView) -> Option<Seq<char>> {
        match (self.username, self.password) {
            (None, None) => Some(u.text),
            (Some(name), None) => if is_url(u) {
                username_set(u.source, name)
            } else {
                None
            },
            (None, Some(word)) => if is_url(u) {
                password_set(u.source, word)
            } else {
                None
            },
            (Some(name), Some(word)) => if is_url(u) {
                user_set(u.source, name, word)
            } else {
                None
            },
        }
    }

    /// How the remote replica is made ready: anew unless it is that of the same URL.
    pub open spec fn connection(self, u: UrlView) -> ConnectionView {
        if self.remote_url == Some(u.text) {
            ConnectionView::Reload
        } else {
            match self.auth_url(u) {
                Some(url) => ConnectionView::Connect(url),
                None => ConnectionView::Refused,
            }
        }
    }

    /// The state after the remote replica was made ready.
    pub open spec fn connected(self, u: UrlView) -> EditorView {
        if self.connection(u) is Connect {
            EditorView { remote_url: Some(u.text), ..self }
        } else {
            self
        }
    }

    /// The state after the place of a document was looked up, for loading or for saving it.
    pub open spec fn located(
        self,
        url: Option<UrlView>,
        purpose: AdapterReadyFor,
    ) -> (EditorView, PlaceView) {
        match url {
            Some(u) => {
                let s = EditorView { ready_for: Some(purpose), ..self };
                (
                    s.adapter_checked(u),
                    if s.adapter_ready(u) {
                        PlaceView::Remote(u)
                    } else {
                        PlaceView::NotReady
                    },
                )
            },
            None => (self, PlaceView::File),
        }
    }
}

/// Whether `s` begins with `start`.
fn starts_with(s: &str, start: &str) -> (r: bool)
    ensures
        r == start@.is_prefix_of(s@),
{
    let n = start.unicode_len();
    if s.unicode_len() < n {
        return false;
    }
    let mut i: usize = 0;
    while i < n
        invariant
            n == start@.len(),
            n <= s@.len(),
            i <= n,
            start@.take(i as int) == s@.take(i as int),
        decreases n - i,
    {
        if s.get_char(i) != start.get_char(i) {
            assert(s@.take(n as int)[i as int] != start@[i as int]);
            return false;
        }
        assert(start@.take(i + 1) =~= start@.take(i as int).push(start@[i as int]));
        assert(s@.take(i + 1) =~= s@.take(i as int).push(s@[i as int]));
        i = i + 1;
    }
    assert(start@.take(n as int) =~= start@);
    assert(s@.subrange(0, n as int) =~= s@.take(n as int));
    true
}

impl Editor {
    /// Whether the document can be reached. If not, the user is asked for a name.
    pub fn ensure_adapter_is_ready(&mut self, u: &RemoteUrl) -> (r: bool)
        ensures
            r == old(self)@.adapter_ready(u@),
            final(self)@ == old(self)@.adapter_checked(u@),
            final(self).rows == old(self).rows,
    {
        if starts_with(u.scheme.as_str(), "solid") && u.username.as_str().unicode_len() == 0
            && self.username.is_none() {
            self.prompt_mode = Some(PromptMode::Username(String::new()));
            false
        } else {
            true
        }
    }

    /// Whether `initialize_remote_replica` can be called.
    pub fn can_connect(&self, u: &RemoteUrl) -> (r: bool)
        ensures
            r == self@.connect_ok(u@),
    {
        let name: u128 = match &self.username {
            Some(name) => name.as_str().as_bytes().len() as u128,
            None => 0,
        };
        let word: u128 = match &self.password {
            Some(word) => word.as_str().as_bytes().len() as u128,
            None => 0,
        };
        can_parse(u.source.as_str()) && u.text.as_str().as_bytes().len() as u128 + 3 * (name + word)
            + 3 <= u32::MAX as u128
    }

    /// The URL with the user's name and password, `None` if it cannot have them.
    fn auth_url(&self, u: &RemoteUrl) -> (r: Option<String>)
        requires
            self@.connect_ok(u@),
        ensures
            text_view(r) == self@.auth_url(u@),
    {
        if self.username.is_none() && self.password.is_none() {
            return Some(u.text.clone());
        }
        if !is_consistent(u) {
            return None;
        }
        match (&self.username, &self.password) {
            (Some(name), Some(word)) => set_user(u.source.as_str(), name.as_str(), word.as_str()),
            (Some(name), None) => set_username(u.source.as_str(), name.as_str()),
            (None, Some(word)) => set_password(u.source.as_str(), word.as_str()),
            (None, None) => Some(u.text.clone()),
        }
    }

    /// How the remote replica is made ready. The URL of a new one is kept.
    pub fn initialize_remote_replica(&mut self, u: &RemoteUrl) -> (r: Connection)
        requires
            old(self)@.connect_ok(u@),
        ensures
            r@ == old(self)@.connection(u@),
            final(self)@ == old(self)@.connected(u@),
            final(self).rows == old(self).rows,
    {
        let same = match &self.remote_url {
            Some(url) => *url == u.text,
            None => false,
        };
        if same {
            return Connection::Reload;
        }
        match self.auth_url(u) {
            Some(url) => {
                self.remote_url = Some(u.text.clone());
                Connection::Connect(url)
            },
            None => Connection::Refused,
        }
    }

    /// How a document is found for which the URL is given, `None` if it is a file.
    pub fn locate(&mut self, url: Option<RemoteUrl>, purpose: AdapterReadyFor) -> (r: Place)
        ensures
            (final(self)@, r@) == old(self)@.located(url_view(url), purpose),
            final(self).rows == old(self).rows,
    {
        match url {
            Some(u) => {
                self.ready_for = Some(purpose);
                if self.ensure_adapter_is_ready(&u) {
                    Place::Remote(u)
                } else {
                    Place::NotReady
                }
            },
            None => Place::File,
        }
    }
}

/// A new connection is made with the user's name and password, but the URL that is kept is that of
/// the document; the same URL is not connected to again.
pub proof fn law_connected_url_is_kept(s: EditorView, u: UrlView)
    requires
        is_url(u),
        s.remote_url == Some(u.text) || s.auth_url(u) is Some,
    ensures
        s.connected(u) == (EditorView { remote_url: Some(u.text), ..s }),
        s.connection(u) == if s.remote_url == Some(u.text) {
            ConnectionView::Reload
        } else {
            ConnectionView::Connect(s.auth_url(u)->0)
        },
        s.connected(u).connection(u) is Reload,
{
}

} // verus!
