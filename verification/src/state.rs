//! The state of the editor.
use vstd::prelude::*;

use crate::config::Config;
use crate::cursor::CursorState;
use crate::row::{fits, Row, RowView};
use crate::syntax::{Conf, ConfView};

verus! {

/// `std::time::Instant`: a moment of the system's clock.
#[verifier::external_type_specification]
#[verifier::external_body]
pub struct ExInstant(std::time::Instant);

/// `std::time::Instant::now`: the present moment, of which nothing is claimed.
#[verifier::external_body]
fn now() -> (r: std::time::Instant) {
    std::time::Instant::now()
}

/// `std::time::Instant::elapsed`: the time since the moment, in nanoseconds, of which nothing is
/// claimed.
#[verifier::external_body]
pub(crate) fn elapsed(time: &std::time::Instant) -> (r: u128) {
    time.elapsed().as_nanos()
}

/// The help that is shown when the editor starts.
pub const HELP_MESSAGE: &'static str =
    "Ctrl-S = save | Ctrl-Q = quit | Ctrl-F = find | Ctrl-G = go to | Ctrl-D = duplicate | Ctrl-E = execute";

/// Describes a status message, shown at the bottom at the screen.
pub struct StatusMessage {
    /// The message to display.
    pub msg: String,
    /// The `Instant` the status message was first displayed.
    pub time: std::time::Instant,
}

impl StatusMessage {
    /// A status message that is displayed from the given moment on.
    pub fn at(msg: String, time: std::time::Instant) -> (r: StatusMessage)
        ensures
            r == (StatusMessage { msg, time }),
    {
        StatusMessage { msg, time }
    }

    /// Create a new status message and set time to the current date/time. Which moment that is,
    /// the clock says.
    pub fn new(msg: String) -> (r: StatusMessage)
        ensures
            r.msg == msg,
    {
        StatusMessage::at(msg, now())
    }
}

/// What the editor waits to do with a remote document until a user name is known.
#[derive(Clone, Copy, PartialEq, Eq, Structural, Debug)]
pub enum AdapterReadyFor {
    LOADING,
    SAVING,
}

/// The prompt mode.
pub enum PromptMode {
    /// Save(prompt buffer)
    Save(String),
    /// Find(prompt buffer, saved cursor state, last match)
    Find(String, CursorState, Option<usize>),
    /// GoTo(prompt buffer)
    GoTo(String),
    /// Execute(prompt buffer)
    Execute(String),
    /// Solid username
    Username(String),
    /// Solid password
    Password(String),
}

pub enum PromptView {
    Save(Seq<char>),
    Find(Seq<char>, CursorState, Option<usize>),
    GoTo(Seq<char>),
    Execute(Seq<char>),
    Username(Seq<char>),
    Password(Seq<char>),
}

impl View for PromptMode {
    type V = PromptView;

    open spec fn view(&self) -> PromptView {
        match self {
            PromptMode::Save(b) => PromptView::Save(b@),
            PromptMode::Find(b, c, m) => PromptView::Find(b@, *c, *m),
            PromptMode::GoTo(b) => PromptView::GoTo(b@),
            PromptMode::Execute(b) => PromptView::Execute(b@),
            PromptMode::Username(b) => PromptView::Username(b@),
            PromptMode::Password(b) => PromptView::Password(b@),
        }
    }
}

pub open spec fn prompt_view(p: Option<PromptMode>) -> Option<PromptView> {
    match p {
        Some(m) => Some(m@),
        None => None,
    }
}

pub open spec fn text_view(s: Option<String>) -> Option<Seq<char>> {
    match s {
        Some(t) => Some(t@),
        None => None,
    }
}

/// The `Editor` struct, contains the state and configuration of the text editor.
pub struct Editor {
    /// If not `None`, the current prompt mode (Save, Find, GoTo). If `None`, we are in regular
    /// edition mode.
    pub prompt_mode: Option<PromptMode>,
    /// The current state of the cursor.
    pub cursor: CursorState,
    /// The padding size used on the left for line numbering.
    pub ln_pad: usize,
    /// The width of the current window. Will be updated when the window is resized.
    pub window_width: usize,
    /// The number of rows that can be used for the editor, excluding the status bar and the
    /// message bar
    pub screen_rows: usize,
    /// The number of columns that can be used for the editor, excluding the part used for line
    /// numbers
    pub screen_cols: usize,
    /// The collection of rows, including the content and the syntax highlighting information.
    pub rows: Vec<Row>,
    /// Whether the document has been modified since it was open.
    pub dirty: bool,
    /// The configuration for the editor.
    pub config: Config,
    /// The number of warnings remaining before we can quit without saving. Defaults to
    /// `config.quit_times`, then decreases to 0.
    pub quit_times: usize,
    /// The file name. If None, the user will be prompted for a file name the first time they try
    /// to save.
    pub file_name: Option<String>,
    /// The current status message being shown.
    pub status_msg: Option<StatusMessage>,
    /// The syntax configuration corresponding to the current file's extension.
    pub syntax: Conf,
    /// The number of bytes contained in `rows`. This excludes new lines.
    pub n_bytes: u64,
    /// Currently loaded url. There is a remote replica exactly if it is not `None`.
    pub remote_url: Option<String>,
    /// Adapter status
    pub ready_for: Option<AdapterReadyFor>,
    /// Username
    pub username: Option<String>,
    /// Password
    pub password: Option<String>,
}

/// What the contracts say about an editor: its state without the tables of the rows and the
/// moments of the messages.
pub struct EditorView {
    pub prompt_mode: Option<PromptView>,
    pub cursor: CursorState,
    pub ln_pad: usize,
    pub window_width: usize,
    pub screen_rows: usize,
    pub screen_cols: usize,
    pub rows: Seq<RowView>,
    pub dirty: bool,
    pub config: Config,
    pub quit_times: usize,
    pub file_name: Option<Seq<char>>,
    pub status_msg: Option<Seq<char>>,
    pub syntax: ConfView,
    pub n_bytes: u64,
    pub remote_url: Option<Seq<char>>,
    pub ready_for: Option<AdapterReadyFor>,
    pub username: Option<Seq<char>>,
    pub password: Option<Seq<char>>,
}

pub open spec fn row_views(rows: Seq<Row>) -> Seq<RowView> {
    Seq::new(rows.len(), |i: int| rows[i]@)
}

pub open spec fn laid_out(rows: Seq<Row>, tab: nat) -> bool {
    forall|i: int| 0 <= i < rows.len() ==> (#[trigger] rows[i]).laid_out(tab)
}

impl View for Editor {
    type V = EditorView;

    open spec fn view(&self) -> EditorView {
        EditorView {
            prompt_mode: prompt_view(self.prompt_mode),
            cursor: self.cursor,
            ln_pad: self.ln_pad,
            window_width: self.window_width,
            screen_rows: self.screen_rows,
            screen_cols: self.screen_cols,
            rows: row_views(self.rows@),
            dirty: self.dirty,
            config: self.config,
            quit_times: self.quit_times,
            file_name: text_view(self.file_name),
            status_msg: match self.status_msg {
                Some(m) => Some(m.msg@),
                None => None,
            },
            syntax: self.syntax@,
            n_bytes: self.n_bytes,
            remote_url: text_view(self.remote_url),
            ready_for: self.ready_for,
            username: text_view(self.username),
            password: text_view(self.password),
        }
    }
}

/// The number of bytes of the rows.
pub open spec fn total_bytes(rows: Seq<RowView>) -> nat
    decreases rows.len(),
{
    if rows.len() == 0 {
        0
    } else {
        total_bytes(rows.drop_last()) + rows.last().chars.len()
    }
}

/// The columns of a text of `bytes` bytes, and its `rows` rows, can be counted.
pub open spec fn countable(bytes: nat, rows: nat, tab: nat) -> bool {
    &&& fits(bytes, tab)
    &&& rows + 32 <= usize::MAX
}

impl EditorView {
    pub open spec fn tab(self) -> nat {
        self.config.tab_stop as nat
    }

    /// There is room for `bytes` more bytes and `rows` more rows.
    pub open spec fn room(self, bytes: nat, rows: nat) -> bool {
        countable(total_bytes(self.rows) + bytes, self.rows.len() + rows, self.tab())
    }

    /// `n_bytes` is the number of bytes of the rows, which can be counted.
    pub open spec fn wf(self) -> bool {
        &&& self.n_bytes == total_bytes(self.rows)
        &&& self.room(0, 0)
    }

    /// The cursor points to a place of the text, or behind the last row.
    pub open spec fn cursor_ok(self) -> bool {
        &&& self.cursor.y <= self.rows.len()
        &&& self.cursor.x <= self.row_len()
    }

    pub open spec fn current_row(self) -> Option<RowView> {
        if self.cursor.y < self.rows.len() {
            Some(self.rows[self.cursor.y as int])
        } else {
            None
        }
    }

    /// The length of the row that the cursor points to, 0 if there is none.
    pub open spec fn row_len(self) -> nat {
        match self.current_row() {
            Some(row) => row.chars.len(),
            None => 0,
        }
    }

    pub open spec fn with_status(self, msg: Seq<char>) -> EditorView {
        EditorView { status_msg: Some(msg), ..self }
    }

    pub open spec fn with_cursor(self, cursor: CursorState) -> EditorView {
        EditorView { cursor, ..self }
    }

    pub open spec fn with_x(self, x: usize) -> EditorView {
        self.with_cursor(CursorState { x, ..self.cursor })
    }

    pub open spec fn with_y(self, y: usize) -> EditorView {
        self.with_cursor(CursorState { y, ..self.cursor })
    }

    pub open spec fn with_rows(self, rows: Seq<RowView>) -> EditorView {
        EditorView { rows, ..self }
    }
}

impl Editor {
    /// The tables belong to the rows, and the bytes are counted.
    pub open spec fn wf(&self) -> bool {
        &&& self@.wf()
        &&& laid_out(self.rows@, self@.tab())
    }
}

/// A text without rows and without a name, a screen without a size.
pub open spec fn initial(config: Config) -> EditorView {
    EditorView {
        prompt_mode: None,
        cursor: CursorState { x: 0, y: 0, roff: 0, coff: 0 },
        ln_pad: 0,
        window_width: 0,
        screen_rows: 0,
        screen_cols: 0,
        rows: Seq::empty(),
        dirty: false,
        config,
        quit_times: 0,
        file_name: None,
        status_msg: None,
        syntax: ConfView { name: Seq::empty(), ml_comment_delims: None },
        n_bytes: 0,
        remote_url: None,
        ready_for: None,
        username: None,
        password: None,
    }
}

pub(crate) fn empty_editor(config: Config) -> (r: Editor)
    ensures
        r@ == initial(config),
        r.rows@.len() == 0,
{
    let r = Editor {
        prompt_mode: None,
        cursor: CursorState { x: 0, y: 0, roff: 0, coff: 0 },
        ln_pad: 0,
        window_width: 0,
        screen_rows: 0,
        screen_cols: 0,
        rows: Vec::new(),
        dirty: false,
        config,
        quit_times: 0,
        file_name: None,
        status_msg: None,
        syntax: Conf::plain(),
        n_bytes: 0,
        remote_url: None,
        ready_for: None,
        username: None,
        password: None,
    };
    assert(r@.rows =~= Seq::<RowView>::empty());
    r
}

impl Default for Editor {
    fn default() -> (r: Editor)
        ensures
            r.wf(),
            r@ == initial(
                Config {
                    tab_stop: 4,
                    quit_times: 2,
                    message_dur: 3_000_000_000,
                    show_line_num: true,
                },
            ),
    {
        assert(fits(0, 4)) by {
            assert(crate::row::tab_width(4) == 4);
        }
        empty_editor(Config::default())
    }
}

impl Editor {
    /// Set the status message, which is displayed from the given moment on.
    pub fn set_status_at(&mut self, msg: String, time: std::time::Instant)
        ensures
            final(self)@ == old(self)@.with_status(msg@),
            final(self).status_msg == Some(StatusMessage { msg, time }),
            final(self).rows == old(self).rows,
    {
        self.status_msg = Some(StatusMessage::at(msg, time));
    }

    /// Set the status message, which is displayed from now on.
    pub fn set_status(&mut self, msg: String)
        ensures
            final(self)@ == old(self)@.with_status(msg@),
            final(self).rows == old(self).rows,
    {
        self.set_status_at(msg, now());
    }

    /// Return the current row if the cursor points to an existing row, `None` otherwise.
    pub fn current_row(&self) -> (r: Option<&Row>)
        ensures
            match r {
                Some(row) => self.cursor.y < self.rows@.len() && *row
                    == self.rows@[self.cursor.y as int],
                None => self.cursor.y >= self.rows@.len(),
            },
            r is Some == self@.current_row() is Some,
            r matches Some(row) ==> row@ == self@.current_row()->0,
    {
        if self.cursor.y < self.rows.len() {
            Some(&self.rows[self.cursor.y])
        } else {
            None
        }
    }
}

} // verus!
