//! Prompts: asking for a file name, a query, a line number, a command, a name or a password.
use vstd::prelude::*;
use vstd::string::*;
use vstd::utf8::encode_utf8;

use crate::cursor::CursorState;
use crate::find::{law_match_cleared_keeps_text, law_search_keeps_text};
use crate::keys::{AKey, Key, BACKSPACE, DELETE_BIS, EXIT, FIND};
use crate::row::{rx2cx, width};
use crate::state::{AdapterReadyFor, Editor, EditorView, PromptMode, PromptView};
use crate::step::{Step, StepView};
use crate::text::{
    chars_of, parse_unsigned, push_repeated, repeated, split_words, trim, trimmed, unsigned_value,
    views, words, IntError,
};

verus! {

/// The state of the prompt after processing a keypress event.
pub enum PromptState {
    /// Active contains the current buffer
    Active(String),
    /// Completed contains the final string
    Completed(String),
    Cancelled,
}

pub enum PromptStateView {
    Active(Seq<char>),
    Completed(Seq<char>),
    Cancelled,
}

impl View for PromptState {
    type V = PromptStateView;

    open spec fn view(&self) -> PromptStateView {
        match self {
            PromptState::Active(b) => PromptStateView::Active(b@),
            PromptState::Completed(b) => PromptStateView::Completed(b@),
            PromptState::Cancelled => PromptStateView::Cancelled,
        }
    }
}

/// The prompt after a key: Enter completes it, Escape and Ctrl-Q cancel it, Backspace removes the
/// last character, a printable ASCII character is appended, and all other keys change nothing.
pub open spec fn prompted(buffer: Seq<char>, key: Key) -> PromptStateView {
    match key {
        Key::Escape => PromptStateView::Cancelled,
        Key::Char(c) => if c == 0x0d {
            PromptStateView::Completed(buffer)
        } else if c == EXIT {
            PromptStateView::Cancelled
        } else if c == BACKSPACE || c == DELETE_BIS {
            PromptStateView::Active(
                if buffer.len() > 0 {
                    buffer.drop_last()
                } else {
                    buffer
                },
            )
        } else if 0x20 <= c <= 0x7e {
            PromptStateView::Active(buffer.push(c as char))
        } else {
            PromptStateView::Active(buffer)
        },
        _ => PromptStateView::Active(buffer),
    }
}

/// Process a prompt keypress event and return the new state for the prompt.
pub fn process_prompt_keypress(buffer: String, key: &Key) -> (r: PromptState)
    ensures
        r@ == prompted(buffer@, *key),
{
    let mut buffer = buffer;
    match key {
        Key::Escape => PromptState::Cancelled,
        Key::Char(c) => {
            let c: u8 = *c;
            if c == 0x0d {
                return PromptState::Completed(buffer);
            }
            if c == EXIT {
                return PromptState::Cancelled;
            }
            if c == BACKSPACE || c == DELETE_BIS {
                let _ = buffer.pop();
            } else if c >= 0x20 && c <= 0x7e {
                buffer.push(c as char);
            }
            PromptState::Active(buffer)
        },
        // No-op
        _ => PromptState::Active(buffer),
    }
}

impl PromptView {
    pub open spec fn status(self) -> Seq<char> {
        match self {
            PromptView::Username(buffer) => "Username: "@ + buffer,
            PromptView::Password(buffer) => "Password: "@ + repeated(
                '*',
                encode_utf8(buffer).len(),
            ),
            PromptView::Save(buffer) => "Save as: "@ + buffer,
            PromptView::Find(buffer, _, _) => "Search (Use ESC/Arrows/Enter): "@ + buffer,
            PromptView::GoTo(buffer) => "Enter line number[:column number]: "@ + buffer,
            PromptView::Execute(buffer) => "Command to execute: "@ + buffer,
        }
    }
}

/// `start` followed by `rest`.
fn joined(start: &str, rest: &str) -> (r: String)
    ensures
        r@ == start@ + rest@,
{
    let mut s = start.to_string();
    s.append(rest);
    s
}

impl PromptMode {
    /// Return the status message to print for the selected `PromptMode`.
    pub fn status_msg(&self) -> (r: String)
        ensures
            r@ == self@.status(),
    {
        match self {
            PromptMode::Username(buffer) => joined("Username: ", buffer.as_str()),
            PromptMode::Password(buffer) => {
                let mut msg = "Password: ".to_string();
                push_repeated(&mut msg, '*', buffer.as_str().as_bytes().len());
                msg
            },
            PromptMode::Save(buffer) => joined("Save as: ", buffer.as_str()),
            PromptMode::Find(buffer, _, _) => joined(
                "Search (Use ESC/Arrows/Enter): ",
                buffer.as_str(),
            ),
            PromptMode::GoTo(buffer) => joined(
                "Enter line number[:column number]: ",
                buffer.as_str(),
            ),
            PromptMode::Execute(buffer) => joined("Command to execute: ", buffer.as_str()),
        }
    }
}

/// The number of characters before the first colon.
pub open spec fn colon(s: Seq<char>) -> nat
    decreases s.len(),
{
    if s.len() == 0 || s[0] == ':' {
        0
    } else {
        1 + colon(s.skip(1))
    }
}

/// The index that the text of a number stands for: numbers begin at 1, indices at 0.
pub open spec fn index(s: Seq<char>) -> Result<nat, IntError> {
    match unsigned_value(trim(s), usize::MAX as nat) {
        Ok(v) => Ok(
            if v > 0 {
                (v - 1) as nat
            } else {
                0
            },
        ),
        Err(e) => Err(e),
    }
}

/// The row, and the column if it is given, that `line[:column]` stands for.
pub open spec fn place(s: Seq<char>) -> Result<(nat, Option<nat>), IntError> {
    let n = colon(s) as int;
    match index(s.take(n)) {
        Ok(y) => if n < s.len() {
            match index(s.skip(n + 1)) {
                Ok(x) => Ok((y, Some(x))),
                Err(e) => Err(e),
            }
        } else {
            Ok((y, None))
        },
        Err(e) => Err(e),
    }
}

/// The index that the text of a number stands for.
fn parse_index(chars: &Vec<char>, from: usize, to: usize) -> (r: Result<usize, IntError>)
    requires
        from <= to <= chars@.len(),
    ensures
        match r {
            Ok(v) => index(chars@.subrange(from as int, to as int)) == Ok::<nat, IntError>(v as nat),
            Err(e) => index(chars@.subrange(from as int, to as int)) == Err::<nat, IntError>(e),
        },
{
    let text = trimmed(chars, from, to);
    match parse_unsigned(text.as_str(), usize::MAX as u64) {
        // saturating_sub: Lines and cols are 1-indexed
        Ok(v) => Ok((v as usize).saturating_sub(1)),
        Err(e) => Err(e),
    }
}

pub open spec fn index_option(x: Option<usize>) -> Option<nat> {
    match x {
        Some(v) => Some(v as nat),
        None => None,
    }
}

/// The row, and the column if it is given, that `line[:column]` stands for.
pub fn parse_place(s: &str) -> (r: Result<(usize, Option<usize>), IntError>)
    ensures
        match r {
            Ok((y, x)) => place(s@) == Ok::<(nat, Option<nat>), IntError>(
                (y as nat, index_option(x)),
            ),
            Err(e) => place(s@) == Err::<(nat, Option<nat>), IntError>(e),
        },
{
    let chars = chars_of(s);
    let len = chars.len();
    let mut n: usize = 0;
    assert(s@.skip(0) == s@);
    while n < len && chars[n] != ':'
        invariant
            chars@ == s@,
            len == chars@.len(),
            n <= len,
            colon(s@) == n + colon(s@.skip(n as int)),
        decreases len - n,
    {
        assert(s@.skip(n as int).skip(1) == s@.skip(n + 1));
        n = n + 1;
    }
    assert(colon(s@) == n);
    assert(s@.subrange(0, n as int) == s@.take(n as int));
    let y = match parse_index(&chars, 0, n) {
        Ok(y) => y,
        Err(e) => {
            return Err(e);
        },
    };
    if n < len {
        assert(s@.subrange(n + 1, len as int) == s@.skip(n + 1));
        match parse_index(&chars, n + 1, len) {
            Ok(x) => Ok((y, Some(x))),
            Err(e) => Err(e),
        }
    } else {
        Ok((y, None))
    }
}

impl EditorView {
    /// The cursor was moved to row `y` or behind the last row, and to the given column if there
    /// is one.
    pub open spec fn gone_to(self, y: nat, x: Option<nat>) -> EditorView {
        let s = self.with_y(
            if y <= self.rows.len() {
                y as usize
            } else {
                self.rows.len() as usize
            },
        );
        match x {
            Some(rx) => s.with_x(
                match s.current_row() {
                    Some(row) => rx2cx(row.bytes(), s.tab())[rx as int] as usize,
                    None => 0,
                },
            ),
            None => s.x_clamped(),
        }
    }

    /// The column lies within the row or directly behind it.
    pub open spec fn go_to_ok(self, y: nat, x: Option<nat>) -> bool {
        x matches Some(rx) ==> y < self.rows.len() ==> rx <= width(
            self.rows[y as int].bytes(),
            self.tab(),
        )
    }

    /// The state after a line number was entered.
    pub open spec fn goto_completed(self, buffer: Seq<char>) -> EditorView {
        match place(buffer) {
            Ok((y, x)) => self.gone_to(y, x),
            Err(e) => self.with_status("Parsing error: "@ + e.text()),
        }
    }

    pub open spec fn goto_ok(self, buffer: Seq<char>) -> bool {
        place(buffer) matches Ok((y, x)) ==> self.go_to_ok(y, x)
    }
}

impl Editor {
    /// Whether `go_to` can be called.
    fn can_go_to(&self, y: usize, x: Option<usize>) -> (r: bool)
        requires
            self.wf(),
        ensures
            r == self@.go_to_ok(y as nat, index_option(x)),
    {
        match x {
            Some(rx) => {
                if y < self.rows.len() {
                    proof {
                        self.lemma_row(y as int);
                    }
                    rx < self.rows[y].rx2cx.len()
                } else {
                    true
                }
            },
            None => true,
        }
    }

    /// Move the cursor to a row, and to a column if it is given.
    pub fn go_to(&mut self, y: usize, x: Option<usize>)
        requires
            old(self).wf(),
            old(self)@.go_to_ok(y as nat, index_option(x)),
        ensures
            final(self).wf(),
            final(self)@ == old(self)@.gone_to(y as nat, index_option(x)),
    {
        let n = self.rows.len();
        self.cursor.y = if y <= n { y } else { n };
        match x {
            Some(rx) => {
                if self.cursor.y < n {
                    proof {
                        self.lemma_row(self.cursor.y as int);
                    }
                    self.cursor.x = self.rows[self.cursor.y].rx2cx[rx];
                } else {
                    self.cursor.x = 0;
                }
            },
            None => {
                self.update_cursor_x_position();
            },
        }
    }

    /// Go to the place that was entered, or show why there is none.
    fn complete_goto(&mut self, buffer: &str)
        requires
            old(self).wf(),
            old(self)@.goto_ok(buffer@),
        ensures
            final(self).wf(),
            final(self)@ == old(self)@.goto_completed(buffer@),
    {
        match parse_place(buffer) {
            Ok((y, x)) => self.go_to(y, x),
            Err(e) => self.set_status(joined("Parsing error: ", e.message().as_str())),
        }
    }
}

/// Where the search goes on after a key: behind (or before) the last match for the arrow keys and
/// Ctrl-F, else from the start.
pub open spec fn search_direction(key: Key, last_match: Option<usize>) -> (Option<usize>, bool) {
    match key {
        Key::Arrow(AKey::Right) => (last_match, true),
        Key::Arrow(AKey::Down) => (last_match, true),
        Key::Char(FIND) => (last_match, true),
        Key::Arrow(AKey::Left) => (last_match, false),
        Key::Arrow(AKey::Up) => (last_match, false),
        _ => (None, true),
    }
}

fn direction(key: &Key, last_match: Option<usize>) -> (r: (Option<usize>, bool))
    ensures
        r == search_direction(*key, last_match),
{
    match key {
        Key::Arrow(AKey::Right) => (last_match, true),
        Key::Arrow(AKey::Down) => (last_match, true),
        Key::Char(FIND) => (last_match, true),
        Key::Arrow(AKey::Left) => (last_match, false),
        Key::Arrow(AKey::Up) => (last_match, false),
        _ => (None, true),
    }
}

/// The row of a match.
pub open spec fn match_index(found: Option<int>) -> Option<usize> {
    match found {
        Some(i) => Some(i as usize),
        None => None,
    }
}

impl EditorView {
    /// The state without a status message.
    pub open spec fn without_status(self) -> EditorView {
        EditorView { status_msg: None, ..self }
    }

    /// What is to be done once the user of the remote document is known.
    pub open spec fn resumed(self) -> StepView {
        match self.ready_for->0 {
            AdapterReadyFor::LOADING => StepView::ResumeLoading(self.file_name->0),
            AdapterReadyFor::SAVING => StepView::ResumeSaving(self.file_name->0),
        }
    }

    /// The state after a key in the search prompt, and what the key asks for.
    pub open spec fn find_prompted(
        self,
        buffer: Seq<char>,
        saved_cursor: CursorState,
        last_match: Option<usize>,
        key: Key,
    ) -> (EditorView, StepView) {
        let s = self.without_status().match_cleared(last_match);
        match prompted(buffer, key) {
            PromptStateView::Active(query) => {
                let (start, forward) = search_direction(key, last_match);
                (
                    s.searched(query, start, forward),
                    StepView::Prompt(
                        Some(
                            PromptView::Find(
                                query,
                                saved_cursor,
                                match_index(s.found(query, start, forward)),
                            ),
                        ),
                    ),
                )
            },
            PromptStateView::Cancelled => (s.with_cursor(saved_cursor), StepView::Prompt(None)),
            PromptStateView::Completed(_) => (s, StepView::Prompt(None)),
        }
    }

    /// The state after a key in prompt mode, and what the key asks for.
    pub open spec fn prompt_processed(self, mode: PromptView, key: Key) -> (EditorView, StepView) {
        let s = self.without_status();
        match mode {
            PromptView::Save(b) => match prompted(b, key) {
                PromptStateView::Active(b) => (s, StepView::Prompt(Some(PromptView::Save(b)))),
                PromptStateView::Cancelled => (
                    s.with_status("Save aborted"@),
                    StepView::Prompt(None),
                ),
                PromptStateView::Completed(file_name) => (s, StepView::SaveAs(file_name)),
            },
            PromptView::Username(b) => match prompted(b, key) {
                PromptStateView::Active(b) => (s, StepView::Prompt(Some(PromptView::Username(b)))),
                PromptStateView::Cancelled => (s.with_status("No username"@), StepView::Prompt(None)),
                PromptStateView::Completed(username) => (
                    EditorView { username: Some(username), prompt_mode: None, ..s },
                    StepView::Prompt(Some(PromptView::Password(Seq::empty()))),
                ),
            },
            PromptView::Password(b) => match prompted(b, key) {
                PromptStateView::Active(b) => (s, StepView::Prompt(Some(PromptView::Password(b)))),
                PromptStateView::Cancelled => (s.with_status("No password"@), StepView::Prompt(None)),
                PromptStateView::Completed(password) => (
                    EditorView { password: Some(password), ..s },
                    s.resumed(),
                ),
            },
            PromptView::Find(b, saved_cursor, last_match) => self.find_prompted(
                b,
                saved_cursor,
                last_match,
                key,
            ),
            PromptView::GoTo(b) => match prompted(b, key) {
                PromptStateView::Active(b) => (s, StepView::Prompt(Some(PromptView::GoTo(b)))),
                PromptStateView::Cancelled => (s, StepView::Prompt(None)),
                PromptStateView::Completed(b) => (s.goto_completed(b), StepView::Prompt(None)),
            },
            PromptView::Execute(b) => match prompted(b, key) {
                PromptStateView::Active(b) => (s, StepView::Prompt(Some(PromptView::Execute(b)))),
                PromptStateView::Cancelled => (s, StepView::Prompt(None)),
                PromptStateView::Completed(b) => {
                    let w = words(b);
                    (
                        s,
                        if w.len() > 0 {
                            StepView::Execute(w[0], w.skip(1))
                        } else {
                            StepView::Execute(Seq::empty(), Seq::empty())
                        },
                    )
                },
            },
        }
    }

    /// The key can be processed: a row that was matched exists, a place that was entered exists,
    /// and a password is asked for a document.
    pub open spec fn prompt_ok(self, mode: PromptView, key: Key) -> bool {
        match mode {
            PromptView::Find(_, _, last_match) => last_match matches Some(i) ==> i
                < self.rows.len(),
            PromptView::GoTo(b) => prompted(b, key) matches PromptStateView::Completed(b)
                ==> self.goto_ok(b),
            PromptView::Password(b) => prompted(b, key) is Completed ==> self.file_name is Some
                && self.ready_for is Some,
            _ => true,
        }
    }
}

/// The program and its arguments.
fn command(buffer: &str) -> (r: Step)
    ensures
        r@ == (if words(buffer@).len() > 0 {
            StepView::Execute(words(buffer@)[0], words(buffer@).skip(1))
        } else {
            StepView::Execute(Seq::empty(), Seq::empty())
        }),
{
    let mut args = split_words(buffer);
    assert(views(args@).len() == args@.len());
    if args.len() > 0 {
        let program = args.remove(0);
        assert(views(args@) =~= words(buffer@).skip(1));
        Step::Execute(program, args)
    } else {
        assert(views(args@) =~= Seq::<Seq<char>>::empty());
        Step::Execute(String::new(), args)
    }
}

impl PromptMode {
    /// Process a keypress event in the search prompt.
    fn process_find(
        ed: &mut Editor,
        b: String,
        saved_cursor: CursorState,
        last_match: Option<usize>,
        key: &Key,
    ) -> (r: Step)
        requires
            old(ed).wf(),
            last_match matches Some(i) ==> i < old(ed).rows@.len(),
        ensures
            final(ed).wf(),
            (final(ed)@, r@) == old(ed)@.find_prompted(b@, saved_cursor, last_match, *key),
    {
        ed.status_msg = None;
        if let Some(row_idx) = last_match {
            ed.clear_match(row_idx);
        }
        match process_prompt_keypress(b, key) {
            PromptState::Active(query) => {
                let (start, forward) = direction(key, last_match);
                let curr_match = ed.find(query.as_str(), &start, forward);
                Step::Prompt(Some(PromptMode::Find(query, saved_cursor, curr_match)))
            },
            // The prompt was cancelled. Restore the previous position.
            PromptState::Cancelled => {
                ed.cursor = saved_cursor;
                Step::Prompt(None)
            },
            // Cursor has already been moved, do nothing
            PromptState::Completed(_) => Step::Prompt(None),
        }
    }

    /// Process a keypress event for the selected `PromptMode`.
    pub fn process_keypress(self, ed: &mut Editor, key: &Key) -> (r: Step)
        requires
            old(ed).wf(),
            old(ed)@.prompt_ok(self@, *key),
        ensures
            final(ed).wf(),
            (final(ed)@, r@) == old(ed)@.prompt_processed(self@, *key),
    {
        ed.status_msg = None;
        assert(ed@ == old(ed)@.without_status());
        match self {
            PromptMode::Save(b) => match process_prompt_keypress(b, key) {
                PromptState::Active(b) => {
                    return Step::Prompt(Some(PromptMode::Save(b)));
                },
                PromptState::Cancelled => ed.set_status("Save aborted".to_string()),
                PromptState::Completed(file_name) => {
                    return Step::SaveAs(file_name);
                },
            },
            PromptMode::Username(b) => match process_prompt_keypress(b, key) {
                PromptState::Active(b) => {
                    return Step::Prompt(Some(PromptMode::Username(b)));
                },
                PromptState::Cancelled => ed.set_status("No username".to_string()),
                PromptState::Completed(username) => {
                    ed.username = Some(username);
                    ed.prompt_mode = None;
                    return Step::Prompt(Some(PromptMode::Password(String::new())));
                },
            },
            PromptMode::Password(b) => match process_prompt_keypress(b, key) {
                PromptState::Active(b) => {
                    return Step::Prompt(Some(PromptMode::Password(b)));
                },
                PromptState::Cancelled => ed.set_status("No password".to_string()),
                PromptState::Completed(password) => {
                    ed.password = Some(password);
                    if let (Some(file_name), Some(ready_for)) = (&ed.file_name, &ed.ready_for) {
                        return match ready_for {
                            AdapterReadyFor::LOADING => Step::ResumeLoading(file_name.clone()),
                            AdapterReadyFor::SAVING => Step::ResumeSaving(file_name.clone()),
                        };
                    }
                },
            },
            PromptMode::Find(b, saved_cursor, last_match) => {
                return Self::process_find(ed, b, saved_cursor, last_match, key);
            },
            PromptMode::GoTo(b) => match process_prompt_keypress(b, key) {
                PromptState::Active(b) => {
                    return Step::Prompt(Some(PromptMode::GoTo(b)));
                },
                PromptState::Cancelled => {},
                PromptState::Completed(b) => ed.complete_goto(b.as_str()),
            },
            PromptMode::Execute(b) => match process_prompt_keypress(b, key) {
                PromptState::Active(b) => {
                    return Step::Prompt(Some(PromptMode::Execute(b)));
                },
                PromptState::Cancelled => {},
                PromptState::Completed(b) => {
                    return command(b.as_str());
                },
            },
        }
        Step::Prompt(None)
    }

    /// Whether `process_keypress` can be called with this key.
    pub fn accepts(&self, ed: &Editor, key: &Key) -> (r: bool)
        requires
            ed.wf(),
        ensures
            r == ed@.prompt_ok(self@, *key),
    {
        let enter = match key {
            Key::Char(0x0du8) => true,
            _ => false,
        };
        match self {
            PromptMode::Find(_, _, Some(i)) => *i < ed.rows.len(),
            PromptMode::GoTo(b) => !enter || match parse_place(b.as_str()) {
                Ok((y, x)) => ed.can_go_to(y, x),
                Err(_) => true,
            },
            PromptMode::Password(_) => !enter || (ed.file_name.is_some() && ed.ready_for.is_some()),
            _ => true,
        }
    }
}

/// Backspace takes back a character that was typed into a prompt.
pub proof fn law_prompt_backspace(buffer: Seq<char>, c: u8)
    requires
        0x20 <= c <= 0x7e,
    ensures
        prompted(buffer, Key::Char(c)) == PromptStateView::Active(buffer.push(c as char)),
        prompted(buffer.push(c as char), Key::Char(BACKSPACE)) == PromptStateView::Active(buffer),
{
    assert(buffer.push(c as char).drop_last() == buffer);
}

/// A password is not shown: only its length is.
pub proof fn law_password_is_hidden(a: Seq<char>, b: Seq<char>)
    requires
        encode_utf8(a).len() == encode_utf8(b).len(),
    ensures
        PromptView::Password(a).status() == PromptView::Password(b).status(),
{
}

/// Cancelling a search brings the cursor back to where it was, and the text is the same.
pub proof fn law_search_cancelled(
    s: EditorView,
    buffer: Seq<char>,
    saved_cursor: CursorState,
    last_match: Option<usize>,
    key: Key,
)
    requires
        prompted(buffer, key) is Cancelled,
        last_match matches Some(i) ==> i < s.rows.len(),
    ensures
        ({
            let (t, step) = s.prompt_processed(
                PromptView::Find(buffer, saved_cursor, last_match),
                key,
            );
            &&& t.cursor == saved_cursor
            &&& t.text() == s.text()
            &&& t.n_bytes == s.n_bytes
            &&& t.dirty == s.dirty
            &&& step == StepView::Prompt(None)
        }),
{
    law_match_cleared_keeps_text(s.without_status(), last_match);
}

/// A prompt changes the text only through the steps that it asks for: no key in a prompt does.
pub proof fn law_prompts_keep_text(s: EditorView, mode: PromptView, key: Key)
    requires
        s.prompt_ok(mode, key),
    ensures
        ({
            let t = s.prompt_processed(mode, key).0;
            t.text() == s.text() && t.n_bytes == s.n_bytes && t.dirty == s.dirty
        }),
{
    if let PromptView::Find(b, saved_cursor, last_match) = mode {
        let m = s.without_status();
        law_match_cleared_keeps_text(m, last_match);
        if let PromptStateView::Active(query) = prompted(b, key) {
            let (start, forward) = search_direction(key, last_match);
            law_search_keeps_text(m.match_cleared(last_match), query, start, forward);
        }
    }
}

} // verus!
