//! Keys outside of prompts: moving, editing and commands.
use vstd::prelude::*;
use vstd::string::*;

use crate::cursor::minus;
use crate::keys::{
    AKey, Key, PageKey, BACKSPACE, DELETE_BIS, DUPLICATE, EXECUTE, EXIT, FIND, GOTO,
    REFRESH_REPLICA, REFRESH_SCREEN, REMOVE_LINE, SAVE, SAVE_AS,
};
use crate::row::{bytes_of, have_new_ids, is_new_id, lemma_new_id, tab_width, CharView};
use crate::state::{Editor, EditorView, PromptMode, PromptView};
use crate::step::{Step, StepView};
use crate::text::{decimal, push_decimal};

verus! {

/// How often Ctrl-Q is still to be pressed.
pub open spec fn quit_warning(n: nat) -> Seq<char> {
    "Press Ctrl+Q "@ + decimal(n) + " more "@ + (if n > 1 {
        "times"@
    } else {
        "time"@
    }) + " to quit."@
}

impl EditorView {
    /// The last row that a page down can reach.
    pub open spec fn page_down_row(self) -> int {
        self.cursor.roff + 2 * self.screen_rows - 1
    }

    pub open spec fn paged(self, key: PageKey) -> EditorView {
        self.with_y(
            match key {
                PageKey::Up => minus(self.cursor.roff as int, self.screen_rows as int) as usize,
                PageKey::Down => if self.page_down_row() <= self.rows.len() {
                    self.page_down_row() as usize
                } else {
                    self.rows.len() as usize
                },
            },
        ).x_clamped()
    }

    /// Ctrl-Q: a modified text is not left before the key was pressed often enough.
    pub open spec fn exit_pressed(self) -> (EditorView, StepView) {
        let n = (self.quit_times - 1) as nat;
        if !self.dirty || n == 0 {
            (self, StepView::Quit)
        } else {
            (
                EditorView { quit_times: n as usize, ..self.with_status(quit_warning(n)) },
                StepView::Prompt(None),
            )
        }
    }

    /// Ctrl-S: a text without a name is given one first.
    pub open spec fn save_step(self) -> StepView {
        match self.file_name {
            Some(file_name) => StepView::Save(file_name),
            None => StepView::Prompt(Some(PromptView::Save(Seq::empty()))),
        }
    }

    /// The state after a byte that is no command for the outside, whose new row, character or
    /// copied characters have the given identifiers.
    pub open spec fn byte_edited(
        self,
        c: u8,
        row_id: Seq<char>,
        id: Seq<char>,
        copy: Seq<CharView>,
    ) -> EditorView {
        if c == 0x0d || c == 0x0a {
            self.new_line_inserted(row_id)
        } else if c == BACKSPACE || c == DELETE_BIS {
            self.char_deleted()
        } else if c == REMOVE_LINE {
            self.current_row_deleted()
        } else if c == DUPLICATE {
            if self.current_row() is Some {
                self.row_duplicated(row_id, copy)
            } else {
                self
            }
        } else if is_command(c) {
            self
        } else {
            self.byte_inserted(c, row_id, id)
        }
    }

    /// What a byte asks for.
    pub open spec fn byte_step(self, c: u8) -> StepView {
        if c == SAVE {
            self.save_step()
        } else if c == SAVE_AS {
            StepView::Prompt(Some(PromptView::Save(Seq::empty())))
        } else if c == FIND {
            StepView::Prompt(Some(PromptView::Find(Seq::empty(), self.cursor, None)))
        } else if c == GOTO {
            StepView::Prompt(Some(PromptView::GoTo(Seq::empty())))
        } else if c == EXECUTE {
            StepView::Prompt(Some(PromptView::Execute(Seq::empty())))
        } else if c == REFRESH_REPLICA && self.remote_url is Some {
            StepView::RefreshReplica
        } else {
            StepView::Prompt(None)
        }
    }

    /// The state after a key that stands for no byte.
    pub open spec fn key_edited(self, key: Key) -> EditorView {
        match key {
            Key::Arrow(arrow) => self.moved(arrow),
            Key::CtrlArrow(arrow) => self.moved(arrow),
            Key::Page(page) => self.paged(page),
            Key::Home => self.with_x(0),
            Key::End => self.with_x(self.row_len() as usize),
            Key::Delete => self.moved(AKey::Right).char_deleted(),
            _ => self,
        }
    }

    /// The state after a key, and what the key asks for. All keys but Ctrl-Q take back the
    /// warnings that were given before quitting.
    pub open spec fn key_processed(
        self,
        key: Key,
        row_id: Seq<char>,
        id: Seq<char>,
        copy: Seq<CharView>,
    ) -> (EditorView, StepView) {
        if key == Key::Char(EXIT) {
            self.exit_pressed()
        } else {
            let s = match key {
                Key::Char(c) => self.byte_edited(c, row_id, id, copy),
                _ => self.key_edited(key),
            };
            (
                EditorView { quit_times: self.config.quit_times, ..s },
                match key {
                    Key::Char(c) => self.byte_step(c),
                    _ => StepView::Prompt(None),
                },
            )
        }
    }

    /// `copy` has the bytes of the current row, if there is one.
    pub open spec fn copies_row(self, copy: Seq<CharView>) -> bool {
        self.current_row() matches Some(row) ==> bytes_of(copy) == row.bytes()
    }

    /// The identifiers of a new row, a new character and a copied row are new ones.
    pub open spec fn new_ids(self, row_id: Seq<char>, id: Seq<char>, copy: Seq<CharView>) -> bool {
        is_new_id(row_id) && is_new_id(id) && have_new_ids(copy) && self.copies_row(copy)
    }

    pub open spec fn byte_ok(self, c: u8) -> bool {
        if c == 0x0d || c == 0x0a {
            self.insert_new_line_ok()
        } else if c == BACKSPACE || c == DELETE_BIS {
            self.delete_ok()
        } else if c == DUPLICATE {
            self.duplicate_ok()
        } else if c == EXIT {
            self.quit_times > 0
        } else if c == REMOVE_LINE || is_command(c) {
            true
        } else {
            self.insert_byte_ok()
        }
    }

    /// The key can be processed: there is room for what it inserts, and the numbers that it
    /// leads to can be counted.
    pub open spec fn key_ok(self, key: Key) -> bool {
        match key {
            Key::Arrow(arrow) => self.move_ok(arrow),
            Key::CtrlArrow(arrow) => self.move_ok(arrow),
            Key::Page(PageKey::Down) => 0 <= self.page_down_row() < usize::MAX,
            Key::Char(c) => self.byte_ok(c),
            _ => true,
        }
    }
}

/// There are identifiers of the form that new ones have.
pub proof fn lemma_some_ids(s: EditorView) -> (r: (Seq<char>, Seq<char>, Seq<CharView>))
    ensures
        s.new_ids(r.0, r.1, r.2),
{
    let id = lemma_new_id();
    let bytes = match s.current_row() {
        Some(row) => row.bytes(),
        None => Seq::empty(),
    };
    let copy = Seq::new(bytes.len(), |i: int| CharView { byte: bytes[i], id });
    assert(bytes_of(copy) =~= bytes);
    (id, id, copy)
}

/// The commands that leave the text as it is.
pub open spec fn is_command(c: u8) -> bool {
    c == REFRESH_SCREEN || c == REFRESH_REPLICA || c == EXIT || c == SAVE || c == SAVE_AS || c
        == FIND || c == GOTO || c == EXECUTE
}

fn command_byte(c: u8) -> (r: bool)
    ensures
        r == is_command(c),
{
    c == REFRESH_SCREEN || c == REFRESH_REPLICA || c == EXIT || c == SAVE || c == SAVE_AS || c
        == FIND || c == GOTO || c == EXECUTE
}

impl Editor {
    /// Ctrl-Q was pressed.
    fn press_exit(&mut self) -> (r: Step)
        requires
            old(self).wf(),
            old(self).quit_times > 0,
        ensures
            final(self).wf(),
            (final(self)@, r@) == old(self)@.exit_pressed(),
    {
        let quit_times: usize = self.quit_times - 1;
        if !self.dirty || quit_times == 0 {
            return Step::Quit;
        }
        let mut msg = "Press Ctrl+Q ".to_string();
        push_decimal(&mut msg, quit_times as u64);
        msg.append(" more ");
        msg.append(if quit_times > 1 { "times" } else { "time" });
        msg.append(" to quit.");
        self.set_status(msg);
        self.quit_times = quit_times;
        Step::Prompt(None)
    }

    /// Change the text as a byte says.
    fn edit_byte(&mut self, c: u8)
        requires
            old(self).wf(),
            old(self)@.byte_ok(c),
        ensures
            final(self).wf(),
            exists|row_id: Seq<char>, id: Seq<char>, copy: Seq<CharView>|
                old(self)@.new_ids(row_id, id, copy) && final(self)@ == #[trigger] old(
                    self,
                )@.byte_edited(c, row_id, id, copy),
    {
        let ghost s0 = self@;
        let ghost mut row_id: Seq<char>;
        let ghost mut id: Seq<char>;
        let ghost mut copy: Seq<CharView>;
        proof {
            let ids = lemma_some_ids(s0);
            row_id = ids.0;
            id = ids.1;
            copy = ids.2;
        }
        if c == 0x0d || c == 0x0a {
            self.insert_new_line();  // Enter
            proof {
                row_id = choose|row_id: Seq<char>|
                    is_new_id(row_id) && self@ == #[trigger] s0.new_line_inserted(row_id);
            }
        } else if c == BACKSPACE || c == DELETE_BIS {
            self.delete_char();  // Backspace or Ctrl + H
        } else if c == REMOVE_LINE {
            self.delete_current_row();
        } else if c == DUPLICATE {
            self.duplicate_current_row();
            proof {
                if s0.current_row() is Some {
                    let (r, chars) = choose|row_id: Seq<char>, chars: Seq<CharView>|
                        is_new_id(row_id) && have_new_ids(chars) && bytes_of(chars)
                            == s0.current_row()->0.bytes() && self@ == #[trigger] s0.row_duplicated(
                            row_id,
                            chars,
                        );
                    row_id = r;
                    copy = chars;
                }
            }
        } else if !command_byte(c) {
            self.insert_byte(c);
            proof {
                let (r, i) = choose|row_id: Seq<char>, id: Seq<char>|
                    is_new_id(row_id) && is_new_id(id) && self@ == #[trigger] s0.byte_inserted(
                        c,
                        row_id,
                        id,
                    );
                row_id = r;
                id = i;
            }
        }
        assert(self@ == s0.byte_edited(c, row_id, id, copy));
    }

    /// What a byte asks for.
    fn step_of(&self, c: u8) -> (r: Step)
        ensures
            r@ == self@.byte_step(c),
    {
        if c == SAVE {
            match &self.file_name {
                Some(file_name) => Step::Save(file_name.clone()),
                None => Step::Prompt(Some(PromptMode::Save(String::new()))),
            }
        } else if c == SAVE_AS {
            Step::Prompt(Some(PromptMode::Save(String::new())))
        } else if c == FIND {
            Step::Prompt(Some(PromptMode::Find(String::new(), self.cursor, None)))
        } else if c == GOTO {
            Step::Prompt(Some(PromptMode::GoTo(String::new())))
        } else if c == EXECUTE {
            Step::Prompt(Some(PromptMode::Execute(String::new())))
        } else if c == REFRESH_REPLICA && self.remote_url.is_some() {
            Step::RefreshReplica
        } else {
            Step::Prompt(None)
        }
    }

    /// Move the cursor or change the text as a key says that stands for no byte.
    fn edit_key(&mut self, key: &Key)
        requires
            old(self).wf(),
            old(self)@.key_ok(*key),
        ensures
            final(self).wf(),
            final(self)@ == old(self)@.key_edited(*key),
    {
        match key {
            Key::Arrow(arrow) => self.move_cursor(arrow),
            Key::CtrlArrow(arrow) => self.move_cursor(arrow),
            Key::Page(PageKey::Up) => {
                self.cursor.y = self.cursor.roff.saturating_sub(self.screen_rows);
                self.update_cursor_x_position();
            },
            Key::Page(PageKey::Down) => {
                let y: usize = self.cursor.roff + 2 * self.screen_rows - 1;
                let n = self.rows.len();
                self.cursor.y = if y <= n { y } else { n };
                self.update_cursor_x_position();
            },
            Key::Home => {
                self.cursor.x = 0;
            },
            Key::End => {
                self.cursor.x = match self.current_row() {
                    Some(row) => row.chars.len(),
                    None => 0,
                };
            },
            Key::Delete => {
                self.move_cursor(&AKey::Right);
                self.delete_char();
            },
            _ => {},
        }
    }

    /// Process a key that has been pressed, when not in prompt mode. Returns whether the program
    /// should exit, the prompt mode to switch to, or what is to be done outside.
    pub fn process_keypress(&mut self, key: &Key) -> (r: Step)
        requires
            old(self).wf(),
            old(self)@.key_ok(*key),
        ensures
            final(self).wf(),
            exists|row_id: Seq<char>, id: Seq<char>, copy: Seq<CharView>|
                old(self)@.new_ids(row_id, id, copy) && (final(self)@, r@) == #[trigger] old(
                    self,
                )@.key_processed(*key, row_id, id, copy),
    {
        let ghost s0 = self@;
        let ghost mut row_id: Seq<char>;
        let ghost mut id: Seq<char>;
        let ghost mut copy: Seq<CharView>;
        proof {
            let ids = lemma_some_ids(s0);
            row_id = ids.0;
            id = ids.1;
            copy = ids.2;
        }
        let quit_times = self.config.quit_times;
        let step = match key {
            Key::Char(c) => {
                if *c == EXIT {
                    let r = self.press_exit();
                    assert((self@, r@) == s0.key_processed(*key, row_id, id, copy));
                    return r;
                }
                let step = self.step_of(*c);
                self.edit_byte(*c);
                proof {
                    let (r, i, chars) = choose|
                        row_id: Seq<char>,
                        id: Seq<char>,
                        copy: Seq<CharView>,
                    |
                        s0.new_ids(row_id, id, copy) && self@ == #[trigger] s0.byte_edited(
                            *c,
                            row_id,
                            id,
                            copy,
                        );
                    row_id = r;
                    id = i;
                    copy = chars;
                }
                step
            },
            _ => {
                self.edit_key(key);
                Step::Prompt(None)
            },
        };
        self.quit_times = quit_times;
        assert((self@, step@) == s0.key_processed(*key, row_id, id, copy));
        step
    }
}

impl Editor {
    /// Whether there is room for `bytes` more bytes and `rows` more rows.
    pub fn has_room(&self, bytes: usize, rows: usize) -> (r: bool)
        requires
            self.wf(),
        ensures
            r == self@.room(bytes as nat, rows as nat),
    {
        let n = self.rows.len();
        let tab: usize = if self.config.tab_stop == 0 { 1 } else { self.config.tab_stop };
        let limit: usize = usize::MAX / tab;
        let total: u128 = self.n_bytes as u128 + bytes as u128 + 32;
        proof {
            let t = tab_width(self@.tab());
            assert(t == tab);
            assert(total * t <= usize::MAX <==> total <= limit) by (nonlinear_arith)
                requires
                    t == tab,
                    t >= 1,
                    limit == usize::MAX / tab,
            ;
        }
        total <= limit as u128 && n as u128 + rows as u128 + 32 <= usize::MAX as u128
    }

    /// Whether `insert_byte` can be called.
    pub fn can_insert_byte(&self) -> (r: bool)
        requires
            self.wf(),
        ensures
            r == self@.insert_byte_ok(),
    {
        let n = self.rows.len();
        match self.current_row() {
            Some(row) => self.cursor.x <= row.chars.len() && self.has_room(1, 0),
            None => self.cursor.y <= n + 1 && self.cursor.x < usize::MAX && self.has_room(1, 1),
        }
    }

    /// Whether `insert_new_line` can be called.
    pub fn can_insert_new_line(&self) -> (r: bool)
        requires
            self.wf(),
        ensures
            r == self@.insert_new_line_ok(),
    {
        let place_ok = match self.current_row() {
            Some(row) => self.cursor.x <= row.chars.len(),
            None => self.cursor.x == 0 && self.cursor.y <= self.rows.len(),
        };
        place_ok && self.has_room(0, 1)
    }

    /// Whether `process_keypress` can be called with this key.
    pub fn accepts(&self, key: &Key) -> (r: bool)
        requires
            self.wf(),
        ensures
            r == self@.key_ok(*key),
    {
        match key {
            Key::Arrow(arrow) => self.can_move(arrow),
            Key::CtrlArrow(arrow) => self.can_move(arrow),
            Key::Page(PageKey::Down) => {
                let y: u128 = self.cursor.roff as u128 + 2 * self.screen_rows as u128;
                0 < y && y <= usize::MAX as u128
            },
            Key::Char(c) => {
                let c: u8 = *c;
                if c == 0x0d || c == 0x0a {
                    self.can_insert_new_line()
                } else if c == BACKSPACE || c == DELETE_BIS {
                    self.cursor.x == 0 || self.cursor.y < self.rows.len()
                } else if c == DUPLICATE {
                    match self.current_row() {
                        Some(row) => self.has_room(row.chars.len(), 1),
                        None => true,
                    }
                } else if c == EXIT {
                    self.quit_times > 0
                } else {
                    c == REMOVE_LINE || command_byte(c) || self.can_insert_byte()
                }
            },
            _ => true,
        }
    }
}

/// The state after Ctrl-Q was pressed `n` times, none of which ended the program.
pub open spec fn exit_pressed_times(s: EditorView, n: nat) -> EditorView
    decreases n,
{
    if n == 0 {
        s
    } else {
        exit_pressed_times(s, (n - 1) as nat).exit_pressed().0
    }
}

/// A modified text is left when Ctrl-Q is pressed as often as the warnings say, not before.
pub proof fn law_quitting_takes_all_presses(s: EditorView, n: nat)
    requires
        s.dirty,
        n < s.quit_times,
    ensures
        exit_pressed_times(s, n).quit_times == s.quit_times - n,
        exit_pressed_times(s, n).dirty,
        exit_pressed_times(s, n).exit_pressed().1 is Quit <==> n + 1 == s.quit_times,
        exit_pressed_times(s, n).rows == s.rows,
    decreases n,
{
    if n > 0 {
        law_quitting_takes_all_presses(s, (n - 1) as nat);
    }
}

/// A text that is not modified is left at once.
pub proof fn law_unmodified_text_is_left(s: EditorView)
    requires
        !s.dirty,
    ensures
        s.exit_pressed() == (s, StepView::Quit),
{
}

/// Any other key takes back the warnings.
pub proof fn law_warnings_are_taken_back(
    s: EditorView,
    key: Key,
    row_id: Seq<char>,
    id: Seq<char>,
    copy: Seq<CharView>,
)
    requires
        key != Key::Char(EXIT),
    ensures
        s.key_processed(key, row_id, id, copy).0.quit_times == s.config.quit_times,
        !(s.key_processed(key, row_id, id, copy).1 is Quit),
{
}

} // verus!
