//! Drawing the screen.
use vstd::prelude::*;
use vstd::string::*;
use vstd::utf8::{decode_utf8, encode_utf8, encode_utf8_decode_utf8, is_char_boundary};

use crate::ansi_escape::{
    CLEAR_LINE_RIGHT_OF_CURSOR, HIDE_CURSOR, MOVE_CURSOR_TO_START, RESET_FMT, REVERSE_VIDEO,
    SHOW_CURSOR,
};
use crate::cursor::{minus, scrolled};
use crate::size::{format_size, size_text};
use crate::state::{elapsed, Editor, EditorView};
use crate::text::{
    centred, decimal, prefix, push_centred, push_decimal, push_prefix, push_right_aligned,
    right_aligned,
};

verus! {

/// The name and the version of the editor, shown in an empty text.
pub const WELCOME_MESSAGE: &'static str = "Kibi 0.2.2";

/// The first `n` bytes of `s`, or all of them.
pub open spec fn cut(s: Seq<char>, n: nat) -> Seq<char> {
    if n >= encode_utf8(s).len() {
        s
    } else {
        decode_utf8(encode_utf8(s).subrange(0, n as int))
    }
}

/// The first `n` bytes of `s` are whole characters.
pub open spec fn cut_ok(s: Seq<char>, n: nat) -> bool {
    n >= encode_utf8(s).len() || is_char_boundary(encode_utf8(s), n as int)
}

/// Whether `cut_prefix` can be called.
fn can_cut(s: &str, n: usize) -> (r: bool)
    ensures
        r == cut_ok(s@, n as nat),
{
    n >= s.as_bytes().len() || s.is_char_boundary(n)
}

/// The first `n` bytes of `s`, or all of them.
fn cut_prefix<'a>(s: &'a str, n: usize) -> (r: &'a str)
    requires
        cut_ok(s@, n as nat),
    ensures
        r@ == cut(s@, n as nat),
{
    if n >= s.as_bytes().len() {
        s
    } else {
        let (start, _) = s.split_at(n);
        proof {
            encode_utf8_decode_utf8(start@);
            assert(start.spec_bytes() == s.spec_bytes().subrange(0, n as int));
        }
        start
    }
}

impl EditorView {
    /// The left part of a line: `val` in the place of the line number, and a vertical bar.
    pub open spec fn left_padding(self, val: Seq<char>) -> Seq<char> {
        if self.ln_pad >= 2 {
            "\x1b[38;5;240m"@ + right_aligned(val, (self.ln_pad - 2) as nat) + " \u{2502}"@
                + RESET_FMT@
        } else {
            Seq::empty()
        }
    }

    /// The line of the screen that shows row `i`.
    pub open spec fn line(self, i: nat) -> Seq<char> {
        CLEAR_LINE_RIGHT_OF_CURSOR@ + (if i < self.rows.len() {
            self.left_padding(decimal(i + 1)) + self.rows[i as int].drawing(
                self.cursor.coff as nat,
                self.screen_cols as nat,
                self.tab(),
            )
        } else if self.is_empty() && i == self.screen_rows as nat / 3 {
            self.left_padding("~"@) + centred(
                prefix(WELCOME_MESSAGE@, self.screen_cols as nat),
                self.screen_cols as nat,
            )
        } else {
            self.left_padding("~"@)
        }) + "\r\n"@
    }

    /// The first `n` lines of the screen.
    pub open spec fn lines(self, n: nat) -> Seq<char>
        decreases n,
    {
        if n == 0 {
            seq![]
        } else {
            self.lines((n - 1) as nat) + self.line((self.cursor.roff + n - 1) as nat)
        }
    }

    /// The file name, at most 30 characters of it, and whether the text is modified.
    pub open spec fn title(self) -> Seq<char> {
        prefix(
            match self.file_name {
                Some(name) => name,
                None => "[No Name]"@,
            },
            30,
        ) + if self.dirty {
            " (modified)"@
        } else {
            ""@
        }
    }

    /// The number of bytes of the text with its line breaks.
    pub open spec fn text_size(self) -> nat {
        (self.n_bytes + minus(self.rows.len() as int, 1)) as nat
    }

    /// The language, the size of the text and the position of the cursor.
    pub open spec fn details(self) -> Seq<char> {
        self.syntax.name + " | "@ + size_text(self.text_size()) + " | "@ + decimal(
            (self.cursor.y + 1) as nat,
        ) + ":"@ + decimal(self.rx() + 1)
    }

    /// The status bar: the title on the left, the details on the right as far as there is room.
    pub open spec fn status_bar(self) -> Seq<char> {
        let left = cut(self.title(), self.window_width as nat);
        let rw = minus(self.window_width as int, encode_utf8(left).len() as int) as nat;
        REVERSE_VIDEO@ + left + right_aligned(prefix(self.details(), rw), rw) + RESET_FMT@
            + "\r\n"@
    }

    /// The message bar: the status message if it is not older than messages are shown.
    pub open spec fn message_bar(self, age: u128) -> Seq<char> {
        CLEAR_LINE_RIGHT_OF_CURSOR@ + match self.status_msg {
            Some(msg) => if age < self.config.message_dur {
                cut(msg, self.window_width as nat)
            } else {
                seq![]
            },
            None => seq![],
        }
    }

    /// The offsets with which the cursor can be shown.
    pub open spec fn scrolled(self) -> EditorView {
        self.with_cursor(
            self.cursor.scrolled_to(
                self.rx() as int,
                self.screen_rows as int,
                self.screen_cols as int,
            ),
        )
    }

    /// The column of the terminal's cursor: that of the editor's cursor, or in prompt mode the
    /// end of the prompt.
    pub open spec fn terminal_x(self) -> nat {
        match self.prompt_mode {
            None => (self.rx() - self.cursor.coff + 1 + self.ln_pad) as nat,
            Some(_) => match self.status_msg {
                Some(msg) => encode_utf8(msg).len() + 1,
                None => 0,
            },
        }
    }

    /// The line of the terminal's cursor.
    pub open spec fn terminal_y(self) -> nat {
        match self.prompt_mode {
            None => (self.cursor.y - self.cursor.roff + 1) as nat,
            Some(_) => (self.screen_rows + 2) as nat,
        }
    }

    /// What is written to the terminal, the status message having been set `age` nanoseconds ago.
    pub open spec fn screen(self, age: u128) -> Seq<char> {
        HIDE_CURSOR@ + MOVE_CURSOR_TO_START@ + self.lines(self.screen_rows as nat)
            + self.status_bar() + self.message_bar(age) + "\x1b["@ + decimal(self.terminal_y())
            + ";"@ + decimal(self.terminal_x()) + "H"@ + SHOW_CURSOR@
    }

    pub open spec fn status_bar_ok(self) -> bool {
        &&& 100 * self.text_size() <= u64::MAX
        &&& self.cursor.y < usize::MAX
        &&& cut_ok(self.title(), self.window_width as nat)
    }

    pub open spec fn message_bar_ok(self) -> bool {
        self.status_msg matches Some(msg) ==> cut_ok(msg, self.window_width as nat)
    }

    /// The screen can be drawn, the status message having been set `age` nanoseconds ago: the
    /// sizes can be counted, and no character that is shown is cut in two at the right edge of
    /// the window.
    pub open spec fn refresh_ok_at(self, age: u128) -> bool {
        &&& self.status_bar_ok()
        &&& age < self.config.message_dur ==> self.message_bar_ok()
        &&& self.scrolled().cursor.roff + self.screen_rows <= usize::MAX
        &&& self.prompt_mode is None ==> self.rx() + 1 + self.ln_pad <= usize::MAX
        &&& self.prompt_mode is Some ==> self.screen_rows + 2 <= usize::MAX && (
        self.status_msg matches Some(msg) ==> encode_utf8(msg).len() < usize::MAX)
    }

    /// The screen can be drawn whatever the age of the status message.
    pub open spec fn refresh_ok(self) -> bool {
        self.refresh_ok_at(0) && self.message_bar_ok()
    }
}

impl Editor {
    /// Draw the left part of the screen: line numbers and vertical bar.
    pub fn draw_left_padding(&self, buffer: &mut String, val: &str)
        ensures
            final(buffer)@ == old(buffer)@ + self@.left_padding(val@),
    {
        if self.ln_pad >= 2 {
            // \x1b[38;5;240m: Dark grey color; \u{2502}: pipe
            buffer.append("\x1b[38;5;240m");
            push_right_aligned(buffer, val, self.ln_pad - 2);
            buffer.append(" \u{2502}");
            buffer.append(RESET_FMT);
        }
        assert(buffer@ =~= old(buffer)@ + self@.left_padding(val@));
    }

    /// Draw rows of text and empty rows on the terminal, by adding characters to the buffer.
    pub fn draw_rows(&self, buffer: &mut String)
        requires
            self.wf(),
            self.cursor.roff + self.screen_rows <= usize::MAX,
        ensures
            final(buffer)@ == old(buffer)@ + self@.lines(self.screen_rows as nat),
    {
        let mut n: usize = 0;
        assert(buffer@ =~= old(buffer)@ + self@.lines(0));
        while n < self.screen_rows
            invariant
                n <= self.screen_rows,
                self.wf(),
                self.cursor.roff + self.screen_rows <= usize::MAX,
                buffer@ == old(buffer)@ + self@.lines(n as nat),
            decreases self.screen_rows - n,
        {
            let i = self.cursor.roff + n;
            let ghost before = buffer@;
            buffer.append(CLEAR_LINE_RIGHT_OF_CURSOR);
            if i < self.rows.len() {
                // Draw a row of text
                let mut number = String::new();
                push_decimal(&mut number, i as u64 + 1);
                assert(number@ =~= decimal(i as nat + 1));
                self.draw_left_padding(buffer, number.as_str());
                self.rows[i].draw(self.cursor.coff, self.screen_cols, buffer);
                assert(self.rows@[i as int].laid_out(self@.tab()));
            } else {
                // Draw an empty row
                self.draw_left_padding(buffer, "~");
                if self.is_empty() && i == self.screen_rows / 3 {
                    let mut message = String::new();
                    push_prefix(&mut message, WELCOME_MESSAGE, self.screen_cols);
                    assert(message@ =~= prefix(WELCOME_MESSAGE@, self.screen_cols as nat));
                    push_centred(buffer, message.as_str(), self.screen_cols);
                }
            }
            buffer.append("\r\n");
            n = n + 1;
            assert(buffer@ =~= before + self@.line(i as nat));
            assert(buffer@ =~= old(buffer)@ + self@.lines(n as nat));
        }
    }

    /// The left part of the status bar.
    fn title(&self) -> (r: String)
        ensures
            r@ == self@.title(),
    {
        let mut left = String::new();
        match &self.file_name {
            Some(name) => push_prefix(&mut left, name.as_str(), 30),
            None => push_prefix(&mut left, "[No Name]", 30),
        }
        left.append(if self.dirty { " (modified)" } else { "" });
        assert(left@ =~= self@.title());
        left
    }

    /// Draw the status bar on the terminal, by adding characters to the buffer.
    pub fn draw_status_bar(&self, buffer: &mut String)
        requires
            self.wf(),
            self@.status_bar_ok(),
        ensures
            final(buffer)@ == old(buffer)@ + self@.status_bar(),
    {
        // Left part of the status bar
        let title = self.title();
        let left = cut_prefix(title.as_str(), self.window_width);

        // Right part of the status bar
        let size = format_size(self.n_bytes + self.rows.len().saturating_sub(1) as u64);
        let mut right = String::new();
        right.append(self.syntax.name.as_str());
        right.append(" | ");
        right.append(size.as_str());
        right.append(" | ");
        push_decimal(&mut right, self.cursor.y as u64 + 1);
        right.append(":");
        push_decimal(&mut right, self.rx() as u64 + 1);
        assert(right@ =~= self@.details());

        // Draw
        let rw = self.window_width.saturating_sub(left.as_bytes().len());
        let mut visible = String::new();
        push_prefix(&mut visible, right.as_str(), rw);
        assert(visible@ =~= prefix(self@.details(), rw as nat));
        buffer.append(REVERSE_VIDEO);
        buffer.append(left);
        push_right_aligned(buffer, visible.as_str(), rw);
        buffer.append(RESET_FMT);
        buffer.append("\r\n");
        assert(buffer@ =~= old(buffer)@ + self@.status_bar());
    }

    /// Draw the message bar on the terminal, the status message having been set `age`
    /// nanoseconds ago.
    pub fn draw_message_bar_at(&self, age: u128, buffer: &mut String)
        requires
            age < self.config.message_dur ==> self@.message_bar_ok(),
        ensures
            final(buffer)@ == old(buffer)@ + self@.message_bar(age),
    {
        buffer.append(CLEAR_LINE_RIGHT_OF_CURSOR);
        if let Some(sm) = &self.status_msg {
            if age < self.config.message_dur {
                buffer.append(cut_prefix(sm.msg.as_str(), self.window_width));
            }
        }
        assert(buffer@ =~= old(buffer)@ + self@.message_bar(age));
    }

    /// Draw the message bar on the terminal, by adding characters to the buffer. Whether a message
    /// is still shown depends on the clock.
    pub fn draw_message_bar(&self, buffer: &mut String)
        requires
            self@.message_bar_ok(),
        ensures
            exists|age: u128| final(buffer)@ == old(buffer)@ + #[trigger] self@.message_bar(age),
    {
        let age = self.message_age();
        self.draw_message_bar_at(age, buffer);
    }

    /// How long ago the status message was set, in nanoseconds; 0 if there is none. It depends on
    /// the clock.
    pub fn message_age(&self) -> (r: u128)
        ensures
            self.status_msg is None ==> r == 0,
    {
        match &self.status_msg {
            Some(sm) => elapsed(&sm.time),
            None => 0,
        }
    }

    /// Whether `refresh_screen_at` can be called.
    pub fn can_refresh_at(&self, age: u128) -> (r: bool)
        requires
            self.wf(),
        ensures
            r == self@.refresh_ok_at(age),
    {
        let rx = self.rx();
        let mut cursor = self.cursor;
        cursor.scroll(rx, self.screen_rows, self.screen_cols);
        let breaks = self.rows.len().saturating_sub(1) as u64;
        if breaks > u64::MAX / 100 || self.n_bytes > u64::MAX / 100 - breaks {
            return false;
        }
        let cursor_ok = if self.prompt_mode.is_none() {
            self.ln_pad <= usize::MAX - rx - 1
        } else {
            self.screen_rows <= usize::MAX - 2 && match &self.status_msg {
                Some(sm) => sm.msg.as_str().as_bytes().len() < usize::MAX,
                None => true,
            }
        };
        cursor_ok && (age >= self.config.message_dur || self.can_cut_message()) && self.cursor.y
            < usize::MAX && can_cut(self.title().as_str(), self.window_width) && cursor.roff
            <= usize::MAX - self.screen_rows
    }

    /// Whether the status message can be cut at the right edge of the window.
    fn can_cut_message(&self) -> (r: bool)
        ensures
            r == self@.message_bar_ok(),
    {
        match &self.status_msg {
            Some(sm) => can_cut(sm.msg.as_str(), self.window_width),
            None => true,
        }
    }

    /// Whether `refresh_screen` can be called.
    pub fn can_refresh(&self) -> (r: bool)
        requires
            self.wf(),
        ensures
            r == self@.refresh_ok(),
    {
        self.can_refresh_at(0) && self.can_cut_message()
    }

    /// Refresh the screen: update the offsets, draw the rows, the status bar, the message bar, and
    /// move the cursor to the correct position. Returns what is to be written to the terminal.
    pub fn refresh_screen(&mut self) -> (r: String)
        requires
            old(self).wf(),
            old(self)@.refresh_ok(),
        ensures
            final(self).wf(),
            final(self)@ == old(self)@.scrolled(),
            exists|age: u128| r@ == #[trigger] old(self)@.scrolled().screen(age),
    {
        let age = self.message_age();
        self.refresh_screen_at(age)
    }

    /// Refresh the screen, the status message having been set `age` nanoseconds ago.
    pub fn refresh_screen_at(&mut self, age: u128) -> (r: String)
        requires
            old(self).wf(),
            old(self)@.refresh_ok_at(age),
        ensures
            final(self).wf(),
            final(self)@ == old(self)@.scrolled(),
            r@ == old(self)@.scrolled().screen(age),
    {
        let rx = self.rx();
        let ghost s0 = self@;
        self.cursor.scroll(rx, self.screen_rows, self.screen_cols);
        let ghost s1 = self@;
        assert(s1 == s0.scrolled());
        assert(s1.rx() == s0.rx());
        let mut buffer = String::new();
        buffer.append(HIDE_CURSOR);
        buffer.append(MOVE_CURSOR_TO_START);
        self.draw_rows(&mut buffer);
        self.draw_status_bar(&mut buffer);
        self.draw_message_bar_at(age, &mut buffer);
        let (cursor_x, cursor_y): (usize, usize) = if self.prompt_mode.is_none() {
            // If not in prompt mode, position the cursor according to the `cursor` attributes.
            (rx - self.cursor.coff + 1 + self.ln_pad, self.cursor.y - self.cursor.roff + 1)
        } else {
            // If in prompt mode, position the cursor on the prompt line at the end of the line.
            (
                match &self.status_msg {
                    Some(sm) => sm.msg.as_str().as_bytes().len() + 1,
                    None => 0,
                },
                self.screen_rows + 2,
            )
        };
        buffer.append("\x1b[");
        push_decimal(&mut buffer, cursor_y as u64);
        buffer.append(";");
        push_decimal(&mut buffer, cursor_x as u64);
        buffer.append("H");
        buffer.append(SHOW_CURSOR);
        assert(buffer@ =~= s1.screen(age));
        buffer
    }
}

} // verus!
