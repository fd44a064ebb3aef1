//! What the screen shows.
use vstd::arithmetic::power::{lemma_pow0, lemma_pow1, lemma_pow_adds, pow};
use vstd::prelude::*;
use vstd::utf8::{
    decode_utf8_encode_utf8, encode_utf8, encode_utf8_valid_utf8, valid_utf8_split,
};

use crate::draw::{cut, cut_ok};
use crate::keys::{AKey, Key, EXIT};
use crate::row::{
    char_size, cx2rx, drawn, lemma_tables, lemma_width, matched, new_row, render, tab_width, CharView,
    RowView,
};
use crate::row_laws::{begins_char, char_at, column, law_layout};
use crate::rows::{lemma_rehighlighted, lemma_row_fits, start_state};
use crate::session::law_shown_size;
use crate::size::{lemma_unit, power_of_1024, size_text, two_digits, unit, unit_letter};
use crate::state::{total_bytes, EditorView};
use crate::text::{centred, decimal, prefix, repeated};

verus! {

/// A column as it is drawn: in reverse video if it is matched.
pub open spec fn cell(row: RowView, tab: nat, col: int) -> Seq<char> {
    let c = seq![render(row.bytes(), tab)[col]];
    if row.match_segment matches Some(m) && m.start <= col < m.end {
        "\x1b[7m"@ + c + "\x1b[m"@
    } else {
        c
    }
}

/// How many columns of a row are shown on a screen with `cols` columns that begins at `coff`.
pub open spec fn shown_columns(row: RowView, coff: nat, cols: nat, tab: nat) -> nat {
    let len = render(row.bytes(), tab).len();
    if coff >= len {
        0
    } else if coff + cols <= len {
        cols
    } else {
        (len - coff) as nat
    }
}

proof fn lemma_drawn(row: RowView, tab: nat, from: int, n: nat)
    ensures
        drawn(render(row.bytes(), tab), row.match_segment, from, from + n) == Seq::new(
            n,
            |k: int| cell(row, tab, from + k),
        ).flatten(),
    decreases n,
{
    let cells = Seq::new(n, |k: int| cell(row, tab, from + k));
    let shown = render(row.bytes(), tab);
    if n > 0 {
        let before = Seq::new((n - 1) as nat, |k: int| cell(row, tab, from + k));
        lemma_drawn(row, tab, from, (n - 1) as nat);
        assert(cells =~= before.push(cell(row, tab, from + n - 1)));
        before.lemma_flatten_push(cell(row, tab, from + n - 1));
        assert(matched(row.match_segment, from + n - 1) == (row.match_segment matches Some(m)
            && m.start <= from + n - 1 < m.end));
        assert(drawn(shown, row.match_segment, from, from + n) =~= cells.flatten());
    } else {
        assert(cells =~= Seq::empty());
        assert(drawn(shown, row.match_segment, from, from + n) =~= cells.flatten());
    }
}

/// Of a row the columns from the offset on are drawn, one after the other, as many as the screen
/// has and the row fills.
pub proof fn law_row_is_drawn(row: RowView, coff: nat, cols: nat, tab: nat)
    ensures
        row.drawing(coff, cols, tab) == Seq::new(
            shown_columns(row, coff, cols, tab),
            |k: int| cell(row, tab, coff + k),
        ).flatten(),
        row.match_segment is None ==> row.drawing(coff, cols, tab) == render(
            row.bytes(),
            tab,
        ).skip(
            if coff <= render(row.bytes(), tab).len() {
                coff as int
            } else {
                render(row.bytes(), tab).len() as int
            },
        ).take(shown_columns(row, coff, cols, tab) as int),
{
    let n = shown_columns(row, coff, cols, tab);
    let shown = render(row.bytes(), tab);
    lemma_drawn(row, tab, coff as int, n);
    if coff >= shown.len() {
        assert(row.drawing(coff, cols, tab) =~= drawn(
            shown,
            row.match_segment,
            coff as int,
            coff as int,
        ));
    }
    if row.match_segment is None {
        lemma_plain(shown, coff as int, n);
    }
}

proof fn lemma_plain(shown: Seq<char>, from: int, n: nat)
    requires
        0 <= from,
        n > 0 ==> from + n <= shown.len(),
    ensures
        drawn(shown, None, from, from + n) == if n == 0 {
            Seq::empty()
        } else {
            shown.subrange(from, from + n)
        },
    decreases n,
{
    if n > 0 {
        lemma_plain(shown, from, (n - 1) as nat);
        assert(drawn(shown, None, from, from + n) =~= shown.subrange(from, from + n));
    }
}

/// What stands left of the text: the label, aligned to the right before a bar, in grey; or nothing
/// if there is no room for it.
pub open spec fn gutter(s: EditorView, label: Seq<char>) -> Seq<char> {
    if s.ln_pad < 2 {
        Seq::empty()
    } else {
        let spaces = if s.ln_pad - 2 > label.len() {
            s.ln_pad - 2 - label.len()
        } else {
            0
        };
        "\x1b[38;5;240m"@ + Seq::new(spaces as nat, |i: int| ' ') + label + " \u{2502}"@
            + "\x1b[m"@
    }
}

/// What is shown right of the bar in the line of row `i`: of a row the columns that the screen has
/// room for; a third down an empty text the name of the editor.
pub open spec fn shown_text(s: EditorView, i: int) -> Seq<char> {
    if i < s.rows.len() {
        Seq::new(
            shown_columns(
                s.rows[i],
                s.cursor.coff as nat,
                s.screen_cols as nat,
                s.config.tab_stop as nat,
            ),
            |k: int| cell(s.rows[i], s.config.tab_stop as nat, s.cursor.coff + k),
        ).flatten()
    } else if s.rows.len() <= 1 && s.n_bytes == 0 && i == s.screen_rows as int / 3 {
        centred(prefix("Kibi 0.2.2"@, s.screen_cols as nat), s.screen_cols as nat)
    } else {
        Seq::empty()
    }
}

/// The lines of the screen: line `k` shows row `roff + k` with the number `roff + k + 1`, or a tilde
/// where there is no such row.
pub open spec fn screen_lines(s: EditorView, n: nat) -> Seq<Seq<char>> {
    Seq::new(
        n,
        |k: int|
            "\x1b[K"@ + gutter(
                s,
                if s.cursor.roff + k < s.rows.len() {
                    decimal((s.cursor.roff + k + 1) as nat)
                } else {
                    "~"@
                },
            ) + shown_text(s, s.cursor.roff + k) + "\r\n"@,
    )
}

/// The rows from the row offset on are shown, one in each line of the screen, with their numbers.
pub proof fn law_lines_show_rows(s: EditorView, n: nat)
    ensures
        s.lines(n) == screen_lines(s, n).flatten(),
    decreases n,
{
    let all = screen_lines(s, n);
    if n > 0 {
        law_lines_show_rows(s, (n - 1) as nat);
        let before = screen_lines(s, (n - 1) as nat);
        let line = all[n - 1];
        let i = (s.cursor.roff + n - 1) as nat;
        assert(all =~= before.push(line));
        before.lemma_flatten_push(line);
        if i < s.rows.len() {
            law_row_is_drawn(
                s.rows[i as int],
                s.cursor.coff as nat,
                s.screen_cols as nat,
                s.tab(),
            );
        }
        lemma_gutter(s, decimal(i + 1));
        lemma_gutter(s, "~"@);
        assert(s.line(i) =~= line);
        assert(s.lines(n) =~= all.flatten());
    } else {
        assert(all =~= Seq::empty());
        assert(s.lines(n) =~= all.flatten());
    }
}

proof fn lemma_gutter(s: EditorView, label: Seq<char>)
    ensures
        s.left_padding(label) == gutter(s, label),
{
    assert(s.left_padding(label) =~= gutter(s, label));
}

/// The screen: the lines, the status bar and the message bar from the top left corner on, and the
/// cursor at its place. After scrolling, the line of the terminal's cursor is that of the cursor's
/// row, its column that of the cursor.
pub proof fn law_cursor_on_screen(s: EditorView)
    requires
        s.wf(),
        s.prompt_mode is None,
        s.screen_rows > 0,
        s.screen_cols > 0,
        s.cursor_ok(),
    ensures
        ({
            let t = s.scrolled();
            let line = t.terminal_y() as int - 1;
            let col = t.cursor.coff + t.terminal_x() - 1 - t.ln_pad;
            &&& t == s.with_cursor(t.cursor)
            &&& t.cursor.x == s.cursor.x && t.cursor.y == s.cursor.y
            &&& 0 <= line < s.screen_rows
            &&& t.cursor.roff + line == s.cursor.y
            &&& t.ln_pad < t.terminal_x() <= t.ln_pad + s.screen_cols
            &&& s.cursor.y < s.rows.len() ==> col == column(
                s.text()[s.cursor.y as int],
                s.tab(),
                s.cursor.x as nat,
            )
            &&& s.cursor.y == s.rows.len() ==> col == 0
        }),
{
    if s.cursor.y < s.rows.len() {
        lemma_rx_fits(s);
        assert(s.text()[s.cursor.y as int] == s.rows[s.cursor.y as int].bytes());
    }
}

proof fn lemma_rx_fits(s: EditorView)
    requires
        s.wf(),
        s.cursor.y < s.rows.len(),
    ensures
        s.rx() <= usize::MAX,
{
    let row = s.rows[s.cursor.y as int];
    lemma_tables(row.bytes(), s.tab());
    lemma_row_fits(s.rows, s.cursor.y as int, total_bytes(s.rows), s.tab());
    lemma_width(row.bytes(), s.tab());
    assert(row.bytes().len() * tab_width(s.tab()) <= (row.chars.len() + 32)
        * tab_width(s.tab())) by (nonlinear_arith)
        requires
            row.bytes().len() == row.chars.len(),
    ;
}

/// After a refresh the line of the terminal's cursor shows the row of the cursor, with its number.
pub proof fn law_line_of_cursor(s: EditorView)
    requires
        s.wf(),
        s.prompt_mode is None,
        s.screen_rows > 0,
        s.screen_cols > 0,
        s.cursor_ok(),
    ensures
        ({
            let t = s.scrolled();
            let lines = screen_lines(t, s.screen_rows as nat);
            let y = s.cursor.y as int;
            &&& t.lines(s.screen_rows as nat) == lines.flatten()
            &&& 1 <= t.terminal_y() <= lines.len()
            &&& y < s.rows.len() ==> lines[t.terminal_y() - 1] == "\x1b[K"@ + gutter(
                t,
                decimal((y + 1) as nat),
            ) + shown_text(t, y) + "\r\n"@
        }),
{
    law_cursor_on_screen(s);
    law_lines_show_rows(s.scrolled(), s.screen_rows as nat);
}

/// In the column of the cursor its character is shown, a tab as a space.
pub proof fn law_character_at_cursor(s: EditorView)
    requires
        s.wf(),
        s.prompt_mode is None,
        s.screen_rows > 0,
        s.screen_cols > 0,
        s.cursor.y < s.rows.len(),
        s.cursor.x < s.row_len(),
        begins_char(s.text()[s.cursor.y as int], s.cursor.x as nat),
    ensures
        ({
            let t = s.scrolled();
            let row = s.rows[s.cursor.y as int];
            let k = t.terminal_x() - 1 - t.ln_pad;
            let c = char_at(s.text()[s.cursor.y as int], s.cursor.x as nat);
            &&& 0 <= k < shown_columns(row, t.cursor.coff as nat, s.screen_cols as nat, s.tab())
            &&& render(row.bytes(), s.tab())[t.cursor.coff + k] == if c == '\t' {
                ' '
            } else {
                c
            }
        }),
{
    law_cursor_on_screen(s);
    let line = s.text()[s.cursor.y as int];
    assert(line == s.rows[s.cursor.y as int].bytes());
    law_layout(line, s.tab(), s.cursor.x as nat);
    lemma_tables(line, s.tab());
}

/// What is written to the terminal is, in this order: the lines of the screen from its top left
/// corner on, the status bar, the message bar, and the place of the cursor, which is hidden
/// meanwhile.
pub proof fn law_screen(s: EditorView, age: u128)
    ensures
        s.screen(age) == "\x1b[?25l"@ + "\x1b[H"@ + s.lines(s.screen_rows as nat) + s.status_bar()
            + s.message_bar(age) + "\x1b["@ + decimal(s.terminal_y()) + ";"@ + decimal(
            s.terminal_x(),
        ) + "H"@ + "\x1b[?25h"@,
{
}

/// In a prompt the cursor stands behind the prompt, in the line below the status bar.
pub proof fn law_cursor_in_prompt(s: EditorView, msg: Seq<char>)
    requires
        s.prompt_mode is Some,
        s.status_msg == Some(msg),
    ensures
        s.terminal_y() == s.screen_rows + 2,
        s.terminal_x() == encode_utf8(msg).len() + 1,
{
}

/// The name in the status bar, and whether the text is modified.
pub open spec fn bar_title(s: EditorView) -> Seq<char> {
    let name = if s.file_name is Some {
        s.file_name->0
    } else {
        "[No Name]"@
    };
    (if name.len() > 30 {
        name.take(30)
    } else {
        name
    }) + (if s.dirty {
        " (modified)"@
    } else {
        Seq::empty()
    })
}

/// The size of the text with its line feeds, and the place of the cursor, counted from 1.
pub open spec fn bar_details(s: EditorView) -> Seq<char> {
    let breaks = if s.rows.len() > 0 {
        s.rows.len() - 1
    } else {
        0
    };
    s.syntax.name + " | "@ + size_text((s.n_bytes + breaks) as nat) + " | "@ + decimal(
        (s.cursor.y + 1) as nat,
    ) + ":"@ + decimal(s.rx() + 1)
}

/// The status bar fills the window: the title stands at its left edge and the details end at its
/// right edge, or are cut off there.
pub proof fn law_status_bar(s: EditorView)
    requires
        encode_utf8(bar_title(s)).len() <= s.window_width,
    ensures
        ({
            let room = s.window_width - encode_utf8(bar_title(s)).len();
            let details = bar_details(s);
            &&& details.len() <= room ==> s.status_bar() == "\x1b[7m"@ + bar_title(s) + Seq::new(
                (room - details.len()) as nat,
                |i: int| ' ',
            ) + details + "\x1b[m"@ + "\r\n"@
            &&& details.len() > room ==> s.status_bar() == "\x1b[7m"@ + bar_title(s)
                + details.take(room) + "\x1b[m"@ + "\r\n"@
        }),
{
    reveal_strlit("");
    reveal_strlit("[No Name]");
    assert(s.title() =~= bar_title(s));
    assert(s.details() =~= bar_details(s));
    let details = bar_details(s);
    let room = s.window_width - encode_utf8(bar_title(s)).len();
    if details.len() <= room {
        assert(prefix(details, room as nat) =~= details);
        let n = (room - details.len()) as nat;
        assert(repeated(' ', n) =~= Seq::new(n, |i: int| ' '));
        assert(s.status_bar() =~= "\x1b[7m"@ + bar_title(s) + Seq::new(n, |i: int| ' ') + details
            + "\x1b[m"@ + "\r\n"@);
    } else {
        assert(s.status_bar() =~= "\x1b[7m"@ + bar_title(s) + details.take(room) + "\x1b[m"@
            + "\r\n"@);
    }
}

/// A title that is too long for the window is cut at its right edge, and no details are shown.
pub proof fn law_narrow_status_bar(s: EditorView)
    requires
        encode_utf8(bar_title(s)).len() > s.window_width,
        cut_ok(bar_title(s), s.window_width as nat),
    ensures
        s.status_bar() == "\x1b[7m"@ + cut(bar_title(s), s.window_width as nat) + "\x1b[m"@
            + "\r\n"@,
{
    reveal_strlit("");
    reveal_strlit("[No Name]");
    assert(s.title() =~= bar_title(s));
    let left = cut(bar_title(s), s.window_width as nat);
    law_cut(bar_title(s), s.window_width as nat);
    assert(encode_utf8(left).len() == s.window_width);
    assert(s.status_bar() =~= "\x1b[7m"@ + left + "\x1b[m"@ + "\r\n"@);
}

/// What is too long for the window is cut at its right edge, between two characters.
pub proof fn law_cut(s: Seq<char>, n: nat)
    requires
        cut_ok(s, n),
    ensures
        encode_utf8(s).len() <= n ==> cut(s, n) == s,
        encode_utf8(s).len() > n ==> encode_utf8(cut(s, n)) == encode_utf8(s).take(n as int),
{
    let bytes = encode_utf8(s);
    if bytes.len() > n {
        encode_utf8_valid_utf8(s);
        valid_utf8_split(bytes, n as int);
        decode_utf8_encode_utf8(bytes.subrange(0, n as int));
        assert(bytes.subrange(0, n as int) =~= bytes.take(n as int));
    }
}

/// The screen can be drawn if the title and the message fit into the window and the numbers can be
/// counted.
pub proof fn law_screen_can_be_drawn(s: EditorView)
    requires
        s.wf(),
        100 * s.contents().len() <= u64::MAX,
        s.cursor_ok(),
        s.cursor.y + s.screen_rows < usize::MAX,
        s.prompt_mode is None,
        s.rx() + 1 + s.ln_pad <= usize::MAX,
        encode_utf8(bar_title(s)).len() <= s.window_width,
        s.status_msg matches Some(msg) ==> encode_utf8(msg).len() <= s.window_width,
    ensures
        s.refresh_ok(),
{
    law_shown_size(s);
    reveal_strlit("");
    reveal_strlit("[No Name]");
    assert(s.title() =~= bar_title(s));
}

/// A status message is shown until it is as old as messages get, and not longer.
pub proof fn law_message_bar(s: EditorView, age: u128, msg: Seq<char>)
    ensures
        s.status_msg == Some(msg) && age < s.config.message_dur ==> s.message_bar(age)
            == "\x1b[K"@ + if encode_utf8(msg).len() <= s.window_width {
            msg
        } else {
            cut(msg, s.window_width as nat)
        },
        s.status_msg is None || age >= s.config.message_dur ==> s.message_bar(age) == "\x1b[K"@,
{
    assert("\x1b[K"@ + Seq::empty() =~= "\x1b[K"@);
}

/// The decimal notation of a larger number is not shorter.
proof fn lemma_decimal_len(a: nat, b: nat)
    requires
        a <= b,
    ensures
        1 <= decimal(a).len() <= decimal(b).len(),
    decreases b,
{
    if a >= 10 {
        lemma_decimal_len(a / 10, b / 10);
    }
}

/// The number left of the bar and the columns right of it fill the window; if line numbers are
/// shown there is room for each of them.
pub open spec fn fills_window(s: EditorView) -> bool {
    &&& s.ln_pad + s.screen_cols == s.window_width
    &&& s.ln_pad == 0 || s.ln_pad == decimal(s.rows.len()).len() + 2
    &&& s.ln_pad > 0 <==> s.config.show_line_num && decimal(s.rows.len()).len() + 2
        < s.window_width as int / 4
}

/// In a window that is filled, all line numbers end in the same column.
pub proof fn law_line_numbers(s: EditorView, i: int)
    requires
        fills_window(s),
        s.ln_pad > 0,
        0 <= i < s.rows.len(),
    ensures
        decimal((i + 1) as nat).len() <= s.ln_pad - 2,
        gutter(s, decimal((i + 1) as nat)).len() == gutter(s, decimal(s.rows.len())).len(),
{
    lemma_decimal_len((i + 1) as nat, s.rows.len());
}

proof fn lemma_row_updated_fills(s: EditorView, y: nat, once: bool)
    ensures
        fills_window(s.row_updated(y, once)) == fills_window(s),
        s.row_updated(y, once).rows.len() == s.rows.len(),
        s.row_updated(y, once).config == s.config,
        s.row_updated(y, once).window_width == s.window_width,
{
    lemma_rehighlighted(s.rows, s.syntax, y, start_state(s.rows, y), once);
}

proof fn lemma_delete_fills(s: EditorView)
    requires
        fills_window(s),
        s.cursor.x > 0 ==> s.cursor.y < s.rows.len(),
    ensures
        fills_window(s.char_deleted()),
{
    let y = s.cursor.y as int;
    let x = s.cursor.x as int;
    let row = s.rows[y];
    if x > 0 {
        let col = cx2rx(row.bytes(), s.tab())[x];
        if !(x > row.chars.len() || col == 0) {
            let n = char_size(row.bytes(), s.tab(), (col - 1) as nat);
            let rest = row.chars.take(x - n) + row.chars.skip(x);
            let s1 = s.with_rows(s.rows.update(y, row.with_chars(rest)));
            lemma_row_updated_fills(s1, y as nat, false);
        }
    }
}

proof fn lemma_insert_fills(s: EditorView, c: u8, row_id: Seq<char>, id: Seq<char>)
    requires
        fills_window(s),
    ensures
        fills_window(s.byte_inserted(c, row_id, id)),
{
    let y = s.cursor.y as int;
    let ch = CharView { byte: c, id };
    if y < s.rows.len() {
        let row = s.rows[y];
        let s1 = s.with_rows(
            s.rows.update(y, row.with_chars(row.chars.insert(s.cursor.x as int, ch))),
        );
        lemma_row_updated_fills(s1, y as nat, false);
    } else {
        let s1 = s.with_rows(s.rows.push(new_row(row_id, seq![ch]))).screen_cols_updated();
        lemma_row_updated_fills(s1, y as nat, false);
    }
}

proof fn lemma_line_fills(s: EditorView, row_id: Seq<char>, copy: Seq<CharView>)
    ensures
        fills_window(s.new_line_inserted(row_id)),
        fills_window(s.row_duplicated(row_id, copy)),
{
}

proof fn lemma_remove_fills(s: EditorView)
    requires
        fills_window(s),
    ensures
        fills_window(s.current_row_deleted()),
{
    let y = s.cursor.y as int;
    if y < s.rows.len() {
        let s1 = s.with_rows(s.rows.update(y, s.rows[y].with_chars(Seq::empty())));
        lemma_row_updated_fills(s1, y as nat, false);
        lemma_delete_fills(s.row_cleared().with_cursor(s.cursor.next_line()));
    }
}

proof fn lemma_byte_fills(
    s: EditorView,
    c: u8,
    row_id: Seq<char>,
    id: Seq<char>,
    copy: Seq<CharView>,
)
    requires
        fills_window(s),
        s.cursor.x > 0 ==> s.cursor.y < s.rows.len(),
    ensures
        fills_window(s.byte_edited(c, row_id, id, copy)),
{
    lemma_line_fills(s, row_id, copy);
    lemma_delete_fills(s);
    lemma_remove_fills(s);
    lemma_insert_fills(s, c, row_id, id);
}

proof fn lemma_moved_fills(s: EditorView, arrow: AKey)
    requires
        s.wf(),
        s.cursor_ok(),
        fills_window(s),
    ensures
        fills_window(s.moved(arrow)),
        s.moved(arrow).cursor.x > 0 ==> s.moved(arrow).cursor.y < s.rows.len(),
        s.moved(arrow).rows == s.rows,
{
    let m = s.moved(arrow);
    assert(m == s.with_cursor(m.cursor));
    assert(m.cursor.x <= m.row_len());
}

proof fn lemma_key_fills(s: EditorView, key: Key)
    requires
        s.wf(),
        s.cursor_ok(),
        fills_window(s),
    ensures
        fills_window(s.key_edited(key)),
{
    match key {
        Key::Arrow(arrow) => {
            lemma_moved_fills(s, arrow);
        },
        Key::CtrlArrow(arrow) => {
            lemma_moved_fills(s, arrow);
        },
        Key::Delete => {
            lemma_moved_fills(s, AKey::Right);
            lemma_delete_fills(s.moved(AKey::Right));
        },
        _ => {},
    }
}

proof fn lemma_quit_times_fill(s: EditorView, quit_times: usize)
    requires
        fills_window(s),
    ensures
        fills_window(EditorView { quit_times, ..s }),
{
}

/// Whatever key is pressed, the window stays filled.
pub proof fn law_window_stays_filled(
    s: EditorView,
    key: Key,
    row_id: Seq<char>,
    id: Seq<char>,
    copy: Seq<CharView>,
)
    requires
        s.wf(),
        s.cursor_ok(),
        fills_window(s),
    ensures
        fills_window(s.after(key, row_id, id, copy)),
{
    if key != Key::Char(EXIT) {
        let e = match key {
            Key::Char(c) => s.byte_edited(c, row_id, id, copy),
            _ => s.key_edited(key),
        };
        assert(fills_window(e)) by {
            match key {
                Key::Char(c) => {
                    lemma_byte_fills(s, c, row_id, id, copy);
                },
                _ => {
                    lemma_key_fills(s, key);
                },
            }
        }
        lemma_quit_times_fill(e, s.config.quit_times);
    }
}

proof fn lemma_power(i: nat)
    ensures
        power_of_1024(i) == pow(1024, i),
    decreases i,
{
    if i == 0 {
        lemma_pow0(1024);
    } else {
        lemma_power((i - 1) as nat);
        lemma_pow_adds(1024, 1, (i - 1) as nat);
        lemma_pow1(1024);
    }
}

/// A size below 1024 is written in bytes, and the larger units have these letters.
pub proof fn law_units(n: nat)
    requires
        n < 1024,
    ensures
        size_text(n) == decimal(n) + "B"@,
        unit_letter(1) == 'k',
        unit_letter(2) == 'M',
        unit_letter(3) == 'G',
        unit_letter(4) == 'T',
        unit_letter(5) == 'P',
        unit_letter(6) == 'E',
{
    reveal_strlit(" kMGTPEZ");
}

/// A size from 1024 on is written in the largest unit that it reaches, a power of 1024, in
/// hundredths of it that are not rounded up.
pub proof fn law_size(n: nat)
    requires
        n >= 1024,
    ensures
        exists|h: nat, u: nat|
            {
                &&& pow(1024, u) <= n < pow(1024, u + 1)
                &&& h * pow(1024, u) <= 100 * n < (h + 1) * pow(1024, u)
                &&& 100 <= h < 102400
                &&& size_text(n) == decimal(h / 100) + "."@ + #[trigger] two_digits(h % 100)
                    + seq![#[trigger] unit_letter(u)] + "B"@
            },
{
    let u = unit(n);
    let p = power_of_1024(u);
    lemma_unit(n);
    lemma_power(u);
    lemma_power(u + 1);
    let h = 100 * n / p;
    assert(power_of_1024(u + 1) == 1024 * p);
    assert(h * p <= 100 * n < (h + 1) * p) by (nonlinear_arith)
        requires
            h == 100 * n / p,
            p > 0,
    ;
    assert(100 <= h < 102400) by (nonlinear_arith)
        requires
            h == 100 * n / p,
            0 < p <= n < 1024 * p,
    ;
    assert(size_text(n) == decimal(h / 100) + "."@ + two_digits(h % 100) + seq![unit_letter(u)]
        + "B"@);
}

} // verus!
