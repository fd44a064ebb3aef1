//! What the prompts do with what is entered.
use vstd::prelude::*;
use vstd::utf8::encode_utf8;

use crate::cursor::CursorState;
use crate::key_laws::len_of_row;
use crate::keys::Key;
use crate::prompt::{colon, index, place};
use crate::row::{rx2cx, width, CharView};
use crate::row_laws::{begins_char, column, law_layout, law_layout_end, len_at};
use crate::rows::lemma_row_fits;
use crate::state::{total_bytes, AdapterReadyFor, EditorView, PromptView};
use crate::step::StepView;
use crate::text::{decimal, is_white_space, trim, unsigned_value, words, IntError};
use crate::text_laws::{all_digits, blank, law_decimal, law_number_is_read, law_trim, value};

verus! {

/// What was entered into a prompt.
pub open spec fn entered(mode: PromptView) -> Seq<char> {
    match mode {
        PromptView::Save(b) => b,
        PromptView::Find(b, _, _) => b,
        PromptView::GoTo(b) => b,
        PromptView::Execute(b) => b,
        PromptView::Username(b) => b,
        PromptView::Password(b) => b,
    }
}

/// The same prompt, with `b` entered.
pub open spec fn with_entered(mode: PromptView, b: Seq<char>) -> PromptView {
    match mode {
        PromptView::Save(_) => PromptView::Save(b),
        PromptView::Find(_, c, m) => PromptView::Find(b, c, m),
        PromptView::GoTo(_) => PromptView::GoTo(b),
        PromptView::Execute(_) => PromptView::Execute(b),
        PromptView::Username(_) => PromptView::Username(b),
        PromptView::Password(_) => PromptView::Password(b),
    }
}

/// In a prompt (searching is another matter) a printable ASCII character is entered, Backspace and
/// Ctrl-H take the last character back, and all other keys but Enter, Escape and Ctrl-Q do nothing.
/// Nothing but the message changes meanwhile.
pub proof fn law_entering(s: EditorView, mode: PromptView, key: Key)
    requires
        !(mode is Find),
        key != Key::Char(0x0d) && key != Key::Char(0x11) && key != Key::Escape,
    ensures
        ({
            let (t, step) = s.prompt_processed(mode, key);
            let b = entered(mode);
            &&& s.prompt_ok(mode, key)
            &&& step == StepView::Prompt(
                Some(
                    with_entered(
                        mode,
                        match key {
                            Key::Char(c) => if 0x20 <= c && c < 0x7f {
                                b.push(c as char)
                            } else if (c == 0x7f || c == 0x08) && b.len() > 0 {
                                b.take(b.len() - 1)
                            } else {
                                b
                            },
                            _ => b,
                        },
                    ),
                ),
            )
            &&& t == EditorView { status_msg: None, ..s }
        }),
{
    let b = entered(mode);
    if b.len() > 0 {
        assert(b.take(b.len() - 1) =~= b.drop_last());
    }
}

/// Escape and Ctrl-Q leave a prompt; what was entered is lost, and nothing but the message changes.
pub proof fn law_leaving(s: EditorView, mode: PromptView, key: Key)
    requires
        !(mode is Find),
        key == Key::Escape || key == Key::Char(0x11),
    ensures
        ({
            let (t, step) = s.prompt_processed(mode, key);
            &&& s.prompt_ok(mode, key)
            &&& step == StepView::Prompt(None)
            &&& t == EditorView { status_msg: t.status_msg, ..s }
            &&& t.status_msg == match mode {
                PromptView::Save(_) => Some("Save aborted"@),
                PromptView::Username(_) => Some("No username"@),
                PromptView::Password(_) => Some("No password"@),
                _ => None,
            }
        }),
{
}

/// Enter hands over what was entered: a name to save under, a program with its arguments, a user's
/// name (the password is asked for next), or a password (loading or saving then goes on).
pub proof fn law_handing_over(s: EditorView, mode: PromptView)
    requires
        !(mode is Find) && !(mode is GoTo),
        mode is Password ==> s.file_name is Some && s.ready_for is Some,
    ensures
        s.prompt_ok(mode, Key::Char(0x0d)),
        ({
            let (t, step) = s.prompt_processed(mode, Key::Char(0x0d));
            let b = entered(mode);
            let u = EditorView { status_msg: None, ..s };
            match mode {
                PromptView::Save(_) => t == u && step == StepView::SaveAs(b),
                PromptView::Execute(_) => t == u && match step {
                    StepView::Execute(program, arguments) => if words(b).len() > 0 {
                        seq![program] + arguments == words(b)
                    } else {
                        program.len() == 0 && arguments.len() == 0
                    },
                    _ => false,
                },
                PromptView::Username(_) => {
                    &&& t == EditorView { username: Some(b), prompt_mode: None, ..u }
                    &&& step == StepView::Prompt(Some(PromptView::Password(Seq::empty())))
                },
                _ => {
                    &&& t == EditorView { password: Some(b), ..u }
                    &&& step == if s.ready_for == Some(AdapterReadyFor::LOADING) {
                        StepView::ResumeLoading(s.file_name->0)
                    } else {
                        StepView::ResumeSaving(s.file_name->0)
                    }
                },
            }
        }),
{
    if mode is Execute {
        let w = words(entered(mode));
        if w.len() > 0 {
            assert(seq![w[0]] + w.skip(1) =~= w);
        }
    }
}

/// What a prompt shows ends with what was entered, but for a password, of which as many asterisks
/// are shown as it has bytes.
pub proof fn law_prompt_text(mode: PromptView)
    ensures
        ({
            let shown = mode.status();
            let b = entered(mode);
            if mode is Password {
                let n = encode_utf8(b).len();
                &&& shown.len() == "Password: "@.len() + n
                &&& forall|i: int| shown.len() - n <= i < shown.len() ==> #[trigger] shown[i] == '*'
            } else {
                &&& shown.len() >= b.len()
                &&& shown.skip(shown.len() - b.len()) == b
            }
        }),
{
    let shown = mode.status();
    let b = entered(mode);
    if !(mode is Password) {
        assert(shown.skip(shown.len() - b.len()) =~= b);
    }
}

/// In a prompt each key goes to the prompt: the text stays as it is, and the prompt that follows is
/// the one that the next key goes to.
pub proof fn law_keys_in_prompt(
    s: EditorView,
    mode: PromptView,
    key: Key,
    row_id: Seq<char>,
    id: Seq<char>,
    copy: Seq<CharView>,
)
    requires
        s.prompt_mode == Some(mode),
    ensures
        ({
            let (t, step) = s.key_handled(key, row_id, id, copy);
            let (u, asked) = EditorView { prompt_mode: None, ..s }.prompt_processed(mode, key);
            &&& t == EditorView { prompt_mode: t.prompt_mode, ..u }
            &&& match asked {
                StepView::Prompt(next) => t.prompt_mode == next && step == StepView::Prompt(None),
                _ => t.prompt_mode is None && step == asked,
            }
        }),
{
}

/// While there is a prompt its text is the status message.
pub proof fn law_prompt_is_shown(s: EditorView)
    ensures
        s.prompt_mode matches Some(mode) ==> s.prompt_shown() == (EditorView {
            status_msg: Some(mode.status()),
            ..s
        }),
        s.prompt_mode is None ==> s.prompt_shown() == s,
{
}

proof fn lemma_colon(a: Seq<char>, b: Seq<char>)
    requires
        !a.contains(':'),
    ensures
        colon(a) == a.len(),
        colon(a + seq![':'] + b) == a.len(),
    decreases a.len(),
{
    let s = a + seq![':'] + b;
    if a.len() == 0 {
        assert(s[0] == ':');
    } else {
        let rest = a.skip(1);
        assert(!rest.contains(':')) by {
            if rest.contains(':') {
                let i = choose|i: int| 0 <= i < rest.len() && rest[i] == ':';
                assert(a[i + 1] == ':');
            }
        }
        lemma_colon(rest, b);
        assert(a[0] != ':') by {
            if a[0] == ':' {
                assert(a.contains(':'));
            }
        }
        assert(s[0] == a[0]);
        assert(s.skip(1) =~= rest + seq![':'] + b);
    }
}

/// A number that is entered, with or without white space around it.
pub open spec fn is_number(s: Seq<char>, d: Seq<char>) -> bool {
    &&& d.len() > 0
    &&& all_digits(d)
    &&& exists|a: Seq<char>, b: Seq<char>| blank(a) && blank(b) && s == #[trigger] (a + d + b)
}

proof fn lemma_index(s: Seq<char>, d: Seq<char>)
    requires
        is_number(s, d),
    ensures
        !s.contains(':'),
        index(s) == if value(d) > usize::MAX {
            Err::<nat, IntError>(IntError::PosOverflow)
        } else if value(d) == 0 {
            Ok::<nat, IntError>(0)
        } else {
            Ok::<nat, IntError>((value(d) - 1) as nat)
        },
{
    let (a, b) = choose|a: Seq<char>, b: Seq<char>|
        blank(a) && blank(b) && s == #[trigger] (a + d + b);
    assert('0' <= d[0] <= '9');
    assert('0' <= d[d.len() - 1] <= '9');
    law_trim(a, d, b);
    law_number_is_read(d, usize::MAX as nat);
    if s.contains(':') {
        let i = choose|i: int| 0 <= i < s.len() && s[i] == ':';
        if i < a.len() {
            assert(is_white_space(a[i]));
        } else if i < a.len() + d.len() {
            assert('0' <= d[i - a.len()] <= '9');
        } else {
            assert(is_white_space(b[i - a.len() - d.len()]));
        }
    }
}

/// A line number that is entered leads to that line, counted from 1; behind the last line there is
/// one more place to go to. The cursor stays in its column as far as the line reaches.
pub proof fn law_go_to_line(s: EditorView, text: Seq<char>, d: Seq<char>)
    requires
        s.wf(),
        is_number(text, d),
        value(d) <= usize::MAX,
    ensures
        ({
            let (t, step) = s.prompt_processed(PromptView::GoTo(text), Key::Char(0x0d));
            let y = if value(d) == 0 {
                0
            } else if value(d) - 1 <= s.rows.len() {
                value(d) - 1
            } else {
                s.rows.len() as int
            };
            &&& s.prompt_ok(PromptView::GoTo(text), Key::Char(0x0d))
            &&& step == StepView::Prompt(None)
            &&& t == EditorView { cursor: t.cursor, status_msg: None, ..s }
            &&& t.cursor.y == y
            &&& t.cursor.x == if s.cursor.x <= len_of_row(s, y) {
                s.cursor.x as int
            } else {
                len_of_row(s, y)
            }
            &&& t.cursor.roff == s.cursor.roff && t.cursor.coff == s.cursor.coff
        }),
{
    lemma_index(text, d);
    lemma_colon(text, Seq::empty());
    assert(text.take(text.len() as int) =~= text);
    lemma_lens(s);
}

proof fn lemma_lens(s: EditorView)
    requires
        s.wf(),
    ensures
        s.rows.len() <= usize::MAX,
        forall|i: int|
            0 <= i < s.rows.len() ==> (#[trigger] s.rows[i]).chars.len() <= usize::MAX && s.text()[i]
                == s.rows[i].bytes() && s.text()[i].len() == s.rows[i].chars.len(),
{
    assert forall|i: int| 0 <= i < s.rows.len() implies (#[trigger] s.rows[i]).chars.len()
        <= usize::MAX by {
        lemma_row_fits(s.rows, i, total_bytes(s.rows), s.tab());
    }
}

/// The index of what is counted from 1; 0 counts as 1.
pub open spec fn counted(n: nat) -> int {
    if n == 0 {
        0
    } else {
        n - 1
    }
}

/// A line and a column that are entered, both counted from 1, lead to the character that is shown
/// in that column of that line: to byte `x`, if the character that begins there is shown there, or
/// the row ends there.
pub proof fn law_go_to_column(
    s: EditorView,
    line: Seq<char>,
    col: Seq<char>,
    l: Seq<char>,
    c: Seq<char>,
    x: nat,
)
    requires
        s.wf(),
        is_number(line, l),
        is_number(col, c),
        counted(value(l)) < s.rows.len(),
        value(c) <= usize::MAX,
        ({
            let bytes = s.text()[counted(value(l))];
            &&& begins_char(bytes, x)
            &&& x < bytes.len() ==> column(bytes, s.tab(), x) <= counted(value(c)) < column(
                bytes,
                s.tab(),
                x + len_at(bytes, x),
            )
            &&& x >= bytes.len() ==> x == bytes.len() && counted(value(c)) == width(bytes, s.tab())
        }),
    ensures
        ({
            let text = line + seq![':'] + col;
            let (t, step) = s.prompt_processed(PromptView::GoTo(text), Key::Char(0x0d));
            &&& s.prompt_ok(PromptView::GoTo(text), Key::Char(0x0d))
            &&& step == StepView::Prompt(None)
            &&& t == EditorView { cursor: t.cursor, status_msg: None, ..s }
            &&& t.cursor == (CursorState {
                x: x as usize,
                y: counted(value(l)) as usize,
                ..s.cursor
            })
        }),
{
    let text = line + seq![':'] + col;
    lemma_lens(s);
    lemma_index(line, l);
    lemma_index(col, c);
    lemma_colon(line, col);
    let n = colon(text) as int;
    assert(text.take(n) =~= line);
    assert(text.skip(n + 1) =~= col);
    let y = counted(value(l));
    let bytes = s.text()[y];
    assert(bytes == s.rows[y].bytes());
    law_layout_end(bytes, s.tab());
    if x < bytes.len() {
        law_layout(bytes, s.tab(), x);
    }
    assert(rx2cx(bytes, s.tab())[counted(value(c))] == x);
}

/// A line behind the last one leads behind it, whatever column is entered.
pub proof fn law_go_to_end(
    s: EditorView,
    line: Seq<char>,
    col: Seq<char>,
    l: Seq<char>,
    c: Seq<char>,
)
    requires
        s.wf(),
        is_number(line, l),
        is_number(col, c),
        s.rows.len() <= counted(value(l)),
        value(l) <= usize::MAX,
        value(c) <= usize::MAX,
    ensures
        ({
            let text = line + seq![':'] + col;
            let t = s.prompt_processed(PromptView::GoTo(text), Key::Char(0x0d)).0;
            &&& s.prompt_ok(PromptView::GoTo(text), Key::Char(0x0d))
            &&& t.cursor == (CursorState { x: 0, y: s.rows.len() as usize, ..s.cursor })
        }),
{
    let text = line + seq![':'] + col;
    lemma_lens(s);
    lemma_index(line, l);
    lemma_index(col, c);
    lemma_colon(line, col);
    let n = colon(text) as int;
    assert(text.take(n) =~= line);
    assert(text.skip(n + 1) =~= col);
}

/// A text that is no number, or two of them with a colon between, leads nowhere: the cursor stays,
/// and a message says so.
pub proof fn law_go_to_nowhere(s: EditorView, text: Seq<char>)
    requires
        place(text) is Err,
    ensures
        ({
            let (t, step) = s.prompt_processed(PromptView::GoTo(text), Key::Char(0x0d));
            &&& s.prompt_ok(PromptView::GoTo(text), Key::Char(0x0d))
            &&& step == StepView::Prompt(None)
            &&& t == EditorView { status_msg: t.status_msg, ..s }
            &&& t.status_msg is Some
            &&& t.status_msg->0.len() >= "Parsing error: "@.len()
            &&& t.status_msg->0.take("Parsing error: "@.len() as int) == "Parsing error: "@
        }),
{
    let t = s.prompt_processed(PromptView::GoTo(text), Key::Char(0x0d)).0;
    assert(t.status_msg->0.take("Parsing error: "@.len() as int) =~= "Parsing error: "@);
}

/// What leads nowhere: a text whose part before the first colon, or behind it, is no number when
/// trimmed.
pub proof fn law_what_leads_nowhere(a: Seq<char>, b: Seq<char>)
    requires
        !a.contains(':'),
    ensures
        place(a) is Err <==> unsigned_value(trim(a), usize::MAX as nat) is Err,
        place(a + seq![':'] + b) is Err <==> unsigned_value(trim(a), usize::MAX as nat) is Err
            || unsigned_value(trim(b), usize::MAX as nat) is Err,
{
    lemma_colon(a, b);
    let s = a + seq![':'] + b;
    assert(a.take(a.len() as int) =~= a);
    assert(s.take(a.len() as int) =~= a);
    assert(s.skip((a.len() + 1) as int) =~= b);
}

/// Ctrl-G with the line number of the status bar comes back to the line of the cursor.
pub proof fn law_go_to_shown_line(s: EditorView)
    requires
        s.wf(),
        s.cursor_ok(),
        s.cursor.y < usize::MAX,
    ensures
        s.prompt_processed(
            PromptView::GoTo(decimal((s.cursor.y + 1) as nat)),
            Key::Char(0x0d),
        ).0.cursor == s.cursor,
{
    let d = decimal((s.cursor.y + 1) as nat);
    law_decimal((s.cursor.y + 1) as nat);
    assert(Seq::<char>::empty() + d + Seq::<char>::empty() =~= d);
    assert(blank(Seq::<char>::empty()));
    assert(is_number(d, d));
    law_go_to_line(s, d, d);
    lemma_lens(s);
}

} // verus!
