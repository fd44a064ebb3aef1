use kibi::cursor::CursorState;
use kibi::keys::{AKey, Key, BACKSPACE, DELETE_BIS, EXIT, FIND, GOTO};
use kibi::prompt::{parse_place, process_prompt_keypress, PromptState};
use kibi::state::{AdapterReadyFor, Editor, PromptMode};
use kibi::step::Step;
use kibi::text::IntError;

const ENTER: Key = Key::Char(b'\r');

fn editor_with(text: &str) -> Editor {
    let mut editor = Editor::default();
    editor.load_bytes(&text.as_bytes().to_vec());
    editor
}

fn at(x: usize, y: usize) -> CursorState {
    CursorState { x, y, roff: 0, coff: 0 }
}

fn message(editor: &Editor) -> Option<&str> {
    editor.status_msg.as_ref().map(|sm| sm.msg.as_str())
}

/// Presses keys in a prompt, and returns what the last one asks for.
fn press(editor: &mut Editor, mode: PromptMode, keys: &[Key]) -> Step {
    let mut step = Step::Prompt(Some(mode));
    for key in keys {
        step = match step {
            Step::Prompt(Some(mode)) => {
                assert!(mode.accepts(editor, key));
                mode.process_keypress(editor, key)
            }
            _ => panic!("the prompt has ended"),
        };
    }
    step
}

fn typed(text: &str) -> Vec<Key> {
    text.bytes().map(Key::Char).chain([ENTER]).collect()
}

#[test]
fn keys_in_a_prompt() {
    let active = |buffer: &str, key: &Key, expected: &str| {
        match process_prompt_keypress(buffer.to_string(), key) {
            PromptState::Active(b) => assert_eq!(b, expected),
            _ => panic!("the prompt has ended"),
        }
    };
    active("ab", &Key::Char(b'c'), "abc");
    active("ab", &Key::Char(b' '), "ab ");
    active("ab", &Key::Char(b'~'), "ab~");
    active("ab", &Key::Char(BACKSPACE), "a");
    active("ab", &Key::Char(DELETE_BIS), "a");
    active("a\u{e9}", &Key::Char(BACKSPACE), "a");
    active("", &Key::Char(BACKSPACE), "");
    active("ab", &Key::Char(b'\n'), "ab");
    active("ab", &Key::Char(0xe9), "ab");
    active("ab", &Key::Char(FIND), "ab");
    active("ab", &Key::Home, "ab");
    active("ab", &Key::Arrow(AKey::Left), "ab");
    assert!(matches!(
        process_prompt_keypress("ab".to_string(), &ENTER),
        PromptState::Completed(b) if b == "ab"
    ));
    for key in [Key::Escape, Key::Char(EXIT)] {
        assert!(matches!(
            process_prompt_keypress("ab".to_string(), &key),
            PromptState::Cancelled
        ));
    }
}

#[test]
fn messages_of_prompts() {
    let b = || "b".to_string();
    assert_eq!(PromptMode::Save(b()).status_msg(), "Save as: b");
    assert_eq!(
        PromptMode::Find(b(), at(0, 0), None).status_msg(),
        "Search (Use ESC/Arrows/Enter): b"
    );
    assert_eq!(PromptMode::GoTo(b()).status_msg(), "Enter line number[:column number]: b");
    assert_eq!(PromptMode::Execute(b()).status_msg(), "Command to execute: b");
    assert_eq!(PromptMode::Username(b()).status_msg(), "Username: b");
    assert_eq!(PromptMode::Password("abc".to_string()).status_msg(), "Password: ***");
    assert_eq!(PromptMode::Password("xyz".to_string()).status_msg(), "Password: ***");
}

#[test]
fn save_prompt() {
    let mut editor = editor_with("a");
    let mode = PromptMode::Save(String::new());
    let step = press(&mut editor, mode, &typed("f.txt"));
    assert!(matches!(step, Step::SaveAs(name) if name == "f.txt"));
    assert_eq!(message(&editor), None);
    let step = press(&mut editor, PromptMode::Save(String::new()), &[Key::Escape]);
    assert!(matches!(step, Step::Prompt(None)));
    assert_eq!(message(&editor), Some("Save aborted"));
}

#[test]
fn user_prompts() {
    let mut editor = editor_with("a");
    let step = press(&mut editor, PromptMode::Username(String::new()), &typed("ann"));
    assert_eq!(editor.username.as_deref(), Some("ann"));
    let mode = match step {
        Step::Prompt(Some(mode)) => mode,
        _ => panic!("no prompt follows"),
    };
    assert_eq!(mode.status_msg(), "Password: ");
    // Without a document no password can be used
    assert!(!mode.accepts(&editor, &ENTER));
    editor.file_name = Some("solid://pod".to_string());
    editor.ready_for = Some(AdapterReadyFor::LOADING);
    let step = press(&mut editor, mode, &typed("secret"));
    assert_eq!(editor.password.as_deref(), Some("secret"));
    assert!(matches!(step, Step::ResumeLoading(name) if name == "solid://pod"));
    editor.ready_for = Some(AdapterReadyFor::SAVING);
    let step = press(&mut editor, PromptMode::Password(String::new()), &[ENTER]);
    assert!(matches!(step, Step::ResumeSaving(name) if name == "solid://pod"));
    press(&mut editor, PromptMode::Username(String::new()), &[Key::Escape]);
    assert_eq!(message(&editor), Some("No username"));
    press(&mut editor, PromptMode::Password(String::new()), &[Key::Escape]);
    assert_eq!(message(&editor), Some("No password"));
}

#[test]
fn places_of_the_go_to_prompt() {
    assert_eq!(parse_place("3"), Ok((2, None)));
    assert_eq!(parse_place(" 3 : 4 "), Ok((2, Some(3))));
    assert_eq!(parse_place("0:0"), Ok((0, Some(0))));
    assert_eq!(parse_place(""), Err(IntError::Empty));
    assert_eq!(parse_place("1:"), Err(IntError::Empty));
    assert_eq!(parse_place(":1"), Err(IntError::Empty));
    assert_eq!(parse_place("x:"), Err(IntError::InvalidDigit));
    assert_eq!(parse_place("1:2:3"), Err(IntError::InvalidDigit));
    assert_eq!(parse_place("99999999999999999999999"), Err(IntError::PosOverflow));
}

#[test]
fn go_to_prompt() {
    let mut editor = editor_with("abc\n\txyz\nlast");
    editor.cursor = at(3, 0);
    let goto = || PromptMode::GoTo(String::new());
    press(&mut editor, goto(), &typed("2"));
    assert_eq!(editor.cursor, at(3, 1));
    press(&mut editor, goto(), &typed("2:6"));
    assert_eq!(editor.cursor, at(2, 1));
    press(&mut editor, goto(), &typed("2:3"));
    assert_eq!(editor.cursor, at(0, 1));
    press(&mut editor, goto(), &typed("99"));
    assert_eq!(editor.cursor, at(0, 3));
    press(&mut editor, goto(), &typed("99:7"));
    assert_eq!(editor.cursor, at(0, 3));
    press(&mut editor, goto(), &typed("1x"));
    assert_eq!(message(&editor), Some("Parsing error: invalid digit found in string"));
    press(&mut editor, goto(), &[Key::Escape]);
    assert_eq!(message(&editor), None);
    assert_eq!(editor.cursor, at(0, 3));
    // A column behind the end of the row
    assert!(PromptMode::GoTo("1:4".to_string()).accepts(&editor, &ENTER));
    assert!(!PromptMode::GoTo("1:5".to_string()).accepts(&editor, &ENTER));
}

#[test]
fn execute_prompt() {
    let mut editor = editor_with("");
    let execute = || PromptMode::Execute(String::new());
    match press(&mut editor, execute(), &typed(" ls  -l /tmp ")) {
        Step::Execute(program, args) => {
            assert_eq!(program, "ls");
            assert_eq!(args, ["-l", "/tmp"]);
        }
        _ => panic!("nothing is run"),
    }
    match press(&mut editor, execute(), &typed(" ")) {
        Step::Execute(program, args) => {
            assert_eq!(program, "");
            assert!(args.is_empty());
        }
        _ => panic!("nothing is run"),
    }
    assert!(matches!(press(&mut editor, execute(), &[Key::Escape]), Step::Prompt(None)));
}

#[test]
fn find_prompt() {
    let mut editor = editor_with("one two\nthree\ntwo");
    editor.cursor = CursorState { x: 2, y: 1, roff: 1, coff: 5 };
    let saved = editor.cursor;
    let mut mode = PromptMode::Find(String::new(), saved, None);
    for b in b"two" {
        mode = match mode.process_keypress(&mut editor, &Key::Char(*b)) {
            Step::Prompt(Some(mode)) => mode,
            _ => panic!("the prompt has ended"),
        };
    }
    assert_eq!(editor.cursor, CursorState { x: 4, y: 0, roff: 1, coff: 0 });
    assert_eq!(editor.rows[0].match_segment, Some(4..7));
    let steps = [
        (Key::Arrow(AKey::Right), 2),
        (Key::Char(FIND), 0),
        (Key::Arrow(AKey::Up), 2),
        (Key::Arrow(AKey::Left), 0),
        (Key::Arrow(AKey::Down), 2),
    ];
    for (key, row) in steps {
        mode = match mode.process_keypress(&mut editor, &key) {
            Step::Prompt(Some(mode)) => mode,
            _ => panic!("the prompt has ended"),
        };
        assert_eq!(editor.cursor.y, row);
        assert!(matches!(mode, PromptMode::Find(_, _, Some(r)) if r == row));
        let matched: Vec<usize> =
            (0..3).filter(|i| editor.rows[*i].match_segment.is_some()).collect();
        assert_eq!(matched, [row]);
    }
    let step = mode.process_keypress(&mut editor, &Key::Escape);
    assert!(matches!(step, Step::Prompt(None)));
    assert_eq!(editor.cursor, saved);
    assert!(editor.rows.iter().all(|row| row.match_segment.is_none()));
    assert_eq!(editor.contents(), b"one two\nthree\ntwo");
}

#[test]
fn find_prompt_is_left_at_the_match() {
    let mut editor = editor_with("one\ntwo");
    let mode = PromptMode::Find(String::new(), editor.cursor, None);
    let step = press(&mut editor, mode, &typed("w"));
    assert!(matches!(step, Step::Prompt(None)));
    assert_eq!((editor.cursor.x, editor.cursor.y), (1, 1));
    assert!(editor.rows.iter().all(|row| row.match_segment.is_none()));
}

#[test]
fn failed_searches_leave_the_cursor() {
    let mut editor = editor_with("one\ntwo");
    assert_eq!(editor.find("x", &None, true), None);
    assert_eq!(editor.cursor, at(0, 0));
    assert_eq!(editor.find("", &Some(0), true), Some(1));
    assert_eq!(editor.find("e", &Some(0), false), Some(0));
    assert_eq!(editor.cursor, at(2, 0));
    let mut empty = Editor::default();
    assert_eq!(empty.find("x", &None, true), None);
}

#[test]
fn a_match_in_a_row_that_is_gone_is_refused() {
    let editor = editor_with("one");
    let mode = PromptMode::Find(String::new(), editor.cursor, Some(1));
    assert!(!mode.accepts(&editor, &Key::Char(GOTO)));
    let mode = PromptMode::Find(String::new(), editor.cursor, Some(0));
    assert!(mode.accepts(&editor, &Key::Char(GOTO)));
}
