use kibi::config::Config;
use kibi::cursor::CursorState;
use kibi::exchange::Request;
use kibi::keys::{
    AKey, Key, PageKey, DUPLICATE, EXECUTE, EXIT, FIND, GOTO, REFRESH_REPLICA, REFRESH_SCREEN,
    REMOVE_LINE, SAVE, SAVE_AS,
};
use kibi::session::{LoadPlan, SaveOutcome, SavePlan};
use kibi::state::{AdapterReadyFor, Editor, PromptMode, HELP_MESSAGE};
use kibi::step::Step;
use kibi::syntax::{Conf, HlState};

fn editor_with(text: &str) -> Editor {
    let mut editor = Editor::new(Config::default(), 6, 40);
    editor.load_bytes(&text.as_bytes().to_vec());
    editor
}

fn press(editor: &mut Editor, key: Key) -> Step {
    assert!(editor.can_run(&key));
    editor.run(&key)
}

fn message(editor: &Editor) -> &str {
    editor.status_msg.as_ref().map_or("", |sm| sm.msg.as_str())
}

fn place(editor: &Editor) -> (usize, usize) {
    (editor.cursor.x, editor.cursor.y)
}

#[test]
fn a_new_editor() {
    let config = Config { quit_times: 5, ..Config::default() };
    let editor = Editor::new(config, 24, 80);
    assert_eq!(message(&editor), HELP_MESSAGE);
    assert_eq!(editor.quit_times, 5);
    assert_eq!((editor.screen_rows, editor.window_width), (22, 80));
    assert!(editor.rows.is_empty() && !editor.dirty && editor.file_name.is_none());
}

#[test]
fn typing_text() {
    let mut editor = Editor::new(Config::default(), 24, 80);
    editor.open_unnamed();
    for b in b"ab\rc" {
        press(&mut editor, Key::Char(*b));
    }
    assert_eq!(editor.contents(), b"ab\nc");
    press(&mut editor, Key::Char(127));
    press(&mut editor, Key::Char(8));
    assert_eq!(editor.contents(), b"ab");
    press(&mut editor, Key::Home);
    press(&mut editor, Key::Delete);
    assert_eq!(editor.contents(), b"b");
    press(&mut editor, Key::End);
    assert_eq!(place(&editor), (1, 0));
    press(&mut editor, Key::Char(DUPLICATE));
    assert_eq!(editor.contents(), b"b\nb");
    press(&mut editor, Key::Char(REMOVE_LINE));
    assert_eq!(editor.contents(), b"b\n");
    press(&mut editor, Key::Char(b'\n'));
    assert_eq!(editor.contents(), b"b\n\n");
}

#[test]
fn keys_that_leave_the_text() {
    let mut editor = editor_with("one\ntwo\nthree");
    let keys = [
        Key::Arrow(AKey::Down),
        Key::CtrlArrow(AKey::Right),
        Key::Page(PageKey::Down),
        Key::Page(PageKey::Up),
        Key::Home,
        Key::End,
        Key::Escape,
        Key::Char(REFRESH_SCREEN),
        Key::Char(REFRESH_REPLICA),
    ];
    for key in keys {
        assert!(matches!(press(&mut editor, key), Step::Prompt(None)));
        assert_eq!(editor.contents(), b"one\ntwo\nthree");
        assert!(!editor.dirty);
    }
}

#[test]
fn pages() {
    let mut editor = editor_with("0\n1\n2\n3\n4\n5\n6\n7\n8\n9\n10\n11");
    assert_eq!(editor.screen_rows, 4);
    press(&mut editor, Key::Page(PageKey::Down));
    assert_eq!(editor.cursor.y, 7);
    editor.refresh_screen();
    assert_eq!(editor.cursor.roff, 4);
    press(&mut editor, Key::Page(PageKey::Down));
    assert_eq!(editor.cursor.y, 11);
    editor.cursor.roff = 6;
    press(&mut editor, Key::Page(PageKey::Down));
    assert_eq!(editor.cursor.y, 12);
    press(&mut editor, Key::Page(PageKey::Up));
    assert_eq!(editor.cursor.y, 2);
    editor.cursor.roff = 3;
    press(&mut editor, Key::Page(PageKey::Up));
    assert_eq!(editor.cursor.y, 0);
    editor.screen_rows = 0;
    editor.cursor.roff = 0;
    assert!(!editor.can_run(&Key::Page(PageKey::Down)));
}

#[test]
fn quitting_a_modified_text() {
    let mut editor = editor_with("a");
    editor.config.quit_times = 3;
    press(&mut editor, Key::Char(b'x'));
    assert!(matches!(press(&mut editor, Key::Char(EXIT)), Step::Prompt(None)));
    assert_eq!(message(&editor), "Press Ctrl+Q 2 more times to quit.");
    assert!(matches!(press(&mut editor, Key::Char(EXIT)), Step::Prompt(None)));
    assert_eq!(message(&editor), "Press Ctrl+Q 1 more time to quit.");
    press(&mut editor, Key::Home);
    assert_eq!(editor.quit_times, 3);
    press(&mut editor, Key::Char(EXIT));
    press(&mut editor, Key::Char(EXIT));
    assert!(matches!(press(&mut editor, Key::Char(EXIT)), Step::Quit));
    editor.quit_times = 0;
    assert!(!editor.can_run(&Key::Char(EXIT)));
}

#[test]
fn quitting_an_unmodified_text() {
    let mut editor = editor_with("a");
    assert!(matches!(press(&mut editor, Key::Char(EXIT)), Step::Quit));
}

#[test]
fn commands_open_prompts() {
    let prompts = [
        (SAVE, "Save as: "),
        (SAVE_AS, "Save as: "),
        (FIND, "Search (Use ESC/Arrows/Enter): "),
        (GOTO, "Enter line number[:column number]: "),
        (EXECUTE, "Command to execute: "),
    ];
    for (command, msg) in prompts {
        let mut editor = editor_with("a");
        assert!(matches!(press(&mut editor, Key::Char(command)), Step::Prompt(None)));
        editor.show_prompt();
        assert_eq!(message(&editor), msg);
        assert!(matches!(press(&mut editor, Key::Escape), Step::Prompt(None)));
        assert!(editor.prompt_mode.is_none());
    }
}

#[test]
fn prompts_take_the_keys() {
    let mut editor = editor_with("one\ntwo");
    press(&mut editor, Key::Char(GOTO));
    press(&mut editor, Key::Char(b'2'));
    assert_eq!(editor.contents(), b"one\ntwo");
    editor.show_prompt();
    assert_eq!(message(&editor), "Enter line number[:column number]: 2");
    press(&mut editor, Key::Char(b'\r'));
    assert!(editor.prompt_mode.is_none());
    assert_eq!(place(&editor), (0, 1));
    press(&mut editor, Key::Char(EXECUTE));
    press(&mut editor, Key::Char(b'w'));
    assert!(matches!(press(&mut editor, Key::Char(b'\r')), Step::Execute(_, _)));
    assert!(editor.prompt_mode.is_none());
}

#[test]
fn saving_a_named_text() {
    let mut editor = editor_with("a");
    editor.file_name = Some("f.txt".to_string());
    assert!(matches!(press(&mut editor, Key::Char(SAVE)), Step::Save(name) if name == "f.txt"));
    assert_eq!(editor.file_name.as_deref(), Some("f.txt"));
    editor.dirty = true;
    assert!(!editor.save_and_handle_io_errors("f.txt", &SaveOutcome::Failed("disk full".to_string())));
    assert_eq!(message(&editor), "Can't save! I/O error: disk full");
    assert!(editor.dirty);
    assert!(editor.save_and_handle_io_errors("f.txt", &SaveOutcome::Saved("1B".to_string())));
    assert_eq!(message(&editor), "1B written to f.txt");
    assert!(!editor.dirty);
}

#[test]
fn saving_under_a_new_name() {
    let mut editor = editor_with("/*");
    assert_eq!(editor.save_as("a.c".to_string(), true, Ok(None)), Ok(()));
    assert_eq!(editor.file_name.as_deref(), Some("a.c"));
    assert_eq!(editor.rows[0].hl_state, HlState::Normal);
    let c = Conf {
        name: "C".to_string(),
        ml_comment_delims: Some((b"/*".to_vec(), b"*/".to_vec())),
    };
    assert_eq!(editor.save_as("b.c".to_string(), true, Ok(Some(c))), Ok(()));
    assert_eq!(editor.file_name.as_deref(), Some("b.c"));
    assert_eq!(editor.syntax.name, "C");
    assert_eq!(editor.rows[0].hl_state, HlState::MultiLineComment);
    // Not saved, or the syntax could not be looked up: nothing changes
    assert_eq!(editor.save_as("c.c".to_string(), false, Ok(Some(Conf::plain()))), Ok(()));
    assert_eq!(editor.save_as("c.c".to_string(), false, Err("denied".to_string())), Ok(()));
    let denied = editor.save_as("c.c".to_string(), true, Err("denied".to_string()));
    assert_eq!(denied, Err("denied".to_string()));
    assert_eq!(editor.file_name.as_deref(), Some("b.c"));
    assert_eq!(editor.syntax.name, "C");
    assert_eq!(editor.rows[0].hl_state, HlState::MultiLineComment);
}

#[test]
fn the_remote_replica_is_refreshed_if_there_is_one() {
    let mut editor = editor_with("a");
    assert!(matches!(press(&mut editor, Key::Char(REFRESH_REPLICA)), Step::Prompt(None)));
    editor.remote_url = Some("http://example.com/".to_string());
    assert!(matches!(press(&mut editor, Key::Char(REFRESH_REPLICA)), Step::RefreshReplica));
}

#[test]
fn files_are_told_from_remote_documents() {
    let mut editor = editor_with("a");
    assert!(matches!(editor.load("notes/a.txt"), LoadPlan::File));
    assert!(matches!(editor.save("notes/a.txt"), SavePlan::File));
    assert_eq!(editor.ready_for, None);
    assert!(matches!(editor.load("file:///tmp/pod"), LoadPlan::Exchange(_, _)));
    assert_eq!(editor.ready_for, Some(AdapterReadyFor::LOADING));
    assert!(matches!(editor.save("file:///tmp/pod"), SavePlan::Exchange(_, _)));
    assert_eq!(editor.ready_for, Some(AdapterReadyFor::SAVING));
    assert!(editor.prompt_mode.is_none());
}

#[test]
fn a_pod_needs_a_user() {
    let mut editor = editor_with("a");
    assert!(matches!(editor.load("solid://pod.example/d"), LoadPlan::NotReady));
    assert!(matches!(&editor.prompt_mode, Some(PromptMode::Username(b)) if b.is_empty()));
    editor.end_step();
    assert!(editor.prompt_mode.is_none());
    assert!(matches!(editor.save("solid://pod.example/d"), SavePlan::NotReady));
    assert_eq!(editor.ready_for, Some(AdapterReadyFor::SAVING));
    assert!(matches!(editor.load("solid://ann@pod.example/d"), LoadPlan::Exchange(_, _)));
    editor.username = Some("ann".to_string());
    assert!(matches!(editor.load("SOLID://pod.example/d"), LoadPlan::Exchange(_, _)));
}

#[test]
fn a_save_that_stores_nothing_is_none() {
    let mut editor = Editor::default();
    editor.insert_byte(b'a');
    assert!(matches!(editor.save("solid://host/doc"), SavePlan::NotReady));
    assert!(matches!(&editor.prompt_mode, Some(PromptMode::Username(b)) if b.is_empty()));
    assert!(!editor.save_and_handle_io_errors("solid://host/doc", &SaveOutcome::NotReady));
    assert!(editor.dirty);
    assert_eq!(message(&editor), "");
    // Once the name is known, the change is staged
    editor.username = Some("ann".to_string());
    match editor.save("solid://host/doc") {
        SavePlan::Exchange(_, Request::Update(data)) => assert_eq!(data, editor.serialize()),
        _ => panic!("nothing is staged"),
    }
}

#[test]
fn a_user_is_asked_for_a_name() {
    let url = "solid://host/doc".to_string();
    let mut editor = editor_with("a");
    editor.file_name = Some(url.clone());
    press(&mut editor, Key::Char(b'x'));
    assert!(matches!(press(&mut editor, Key::Char(SAVE)), Step::Save(name) if name == url));
    assert!(matches!(editor.save(&url), SavePlan::NotReady));
    editor.end_save(&url, &SaveOutcome::NotReady);
    for b in b"ann\rpw" {
        press(&mut editor, Key::Char(*b));
    }
    let step = press(&mut editor, Key::Char(b'\r'));
    assert!(matches!(step, Step::ResumeSaving(name) if name == url));
    assert_eq!(editor.username.as_deref(), Some("ann"));
    assert_eq!(editor.password.as_deref(), Some("pw"));
    assert!(editor.dirty);
}

#[test]
fn the_end_of_a_save() {
    let url = "solid://host/doc".to_string();
    let mut editor = editor_with("a");
    // Under another name than that of the text
    editor.save(&url);
    editor.end_save(&url, &SaveOutcome::NotReady);
    assert!(editor.prompt_mode.is_none());
    assert_eq!(message(&editor), "No username");
    editor.file_name = Some(url.clone());
    editor.save(&url);
    assert!(editor.prompt_mode.is_some());
    editor.end_save(&url, &SaveOutcome::Saved("1B".to_string()));
    assert!(editor.prompt_mode.is_none());
}

#[test]
fn the_cursor_stays_in_the_text() {
    let mut editor = editor_with("ab\n\ncdef\ng");
    let bytes = [b'x', b'\r', 127, REMOVE_LINE, DUPLICATE, b'y', 127, 127, b'\r', b'z'];
    let moves = [
        Key::Arrow(AKey::Down),
        Key::End,
        Key::Page(PageKey::Down),
        Key::Arrow(AKey::Left),
        Key::Delete,
        Key::Page(PageKey::Up),
        Key::Arrow(AKey::Up),
    ];
    for n in 0..200 {
        let key = if n % 2 == 0 { Key::Char(bytes[n / 2 % 10]) } else { moves[n / 2 % 7] };
        press(&mut editor, key);
        let CursorState { x, y, .. } = editor.cursor;
        assert!(y <= editor.rows.len());
        assert!(x <= editor.rows.get(y).map_or(0, |row| row.chars.len()));
        let total: usize = editor.rows.iter().map(|row| row.chars.len()).sum();
        assert_eq!(editor.n_bytes, total as u64);
        assert!(editor.can_refresh());
        editor.refresh_screen();
    }
}
