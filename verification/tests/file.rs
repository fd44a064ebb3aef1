use kibi::config::Config;
use kibi::execute::CommandOutcome;
use kibi::file::{split_lines, FileRead, LoadError};
use kibi::state::Editor;

fn message(editor: &Editor) -> &str {
    editor.status_msg.as_ref().map_or("", |sm| sm.msg.as_str())
}

#[test]
fn lines_of_files() {
    let split = |text: &str| split_lines(&text.as_bytes().to_vec());
    assert_eq!(split(""), [b"".to_vec()]);
    assert_eq!(split("a"), [b"a".to_vec()]);
    assert_eq!(split("a\n"), [b"a".to_vec(), b"".to_vec()]);
    assert_eq!(split("a\nbc"), [b"a".to_vec(), b"bc".to_vec()]);
    assert_eq!(split("\n\n"), [b"".to_vec(), b"".to_vec(), b"".to_vec()]);
}

#[test]
fn saving_what_was_loaded() {
    for text in ["", "a", "a\n", "\n", "one\ntwo\n\nthree", "\r\n\u{e9}\n"] {
        let mut editor = Editor::default();
        let bytes = text.as_bytes().to_vec();
        assert!(editor.can_load_bytes(&bytes));
        assert!(editor.load_file(FileRead::Contents(bytes.clone())).is_ok());
        assert_eq!(editor.contents(), bytes);
        assert_eq!(editor.rows.len(), text.split('\n').count());
        assert!(editor.can_save_to_file());
        let (contents, size) = editor.save_to_file();
        assert_eq!(contents, bytes);
        assert_eq!(size, format!("{}B", bytes.len()));
        assert!(!editor.dirty);
    }
}

#[test]
fn a_loaded_text_is_highlighted_and_numbered() {
    let mut editor = Editor::new(Config::default(), 24, 80);
    let text = vec![b'\n'; 9];
    editor.load_bytes(&text);
    assert_eq!(editor.rows.len(), 10);
    assert_eq!(editor.ln_pad, 4);
    assert_eq!(editor.n_bytes, 0);
}

#[test]
fn a_missing_file_is_an_empty_text() {
    let mut editor = Editor::default();
    assert!(editor.load_file(FileRead::NotFound).is_ok());
    assert_eq!(editor.rows.len(), 1);
    assert_eq!(editor.contents(), b"");
}

#[test]
fn files_that_cannot_be_loaded() {
    let mut editor = Editor::default();
    match editor.load_file(FileRead::InvalidType) {
        Err(e) => {
            assert!(matches!(e, LoadError::InvalidType));
            assert_eq!(e.message(), "Invalid input file type");
        }
        Ok(()) => panic!("a directory was loaded"),
    }
    match editor.load_file(FileRead::Failed("denied".to_string())) {
        Err(e) => assert_eq!(e.message(), "denied"),
        Ok(()) => panic!("a file was loaded"),
    }
    assert!(editor.rows.is_empty());
}

#[test]
fn a_text_without_rows_has_no_contents() {
    let editor = Editor::default();
    assert_eq!(editor.contents(), b"");
    assert_eq!(editor.save_to_file().1, "0B");
}

#[test]
fn a_file_that_is_too_large_is_refused() {
    let config = Config { tab_stop: usize::MAX / 35, ..Config::default() };
    let editor = Editor::new(config, 24, 80);
    assert!(editor.can_load_bytes(&b"a\nb\n\nc".to_vec()));
    assert!(!editor.can_load_bytes(&b"abcd".to_vec()));
}

#[test]
fn output_is_inserted_at_the_cursor() {
    let mut editor = Editor::default();
    editor.load_bytes(&b"start-end".to_vec());
    editor.cursor.x = 5;
    let output = b"one\ntwo".to_vec();
    assert!(editor.can_insert_output(&output));
    editor.finish_command(CommandOutcome::Output(output));
    assert_eq!(editor.contents(), b"startone\ntwo-end");
    assert_eq!((editor.cursor.x, editor.cursor.y), (3, 1));
    editor.cursor.x = 99;
    assert!(!editor.can_insert_output(&b"x".to_vec()));
}

#[test]
fn failed_commands_show_their_errors() {
    let mut editor = Editor::default();
    editor.finish_command(CommandOutcome::Failed(b"no such file\n\n".to_vec()));
    assert_eq!(message(&editor), "no such file");
    editor.finish_command(CommandOutcome::Failed(b"caf\xe9 \xc3\xa9 ".to_vec()));
    assert_eq!(message(&editor), "caf\u{fffd} \u{e9}");
    editor.finish_command(CommandOutcome::NotRun("not found ".to_string()));
    assert_eq!(message(&editor), "not found ");
    editor.command_failed("  text\t");
    assert_eq!(message(&editor), "  text");
    assert!(editor.rows.is_empty());
}
