use std::time::Instant;

use kibi::config::Config;
use kibi::keys::Key;
use kibi::state::{Editor, PromptMode, StatusMessage};
use kibi::syntax::Conf;

const START: &str = "\x1b[?25l\x1b[H";
const HELP: &str = "\x1b[KCtrl-S = save | Ctrl";

fn editor_with(text: &str) -> Editor {
    let mut editor = Editor::new(Config::default(), 5, 20);
    editor.load_bytes(&text.as_bytes().to_vec());
    editor
}

fn number(text: &str) -> String {
    format!("\x1b[K\x1b[38;5;240m{} \u{2502}\x1b[m", text)
}

#[test]
fn a_screen_with_text() {
    let mut editor = editor_with("ab");
    assert!(editor.can_refresh());
    let expected = format!(
        "{}{}ab\r\n{}\r\n{}\r\n\x1b[7m[No Name] | 2B | 1:1\x1b[m\r\n{}\x1b[1;4H\x1b[?25h",
        START,
        number("1"),
        number("~"),
        number("~"),
        HELP
    );
    assert_eq!(editor.refresh_screen_at(0), expected);
    assert_eq!(editor.refresh_screen(), expected);
    editor.status_msg = None;
    assert_eq!(editor.message_age(), 0);
}

#[test]
fn an_empty_text_shows_the_welcome_message() {
    let mut editor = Editor::new(Config::default(), 5, 20);
    editor.open_unnamed();
    let expected = format!(
        "{}{}\r\n{}   Kibi 0.2.2    \r\n{}\r\n\x1b[7m[No Name] | 0B | 1:1\x1b[m\r\n{}\x1b[1;4H\x1b[?25h",
        START,
        number("1"),
        number("~"),
        number("~"),
        HELP
    );
    assert_eq!(editor.refresh_screen(), expected);
}

#[test]
fn the_welcome_message_is_cut() {
    let mut editor = Editor::new(Config::default(), 5, 6);
    editor.open_unnamed();
    let mut buffer = String::new();
    editor.draw_rows(&mut buffer);
    assert_eq!(buffer, "\x1b[K\r\n\x1b[KKibi 0\r\n\x1b[K\r\n");
}

#[test]
fn a_prompt_has_the_cursor() {
    let mut editor = editor_with("ab");
    editor.prompt_mode = Some(PromptMode::GoTo("12".to_string()));
    editor.show_prompt();
    let screen = editor.refresh_screen();
    assert!(screen.ends_with("\x1b[KEnter line number[:c\x1b[5;38H\x1b[?25h"));
}

#[test]
fn the_status_bar() {
    let mut editor = Editor::new(Config::default(), 5, 60);
    editor.load_bytes(&b"one\n\ttwo".to_vec());
    editor.file_name = Some("a-file-name-of-more-than-thirty-characters.rs".to_string());
    editor.dirty = true;
    editor.syntax = Conf { name: "Rust".to_string(), ml_comment_delims: None };
    editor.cursor.y = 1;
    editor.cursor.x = 2;
    let mut buffer = String::new();
    editor.draw_status_bar(&mut buffer);
    assert_eq!(
        buffer,
        "\x1b[7ma-file-name-of-more-than-thirt (modified)    Rust | 8B | 2:6\x1b[m\r\n"
    );
    editor.window_width = 35;
    let mut buffer = String::new();
    editor.draw_status_bar(&mut buffer);
    assert_eq!(buffer, "\x1b[7ma-file-name-of-more-than-thirt (mod\x1b[m\r\n");
}

#[test]
fn messages_are_shown_for_a_while() {
    let mut editor = editor_with("");
    editor.status_msg = Some(StatusMessage::new("hello".to_string()));
    let mut buffer = String::new();
    editor.draw_message_bar_at(2_999_999_999, &mut buffer);
    assert_eq!(buffer, "\x1b[Khello");
    let mut buffer = String::new();
    editor.draw_message_bar_at(3_000_000_000, &mut buffer);
    assert_eq!(buffer, "\x1b[K");
    let mut buffer = String::new();
    editor.draw_message_bar(&mut buffer);
    assert_eq!(buffer, "\x1b[Khello");
    editor.config.message_dur = 0;
    let mut buffer = String::new();
    editor.draw_message_bar(&mut buffer);
    assert_eq!(buffer, "\x1b[K");
    editor.status_msg = None;
    editor.config.message_dur = 3_000_000_000;
    let mut buffer = String::new();
    editor.draw_message_bar(&mut buffer);
    assert_eq!(buffer, "\x1b[K");
}

#[test]
fn messages_hold_their_moment() {
    let before = Instant::now();
    let sm = StatusMessage::new("a".to_string());
    assert!(before <= sm.time && sm.time <= Instant::now());
    let sm = StatusMessage::at("b".to_string(), before);
    assert_eq!((sm.msg.as_str(), sm.time), ("b", before));
    let mut editor = editor_with("");
    editor.set_status_at("c".to_string(), before);
    let sm = editor.status_msg.as_ref().unwrap();
    assert_eq!((sm.msg.as_str(), sm.time), ("c", before));
    editor.set_status("d".to_string());
    let sm = editor.status_msg.as_ref().unwrap();
    assert!(before <= sm.time && sm.time <= Instant::now());
}

#[test]
fn a_character_is_not_cut_in_two() {
    let mut editor = editor_with("");
    editor.window_width = 1;
    editor.file_name = Some("f".to_string());
    editor.status_msg = Some(StatusMessage::new("\u{e9}".to_string()));
    assert!(!editor.can_refresh());
    // A message that is not shown any longer is not cut
    assert!(!editor.can_refresh_at(0));
    assert!(editor.can_refresh_at(3_000_000_000));
    assert!(editor.refresh_screen_at(3_000_000_000).contains("\x1b[K\x1b["));
    editor.status_msg = Some(StatusMessage::new("e".to_string()));
    assert!(editor.can_refresh());
    editor.file_name = Some("\u{e9}".to_string());
    assert!(!editor.can_refresh());
}

#[test]
fn the_screen_follows_the_cursor() {
    let mut editor = editor_with("1\n2\n3\n4\n5\nabcdefghijklmnopqrstuvwxyz");
    editor.cursor.y = 5;
    editor.cursor.x = 26;
    editor.refresh_screen();
    assert_eq!((editor.cursor.roff, editor.cursor.coff), (3, 10));
    editor.run(&Key::Home);
    editor.refresh_screen();
    assert_eq!((editor.cursor.roff, editor.cursor.coff), (3, 0));
    editor.cursor.y = 0;
    editor.refresh_screen();
    assert_eq!((editor.cursor.roff, editor.cursor.coff), (0, 0));
}

#[test]
fn rows_are_drawn_with_tabs_matches_and_offsets() {
    let mut editor = editor_with("a\tb\u{e9}\u{ff}");
    let draw = |editor: &Editor, offset: usize, max_len: usize| {
        let mut buffer = String::new();
        editor.rows[0].draw(offset, max_len, &mut buffer);
        buffer
    };
    assert_eq!(draw(&editor, 0, 80), "a   b\u{e9}\u{ff}");
    assert_eq!(draw(&editor, 3, 2), " b");
    assert_eq!(draw(&editor, 9, 2), "");
    editor.rows[0].match_segment = Some(4..5);
    assert_eq!(draw(&editor, 4, 2), "\x1b[7mb\x1b[m\u{e9}");
    let mut editor = Editor::default();
    editor.load_bytes(&vec![b'a', 0xff, 0xe2, 0x82]);
    assert_eq!(draw(&editor, 0, 80), "a\u{fffd}\u{fffd}\u{fffd}");
    assert_eq!(editor.rows[0].cx2rx, [0, 1, 2, 3, 4]);
    assert_eq!(editor.rows[0].rx2cx, [0, 1, 2, 3, 4]);
}
