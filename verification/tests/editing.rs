use kibi::config::Config;
use kibi::cursor::CursorState;
use kibi::keys::AKey;
use kibi::state::Editor;
use kibi::syntax::{Conf, HlState};

fn lines(editor: &Editor) -> Vec<Vec<u8>> {
    editor.rows.iter().map(|row| row.chars.iter().map(|uc| uc.0).collect()).collect()
}

fn char_ids(editor: &Editor) -> Vec<Vec<String>> {
    editor.rows.iter().map(|row| row.chars.iter().map(|uc| uc.1.clone()).collect()).collect()
}

fn editor_with(text: &str) -> Editor {
    let mut editor = Editor::default();
    let bytes = text.as_bytes().to_vec();
    assert!(editor.can_load_bytes(&bytes));
    editor.load_bytes(&bytes);
    editor
}

fn at(x: usize, y: usize) -> CursorState {
    CursorState { x, y, roff: 0, coff: 0 }
}

#[test]
fn editor_insert_byte() {
    let mut editor = Editor::default();
    let editor_cursor_x_before = editor.cursor.x;

    editor.insert_byte(b'X');
    editor.insert_byte(b'Y');
    editor.insert_byte(b'Z');

    assert_eq!(editor.cursor.x, editor_cursor_x_before + 3);
    assert_eq!(editor.rows.len(), 1);
    assert_eq!(editor.n_bytes, 3);
    assert_eq!(
        editor.rows[0].chars.iter().map(|uc| uc.0).collect::<Vec<u8>>(),
        [b'X', b'Y', b'Z']
    );
}

#[test]
fn editor_insert_new_line() {
    let mut editor = Editor::default();
    let editor_cursor_y_before = editor.cursor.y;

    for _ in 0..3 {
        editor.insert_new_line();
    }

    assert_eq!(editor.cursor.y, editor_cursor_y_before + 3);
    assert_eq!(editor.rows.len(), 3);
    assert_eq!(editor.n_bytes, 0);

    for row in &editor.rows {
        assert!(row.chars.is_empty());
    }
}

#[test]
fn editor_delete_char() {
    let mut editor = Editor::default();
    for b in "Hello!".as_bytes() {
        editor.insert_byte(*b);
    }
    editor.delete_char();
    assert_eq!(
        editor.rows[0].chars.iter().map(|uc| uc.0).collect::<Vec<u8>>(),
        "Hello".as_bytes()
    );
    editor.move_cursor(&AKey::Left);
    editor.move_cursor(&AKey::Left);
    editor.delete_char();
    assert_eq!(
        editor.rows[0].chars.iter().map(|uc| uc.0).collect::<Vec<u8>>(),
        "Helo".as_bytes()
    );
}

#[test]
fn bytes_and_new_lines_go_into_the_contents() {
    let mut editor = editor_with("one\ntwo");
    editor.cursor = at(1, 1);
    editor.insert_byte(b'!');
    assert_eq!(editor.contents(), b"one\nt!wo");
    assert_eq!(editor.cursor, at(2, 1));
    editor.insert_new_line();
    assert_eq!(editor.contents(), b"one\nt!\nwo");
    assert_eq!(editor.cursor, at(0, 2));
    assert_eq!(editor.n_bytes, 7);
    assert!(editor.dirty);
}

#[test]
fn backspace_takes_back_typing_and_enter() {
    let mut editor = editor_with("one\ntwo");
    for cursor in [at(0, 0), at(3, 0), at(0, 1), at(2, 1)] {
        editor.cursor = cursor;
        editor.insert_byte(b'x');
        editor.delete_char();
        assert_eq!(editor.contents(), b"one\ntwo");
        assert_eq!(editor.cursor, cursor);
        assert_eq!(editor.n_bytes, 6);
        let ids = char_ids(&editor);
        editor.dirty = false;
        editor.insert_new_line();
        editor.delete_char();
        assert_eq!(editor.contents(), b"one\ntwo");
        assert_eq!(editor.cursor, cursor);
        assert_eq!(char_ids(&editor), ids);
        assert_eq!(editor.n_bytes, 6);
        assert!(editor.dirty);
    }
}

#[test]
fn backspace_behind_the_last_row_goes_to_its_end() {
    let mut editor = editor_with("one");
    editor.cursor = at(0, 1);
    editor.delete_char();
    assert_eq!(editor.cursor, at(3, 0));
    assert_eq!(editor.contents(), b"one");
    assert!(!editor.dirty);
}

#[test]
fn backspace_at_the_beginning_does_nothing() {
    let mut editor = editor_with("one");
    editor.delete_char();
    assert_eq!(editor.contents(), b"one");
    assert_eq!(editor.cursor, at(0, 0));
    assert!(!editor.dirty);
}

#[test]
fn backspace_removes_all_bytes_of_a_character() {
    let mut editor = editor_with("a\u{e9}\u{20ac}\u{1f600}");
    editor.cursor = at(10, 0);
    for (rest, x) in [("a\u{e9}\u{20ac}", 6), ("a\u{e9}", 3), ("a", 1), ("", 0)] {
        editor.delete_char();
        assert_eq!(editor.contents(), rest.as_bytes());
        assert_eq!(editor.cursor.x, x);
        assert_eq!(editor.n_bytes, rest.len() as u64);
    }
}

#[test]
fn backspace_inside_the_first_character_goes_to_the_start() {
    let mut editor = editor_with("\u{e9}a");
    editor.cursor = at(1, 0);
    editor.delete_char();
    assert_eq!(editor.cursor, at(0, 0));
    assert_eq!(editor.contents(), "\u{e9}a".as_bytes());
}

#[test]
fn rows_are_merged() {
    let mut editor = editor_with("ab\ncd\nef");
    editor.cursor = at(0, 1);
    editor.delete_char();
    assert_eq!(lines(&editor), [b"abcd".to_vec(), b"ef".to_vec()]);
    assert_eq!(editor.cursor, at(2, 0));
    assert_eq!(editor.n_bytes, 6);
}

#[test]
fn deleting_a_row_removes_its_line() {
    let mut editor = editor_with("ab\ncd\nef");
    editor.cursor = at(1, 1);
    editor.delete_current_row();
    assert_eq!(lines(&editor), [b"ab".to_vec(), b"ef".to_vec()]);
    assert_eq!(editor.cursor, at(0, 1));
    assert_eq!(editor.n_bytes, 4);
    assert!(editor.dirty);
    editor.delete_current_row();
    assert_eq!(lines(&editor), [b"ab".to_vec(), b"".to_vec()]);
    assert_eq!(editor.cursor, at(0, 1));
    assert_eq!(editor.n_bytes, 2);
}

#[test]
fn deleting_behind_the_last_row_does_nothing() {
    let mut editor = editor_with("ab");
    editor.cursor = at(0, 1);
    editor.delete_current_row();
    assert_eq!(editor.contents(), b"ab");
    assert!(!editor.dirty);
}

#[test]
fn duplicating_a_row_inserts_its_line_again() {
    let mut editor = editor_with("ab\ncd");
    editor.cursor = at(1, 0);
    editor.duplicate_current_row();
    assert_eq!(lines(&editor), [b"ab".to_vec(), b"ab".to_vec(), b"cd".to_vec()]);
    assert_eq!(editor.cursor, at(1, 1));
    assert_eq!(editor.n_bytes, 6);
    assert!(editor.dirty);
    assert_ne!(editor.rows[0].uuid, editor.rows[1].uuid);
    assert_ne!(editor.rows[0].chars[0].1, editor.rows[1].chars[0].1);
}

#[test]
fn duplicating_behind_the_last_row_does_nothing() {
    let mut editor = editor_with("ab");
    editor.cursor = at(0, 1);
    editor.duplicate_current_row();
    assert_eq!(editor.contents(), b"ab");
}

#[test]
fn identifiers_are_new_ones() {
    let mut editor = Editor::default();
    editor.insert_byte(b'a');
    editor.insert_byte(b'a');
    let ids = [
        editor.rows[0].uuid.clone(),
        editor.rows[0].chars[0].1.clone(),
        editor.rows[0].chars[1].1.clone(),
    ];
    for id in &ids {
        let id: Vec<char> = id.chars().collect();
        assert_eq!(id.len(), 36);
        assert_eq!(id[14], '4');
        assert!(['8', '9', 'a', 'b'].contains(&id[19]));
        for i in 0..36 {
            if [8, 13, 18, 23].contains(&i) {
                assert_eq!(id[i], '-');
            } else {
                assert!(matches!(id[i], '0'..='9' | 'a'..='f'));
            }
        }
    }
    assert_ne!(ids[0], ids[1]);
    assert_ne!(ids[1], ids[2]);
}

#[test]
fn arrows_move_over_characters_and_rows() {
    let mut editor = editor_with("a\u{e9}b\nxyz");
    editor.move_cursor(&AKey::Right);
    assert_eq!(editor.cursor, at(1, 0));
    editor.move_cursor(&AKey::Right);
    assert_eq!(editor.cursor, at(3, 0));
    editor.move_cursor(&AKey::Down);
    assert_eq!(editor.cursor, at(3, 1));
    editor.move_cursor(&AKey::Right);
    assert_eq!(editor.cursor, at(0, 2));
    editor.move_cursor(&AKey::Right);
    editor.move_cursor(&AKey::Down);
    assert_eq!(editor.cursor, at(0, 2));
    editor.move_cursor(&AKey::Left);
    assert_eq!(editor.cursor, at(3, 1));
    editor.move_cursor(&AKey::Left);
    assert_eq!(editor.cursor, at(2, 1));
    editor.move_cursor(&AKey::Up);
    assert_eq!(editor.cursor, at(2, 0));
    editor.move_cursor(&AKey::Up);
    assert_eq!(editor.cursor, at(2, 0));
}

#[test]
fn left_at_the_start_of_the_text_does_nothing() {
    let mut editor = editor_with("a");
    editor.move_cursor(&AKey::Left);
    assert_eq!(editor.cursor, at(0, 0));
}

#[test]
fn left_takes_back_right_in_ascii() {
    let mut editor = editor_with("a\tb");
    for x in 0..3 {
        editor.cursor = at(x, 0);
        editor.move_cursor(&AKey::Right);
        assert!(editor.can_move(&AKey::Left));
        editor.move_cursor(&AKey::Left);
        assert_eq!(editor.cursor, at(x, 0));
    }
}

#[test]
fn left_takes_back_right_at_the_end_of_a_row() {
    let mut editor = editor_with("a\u{e9}\nb");
    for cursor in [at(3, 0), at(1, 1)] {
        editor.cursor = cursor;
        editor.move_cursor(&AKey::Right);
        assert_eq!(editor.cursor, at(0, cursor.y + 1));
        assert!(editor.can_move(&AKey::Left));
        editor.move_cursor(&AKey::Left);
        assert_eq!(editor.cursor, cursor);
    }
}

#[test]
fn left_goes_by_the_size_of_the_last_character() {
    let mut editor = editor_with("ab\u{e9}");
    editor.cursor = at(2, 0);
    editor.move_cursor(&AKey::Left);
    assert_eq!(editor.cursor, at(0, 0));
    editor.cursor = at(1, 0);
    assert!(!editor.can_move(&AKey::Left));
}

#[test]
fn shorter_rows_move_the_cursor_to_their_end() {
    let mut editor = editor_with("long\nab");
    editor.cursor = at(4, 0);
    editor.move_cursor(&AKey::Down);
    assert_eq!(editor.cursor, at(2, 1));
    editor.cursor = at(9, 1);
    editor.update_cursor_x_position();
    assert_eq!(editor.cursor, at(2, 1));
}

#[test]
fn columns_count_tabs_and_characters() {
    let mut editor = editor_with("\ta\u{e9}b");
    let columns: Vec<usize> = (0..6)
        .map(|x| {
            editor.cursor.x = x;
            editor.rx()
        })
        .collect();
    assert_eq!(columns, [0, 4, 5, 5, 6, 7]);
    editor.cursor = at(5, 1);
    assert_eq!(editor.rx(), 0);
}

#[test]
fn line_numbers_take_room_if_there_is_enough() {
    let mut editor = editor_with("ab");
    editor.set_window_size(24, 80);
    assert_eq!((editor.screen_rows, editor.ln_pad, editor.screen_cols), (22, 3, 77));
    editor.set_window_size(24, 15);
    assert_eq!((editor.ln_pad, editor.screen_cols), (0, 15));
    editor.set_window_size(24, 16);
    assert_eq!((editor.ln_pad, editor.screen_cols), (3, 13));
    editor.set_window_size(1, 0);
    assert_eq!((editor.screen_rows, editor.ln_pad, editor.screen_cols), (0, 0, 0));
    editor.set_window_size(24, 80);
    editor.cursor = at(0, 0);
    for _ in 0..9 {
        editor.insert_new_line();
    }
    assert_eq!(editor.rows.len(), 10);
    assert_eq!((editor.ln_pad, editor.screen_cols), (4, 76));
    let config = Config { show_line_num: false, ..Config::default() };
    assert_eq!(Editor::new(config, 24, 80).ln_pad, 0);
}

#[test]
fn comments_reach_over_rows() {
    let mut editor = editor_with("a\nb\nc*/\nd");
    editor.syntax = Conf {
        name: "C".to_string(),
        ml_comment_delims: Some((b"/*".to_vec(), b"*/".to_vec())),
    };
    editor.update_all_rows();
    editor.cursor = at(1, 0);
    editor.insert_byte(b'/');
    editor.insert_byte(b'*');
    let states: Vec<HlState> = editor.rows.iter().map(|row| row.hl_state).collect();
    let open = HlState::MultiLineComment;
    assert_eq!(states, [open, open, HlState::Normal, HlState::Normal]);
    editor.delete_char();
    assert!(editor.rows.iter().all(|row| row.hl_state == HlState::Normal));
}

#[test]
fn there_is_room_as_long_as_columns_can_be_counted() {
    let config = Config { tab_stop: usize::MAX / 33, ..Config::default() };
    let mut editor = Editor::new(config, 24, 80);
    assert!(editor.has_room(1, 1));
    assert!(!editor.has_room(2, 1));
    assert!(editor.can_insert_byte());
    editor.insert_byte(b'a');
    assert!(!editor.can_insert_byte());
    assert!(editor.can_insert_new_line());
}
