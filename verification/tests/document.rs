use kibi::config::Config;
use kibi::document::{read_rows, DocumentError};
use kibi::json::JsonObject;
use kibi::state::Editor;
use serde_json::Value;

fn editor_with(text: &str) -> Editor {
    let mut editor = Editor::default();
    editor.load_bytes(&text.as_bytes().to_vec());
    editor
}

fn document(text: &str) -> JsonObject {
    match serde_json::from_str(text) {
        Ok(Value::Object(data)) => data,
        _ => panic!("no JSON object"),
    }
}

fn ids(editor: &Editor) -> Vec<(String, Vec<String>)> {
    let chars = |row: &kibi::row::Row| row.chars.iter().map(|c| c.1.clone()).collect();
    editor.rows.iter().map(|row| (row.uuid.clone(), chars(row))).collect()
}

#[test]
fn the_document_of_a_text() {
    let mut editor = editor_with("A\u{e9}\n");
    editor.rows[0].uuid = "r0".to_string();
    editor.rows[1].uuid = "r1".to_string();
    for i in 0..3 {
        editor.rows[0].chars[i].1 = format!("c{}", i);
    }
    let expected = "{\"\u{394}rows\u{266d}\":[\
        {\"_id\":\"r0\",\"\u{394}c\u{266d}\":[{\"#\":\"65\",\"_id\":\"c0\"},\
        {\"#\":\"195\",\"_id\":\"c1\"},{\"#\":\"169\",\"_id\":\"c2\"}]},\
        {\"_id\":\"r1\",\"\u{394}c\u{266d}\":[]}]}";
    assert_eq!(editor.serialize(), document(expected));
    assert_eq!(Editor::default().serialize(), document("{\"\u{394}rows\u{266d}\":[]}"));
}

#[test]
fn reading_a_document_back() {
    for text in ["", "a", "one\ntwo\n\n\u{1f600}"] {
        let editor = editor_with(text);
        let mut copy = editor_with("something else");
        assert_eq!(copy.deserialize(Ok(editor.serialize())), Ok(editor.n_bytes));
        assert_eq!(copy.contents(), text.as_bytes());
        assert_eq!(copy.n_bytes, editor.n_bytes);
        assert_eq!(ids(&copy), ids(&editor));
    }
}

#[test]
fn a_reader_with_other_tab_stops() {
    let editor = editor_with("a\tb\n\u{e9}");
    let config = Config { tab_stop: 7, ..Config::default() };
    let mut reader = Editor::new(config, 24, 80);
    assert_eq!(reader.deserialize(Ok(editor.serialize())), Ok(5));
    assert_eq!(reader.contents(), editor.contents());
    assert_eq!(reader.n_bytes, 5);
    assert_eq!(ids(&reader), ids(&editor));
    assert_eq!(reader.rows[0].cx2rx, [0, 1, 7, 8]);
}

#[test]
fn a_document_that_cannot_be_read() {
    let mut editor = editor_with("a");
    assert_eq!(editor.deserialize(Err("no_root".to_string())), Ok(0));
    assert_eq!(editor.status_msg.as_ref().map(|sm| sm.msg.as_str()), Some("Error: no_root"));
    assert_eq!(editor.contents(), b"a");
}

#[test]
fn malformed_documents() {
    let rows = |rows: &str| format!("{{\"\u{394}rows\u{266d}\":{}}}", rows);
    let chars = |chars: &str| rows(&format!("[{{\"_id\":\"r\",\"\u{394}c\u{266d}\":{}}}]", chars));
    let malformed = [
        "{}".to_string(),
        rows("1"),
        rows("[1]"),
        rows("[{\"_id\":\"r\"}]"),
        rows("[{\"\u{394}c\u{266d}\":[]}]"),
        rows("[{\"_id\":1,\"\u{394}c\u{266d}\":[]}]"),
        chars("{}"),
        chars("[1]"),
        chars("[{\"#\":\"65\"}]"),
        chars("[{\"_id\":\"c\"}]"),
        chars("[{\"_id\":\"c\",\"#\":65}]"),
        chars("[{\"_id\":\"c\",\"#\":\"256\"}]"),
        chars("[{\"_id\":\"c\",\"#\":\"x\"}]"),
    ];
    for text in malformed {
        let mut editor = editor_with("a");
        assert!(read_rows(&document(&text)).is_none());
        assert_eq!(editor.deserialize(Ok(document(&text))), Err(DocumentError::Malformed));
        assert_eq!(editor.contents(), b"a");
    }
    let mut editor = editor_with("a");
    assert_eq!(editor.deserialize(Ok(document(&chars("[{\"_id\":\"c\",\"#\":\"65\"}]")))), Ok(1));
    assert_eq!(editor.contents(), b"A");
}

#[test]
fn a_document_that_is_too_large() {
    let data = editor_with("abc").serialize();
    let config = Config { tab_stop: usize::MAX / 34, ..Config::default() };
    let mut editor = Editor::new(config, 24, 80);
    assert_eq!(editor.deserialize(Ok(data)), Err(DocumentError::TooLarge));
    assert!(editor.rows.is_empty());
    assert_eq!(editor.deserialize(Ok(editor_with("ab").serialize())), Ok(2));
}
