//! The document that the replicas share: the text as a JSON object.
//!
//! The object has a list of rows. A row is an object with an identifier and a list of characters,
//! a character an object with an identifier and the decimal notation of its byte.
use vstd::prelude::*;
use vstd::string::*;

use crate::json::{
    as_list, as_object, as_text, get, insert, json_of, jsons, list_value, members, new_object,
    object_value, text_value, Json, JsonObject,
};
use crate::row::{char_views, fits, new_row, tab_width, CharView, Row, RowView, UuidChar};
use crate::rows::{lemma_row_fits, lemma_total_prefix};
use crate::state::{countable, laid_out, row_views, total_bytes, Editor, EditorView};
use crate::text::{decimal, decimal_string, lemma_decimal_round_trip, parse_unsigned, unsigned_value};

verus! {

/// The key of the list of rows. The last character of a key asks the replicas to keep the values
/// below it as objects of their own.
pub const ROWS_KEY: &'static str = "\u{0394}rows\u{266D}";

/// The key of the list of characters of a row.
pub const CHARS_KEY: &'static str = "\u{0394}c\u{266D}";

/// The key of an identifier.
pub const ID_KEY: &'static str = "_id";

/// The key of the byte of a character.
pub const BYTE_KEY: &'static str = "#";

pub open spec fn char_members(c: CharView) -> Map<Seq<char>, Json> {
    map![BYTE_KEY@ => Json::Text(decimal(c.byte as nat)), ID_KEY@ => Json::Text(c.id)]
}

pub open spec fn char_json(c: CharView) -> Json {
    Json::Object(char_members(c))
}

pub open spec fn char_jsons(chars: Seq<CharView>) -> Seq<Json> {
    Seq::new(chars.len(), |i: int| char_json(chars[i]))
}

pub open spec fn row_members(row: RowView) -> Map<Seq<char>, Json> {
    map![ID_KEY@ => Json::Text(row.uuid), CHARS_KEY@ => Json::List(char_jsons(row.chars))]
}

pub open spec fn row_jsons(rows: Seq<RowView>) -> Seq<Json> {
    Seq::new(rows.len(), |i: int| Json::Object(row_members(rows[i])))
}

/// The document of a text.
pub open spec fn document(rows: Seq<RowView>) -> Map<Seq<char>, Json> {
    map![ROWS_KEY@ => Json::List(row_jsons(rows))]
}

fn char_object(c: &UuidChar) -> (r: JsonObject)
    ensures
        members(r) == char_members(c@),
{
    let mut chardata = new_object();
    let _ = insert(&mut chardata, BYTE_KEY.to_string(), text_value(decimal_string(c.0 as u64)));
    let _ = insert(&mut chardata, ID_KEY.to_string(), text_value(c.1.clone()));
    assert(members(chardata) =~= char_members(c@));
    chardata
}

fn row_object(row: &Row) -> (r: JsonObject)
    ensures
        members(r) == row_members(row@),
{
    let mut rowdata = new_object();
    let _ = insert(&mut rowdata, ID_KEY.to_string(), text_value(row.uuid.clone()));
    let mut rowchars: Vec<serde_json::Value> = Vec::new();
    let mut i: usize = 0;
    while i < row.chars.len()
        invariant
            i <= row.chars@.len(),
            jsons(rowchars@) == char_jsons(row@.chars).take(i as int),
        decreases row.chars@.len() - i,
    {
        let ghost before = jsons(rowchars@);
        rowchars.push(object_value(char_object(&row.chars[i])));
        assert(jsons(rowchars@) =~= before.push(char_json(row.chars@[i as int]@)));
        i = i + 1;
        assert(jsons(rowchars@) =~= char_jsons(row@.chars).take(i as int));
    }
    assert(jsons(rowchars@) =~= char_jsons(row@.chars));
    let _ = insert(&mut rowdata, CHARS_KEY.to_string(), list_value(rowchars));
    assert(members(rowdata) =~= row_members(row@));
    rowdata
}

impl Editor {
    /// The document of the text.
    pub fn serialize(&self) -> (r: JsonObject)
        ensures
            members(r) == document(self@.rows),
    {
        let mut rows: Vec<serde_json::Value> = Vec::new();
        let mut i: usize = 0;
        while i < self.rows.len()
            invariant
                i <= self.rows@.len(),
                jsons(rows@) == row_jsons(self@.rows).take(i as int),
            decreases self.rows@.len() - i,
        {
            let ghost before = jsons(rows@);
            rows.push(object_value(row_object(&self.rows[i])));
            assert(jsons(rows@) =~= before.push(Json::Object(row_members(self.rows@[i as int]@))));
            i = i + 1;
            assert(jsons(rows@) =~= row_jsons(self@.rows).take(i as int));
        }
        assert(jsons(rows@) =~= row_jsons(self@.rows));
        let mut data = new_object();
        let _ = insert(&mut data, ROWS_KEY.to_string(), list_value(rows));
        assert(members(data) =~= document(self@.rows));
        data
    }
}

/// The text of a member.
pub open spec fn text_member(m: Map<Seq<char>, Json>, key: Seq<char>) -> Option<Seq<char>> {
    if m.contains_key(key) {
        match m[key] {
            Json::Text(text) => Some(text),
            _ => None,
        }
    } else {
        None
    }
}

/// The values of a member that is a list.
pub open spec fn list_member(m: Map<Seq<char>, Json>, key: Seq<char>) -> Option<Seq<Json>> {
    if m.contains_key(key) {
        match m[key] {
            Json::List(values) => Some(values),
            _ => None,
        }
    } else {
        None
    }
}

/// The character that a value stands for.
pub open spec fn char_in(value: Json) -> Option<CharView> {
    match value {
        Json::Object(m) => match (text_member(m, BYTE_KEY@), text_member(m, ID_KEY@)) {
            (Some(number), Some(id)) => match unsigned_value(number, u8::MAX as nat) {
                Ok(byte) => Some(CharView { byte: byte as u8, id }),
                Err(_) => None,
            },
            _ => None,
        },
        _ => None,
    }
}

/// The characters that a list stands for; each of its values must stand for one.
pub open spec fn chars_in(values: Seq<Json>) -> Option<Seq<CharView>>
    decreases values.len(),
{
    if values.len() == 0 {
        Some(Seq::empty())
    } else {
        match (chars_in(values.drop_last()), char_in(values.last())) {
            (Some(chars), Some(c)) => Some(chars.push(c)),
            _ => None,
        }
    }
}

/// The row that a value stands for.
pub open spec fn row_in(value: Json) -> Option<RowView> {
    match value {
        Json::Object(m) => match (text_member(m, ID_KEY@), list_member(m, CHARS_KEY@)) {
            (Some(id), Some(values)) => match chars_in(values) {
                Some(chars) => Some(new_row(id, chars)),
                None => None,
            },
            _ => None,
        },
        _ => None,
    }
}

/// The rows that a list stands for; each of its values must stand for one.
pub open spec fn rows_in(values: Seq<Json>) -> Option<Seq<RowView>>
    decreases values.len(),
{
    if values.len() == 0 {
        Some(Seq::empty())
    } else {
        match (rows_in(values.drop_last()), row_in(values.last())) {
            (Some(rows), Some(row)) => Some(rows.push(row)),
            _ => None,
        }
    }
}

/// The text that a document stands for.
pub open spec fn rows_of(data: Map<Seq<char>, Json>) -> Option<Seq<RowView>> {
    match list_member(data, ROWS_KEY@) {
        Some(values) => rows_in(values),
        None => None,
    }
}

proof fn lemma_chars_in(values: Seq<Json>, n: int)
    requires
        0 <= n <= values.len(),
        chars_in(values.take(n)) is None,
    ensures
        chars_in(values) is None,
    decreases values.len() - n,
{
    if n < values.len() {
        assert(values.take(n + 1).drop_last() == values.take(n));
        lemma_chars_in(values, n + 1);
    } else {
        assert(values.take(n) == values);
    }
}

proof fn lemma_rows_in(values: Seq<Json>, n: int)
    requires
        0 <= n <= values.len(),
        rows_in(values.take(n)) is None,
    ensures
        rows_in(values) is None,
    decreases values.len() - n,
{
    if n < values.len() {
        assert(values.take(n + 1).drop_last() == values.take(n));
        lemma_rows_in(values, n + 1);
    } else {
        assert(values.take(n) == values);
    }
}

fn get_text<'a>(m: &'a JsonObject, key: &str) -> (r: Option<&'a str>)
    ensures
        match r {
            Some(text) => text_member(members(*m), key@) == Some(text@),
            None => text_member(members(*m), key@) is None,
        },
{
    match get(m, key) {
        Some(value) => as_text(value),
        None => None,
    }
}

fn get_list<'a>(m: &'a JsonObject, key: &str) -> (r: Option<&'a Vec<serde_json::Value>>)
    ensures
        match r {
            Some(values) => list_member(members(*m), key@) == Some(jsons(values@)),
            None => list_member(members(*m), key@) is None,
        },
{
    match get(m, key) {
        Some(value) => as_list(value),
        None => None,
    }
}

/// The character that a value stands for.
fn read_char(value: &serde_json::Value) -> (r: Option<UuidChar>)
    ensures
        match r {
            Some(c) => char_in(json_of(*value)) == Some(c@),
            None => char_in(json_of(*value)) is None,
        },
{
    let chardata = match as_object(value) {
        Some(m) => m,
        None => {
            return None;
        },
    };
    match (get_text(chardata, BYTE_KEY), get_text(chardata, ID_KEY)) {
        (Some(number), Some(id)) => match parse_unsigned(number, 255) {
            Ok(byte) => Some(UuidChar(byte as u8, id.to_string())),
            Err(_) => None,
        },
        _ => None,
    }
}

/// The characters that a list stands for.
fn read_chars(values: &Vec<serde_json::Value>) -> (r: Option<Vec<UuidChar>>)
    ensures
        match r {
            Some(chars) => chars_in(jsons(values@)) == Some(char_views(chars@)),
            None => chars_in(jsons(values@)) is None,
        },
{
    let ghost all = jsons(values@);
    let mut chars: Vec<UuidChar> = Vec::new();
    let mut i: usize = 0;
    assert(char_views(chars@) =~= Seq::<CharView>::empty());
    while i < values.len()
        invariant
            i <= values@.len(),
            all == jsons(values@),
            chars_in(all.take(i as int)) == Some(char_views(chars@)),
        decreases values@.len() - i,
    {
        proof {
            assert(all.take(i + 1).drop_last() == all.take(i as int));
            assert(all.take(i + 1).last() == json_of(values@[i as int]));
        }
        let ghost before = char_views(chars@);
        match read_char(&values[i]) {
            Some(c) => {
                chars.push(c);
                assert(char_views(chars@) =~= before.push(c@));
            },
            None => {
                proof {
                    lemma_chars_in(all, i + 1);
                }
                return None;
            },
        }
        i = i + 1;
    }
    assert(all.take(i as int) == all);
    Some(chars)
}

/// The identifier and the characters of a row.
pub type RowData = (String, Vec<UuidChar>);

pub open spec fn row_data_views(rows: Seq<RowData>) -> Seq<RowView> {
    Seq::new(rows.len(), |i: int| new_row(rows[i].0@, char_views(rows[i].1@)))
}

/// The row that a value stands for.
fn read_row(value: &serde_json::Value) -> (r: Option<RowData>)
    ensures
        match r {
            Some(row) => row_in(json_of(*value)) == Some(new_row(row.0@, char_views(row.1@))),
            None => row_in(json_of(*value)) is None,
        },
{
    let row = match as_object(value) {
        Some(m) => m,
        None => {
            return None;
        },
    };
    match (get_text(row, ID_KEY), get_list(row, CHARS_KEY)) {
        (Some(rid), Some(rowchars)) => match read_chars(rowchars) {
            Some(chars) => Some((rid.to_string(), chars)),
            None => None,
        },
        _ => None,
    }
}

/// The rows that a document stands for, `None` if it stands for no text.
pub fn read_rows(data: &JsonObject) -> (r: Option<Vec<RowData>>)
    ensures
        match r {
            Some(rows) => rows_of(members(*data)) == Some(row_data_views(rows@)),
            None => rows_of(members(*data)) is None,
        },
{
    let values = match get_list(data, ROWS_KEY) {
        Some(values) => values,
        None => {
            return None;
        },
    };
    let ghost all = jsons(values@);
    let mut rows: Vec<RowData> = Vec::new();
    let mut i: usize = 0;
    assert(row_data_views(rows@) =~= Seq::<RowView>::empty());
    while i < values.len()
        invariant
            i <= values@.len(),
            all == jsons(values@),
            list_member(members(*data), ROWS_KEY@) == Some(all),
            rows_in(all.take(i as int)) == Some(row_data_views(rows@)),
        decreases values@.len() - i,
    {
        proof {
            assert(all.take(i + 1).drop_last() == all.take(i as int));
            assert(all.take(i + 1).last() == json_of(values@[i as int]));
        }
        let ghost before = row_data_views(rows@);
        match read_row(&values[i]) {
            Some(row) => {
                rows.push(row);
                assert(row_data_views(rows@) =~= before.push(
                    new_row(row.0@, char_views(row.1@)),
                ));
            },
            None => {
                proof {
                    lemma_rows_in(all, i + 1);
                }
                return None;
            },
        }
        i = i + 1;
    }
    assert(all.take(i as int) == all);
    Some(rows)
}

/// Why a document cannot be shown.
#[derive(Clone, Copy, PartialEq, Eq, Structural, Debug)]
pub enum DocumentError {
    /// It stands for no text.
    Malformed,
    /// Its columns cannot be counted.
    TooLarge,
}

impl EditorView {
    /// The text was replaced by the given rows.
    pub open spec fn rows_loaded(self, rows: Seq<RowView>) -> EditorView {
        EditorView {
            n_bytes: total_bytes(rows) as u64,
            ..self.with_rows(rows).all_rows_updated().screen_cols_updated()
        }
    }

    /// The state after a document was read, and the number of its characters.
    pub open spec fn deserialized(self, read: Result<Map<Seq<char>, Json>, Seq<char>>) -> (
        EditorView,
        Result<nat, DocumentError>,
    ) {
        match read {
            Ok(data) => match rows_of(data) {
                Some(rows) => if countable(total_bytes(rows), rows.len(), self.tab()) {
                    (self.rows_loaded(rows), Ok(total_bytes(rows)))
                } else {
                    (self, Err(DocumentError::TooLarge))
                },
                None => (self, Err(DocumentError::Malformed)),
            },
            Err(e) => (self.with_status("Error: "@ + e), Ok(0)),
        }
    }
}

/// What was read of a document.
pub open spec fn read_view(read: Result<JsonObject, String>) -> Result<
    Map<Seq<char>, Json>,
    Seq<char>,
> {
    match read {
        Ok(data) => Ok(members(data)),
        Err(e) => Err(e@),
    }
}

/// The number of bytes of the rows, if the columns and the rows can be counted.
fn count_bytes(rows: &Vec<RowData>, tab: usize) -> (r: Option<u64>)
    ensures
        match r {
            Some(n) => n == total_bytes(row_data_views(rows@)) && countable(
                total_bytes(row_data_views(rows@)),
                rows@.len(),
                tab as nat,
            ),
            None => !countable(total_bytes(row_data_views(rows@)), rows@.len(), tab as nat),
        },
{
    let ghost views = row_data_views(rows@);
    let ghost t = tab_width(tab as nat);
    let width: usize = if tab == 0 { 1 } else { tab };
    let limit: usize = usize::MAX / width;
    let n = rows.len();
    let mut total: usize = 0;
    let mut i: usize = 0;
    assert(forall|b: nat| #[trigger] fits(b, tab as nat) <==> b + 32 <= limit) by {
        assert forall|b: nat| #[trigger] fits(b, tab as nat) <==> b + 32 <= limit by {
            assert((b + 32) * t <= usize::MAX <==> b + 32 <= limit) by (nonlinear_arith)
                requires
                    t == width,
                    t >= 1,
                    limit == usize::MAX / width,
            ;
        }
    }
    while i < n
        invariant
            n == rows@.len(),
            i <= n,
            views == row_data_views(rows@),
            total == total_bytes(views.take(i as int)),
            limit <= usize::MAX,
            forall|b: nat| #[trigger] fits(b, tab as nat) <==> b + 32 <= limit,
        decreases n - i,
    {
        let len = rows[i].1.len();
        proof {
            assert(views.take(i + 1).drop_last() == views.take(i as int));
            assert(views.take(i + 1).last().chars.len() == len);
        }
        if len > limit || total > limit - len {
            proof {
                lemma_total_prefix(views, i + 1);
            }
            return None;
        }
        total = total + len;
        i = i + 1;
    }
    assert(views.take(i as int) == views);
    if limit >= 32 && total <= limit - 32 && n <= usize::MAX - 32 {
        Some(total as u64)
    } else {
        None
    }
}

/// The rows with their tables.
fn build_rows(rows: Vec<RowData>, tab: usize) -> (r: Vec<Row>)
    requires
        fits(total_bytes(row_data_views(rows@)), tab as nat),
    ensures
        row_views(r@) == row_data_views(rows@),
        laid_out(r@, tab as nat),
{
    let ghost all = rows@;
    let ghost views = row_data_views(rows@);
    let mut r: Vec<Row> = Vec::new();
    assert(row_views(r@) =~= views.take(0));
    for row_data in it: rows
        invariant
            it.seq() == all,
            views == row_data_views(all),
            r@.len() == it.index(),
            row_views(r@) == views.take(it.index() as int),
            laid_out(r@, tab as nat),
            fits(total_bytes(views), tab as nat),
    {
        let ghost n = r@.len() as int;
        let (id, chars) = row_data;
        proof {
            assert(id@ == all[n].0@ && chars@ == all[n].1@);
            lemma_row_fits(views, n, total_bytes(views), tab as nat);
        }
        let row = Row::new(chars, Some(id), tab);
        let ghost before = row_views(r@);
        r.push(row);
        proof {
            assert(row_views(r@) =~= before.push(row@));
            assert(row@ == views[n]);
            assert(row_views(r@) =~= views.take(n + 1));
        }
    }
    assert(row_views(r@) =~= views);
    r
}

impl Editor {
    /// Replace the text by the rows.
    pub(crate) fn load_rows(&mut self, rows: Vec<Row>, n_bytes: u64)
        requires
            laid_out(rows@, old(self)@.tab()),
            n_bytes == total_bytes(row_views(rows@)),
            countable(total_bytes(row_views(rows@)), rows@.len(), old(self)@.tab()),
        ensures
            final(self).wf(),
            final(self)@ == old(self)@.rows_loaded(row_views(rows@)),
    {
        self.rows = rows;
        self.n_bytes = n_bytes;
        let ghost s = self@;
        self.update_all_rows();
        // The number of rows has changed. The left padding may need to be updated.
        self.update_screen_cols();
        assert(self@ == old(self)@.rows_loaded(s.rows));
    }

    /// Replace the text by that of a document, or show why none was read. Returns the number of
    /// characters that were read.
    pub fn deserialize(&mut self, read: Result<JsonObject, String>) -> (r: Result<
        u64,
        DocumentError,
    >)
        requires
            old(self).wf(),
        ensures
            final(self).wf(),
            final(self)@ == old(self)@.deserialized(read_view(read)).0,
            match r {
                Ok(n) => old(self)@.deserialized(read_view(read)).1 == Ok::<nat, DocumentError>(
                    n as nat,
                ),
                Err(e) => old(self)@.deserialized(read_view(read)).1 == Err::<nat, DocumentError>(
                    e,
                ),
            },
    {
        match read {
            Ok(data) => match read_rows(&data) {
                Some(rows) => {
                    let ghost views = row_data_views(rows@);
                    assert(views.len() == rows@.len());
                    match count_bytes(&rows, self.config.tab_stop) {
                        Some(total) => {
                            let built = build_rows(rows, self.config.tab_stop);
                            assert(built@.len() == row_views(built@).len());
                            self.load_rows(built, total);
                            Ok(total)
                        },
                        None => Err(DocumentError::TooLarge),
                    }
                },
                None => Err(DocumentError::Malformed),
            },
            Err(e) => {
                let mut msg = "Error: ".to_string();
                msg.append(e.as_str());
                self.set_status(msg);
                Ok(0)
            },
        }
    }
}

/// Rows as they are made of a document: not yet highlighted, nothing matched.
pub open spec fn plain_rows(rows: Seq<RowView>) -> Seq<RowView> {
    Seq::new(rows.len(), |i: int| new_row(rows[i].uuid, rows[i].chars))
}

proof fn lemma_keys()
    ensures
        BYTE_KEY@ != ID_KEY@,
        ID_KEY@ != CHARS_KEY@,
{
    reveal_strlit("#");
    reveal_strlit("_id");
    reveal_strlit("\u{0394}c\u{266D}");
    assert(BYTE_KEY@.len() != ID_KEY@.len());
    assert(ID_KEY@[0] != CHARS_KEY@[0]);
}

proof fn lemma_char_round_trip(c: CharView)
    ensures
        char_in(char_json(c)) == Some(c),
{
    lemma_keys();
    lemma_decimal_round_trip(c.byte as nat, u8::MAX as nat);
}

proof fn lemma_chars_round_trip(chars: Seq<CharView>)
    ensures
        chars_in(char_jsons(chars)) == Some(chars),
    decreases chars.len(),
{
    if chars.len() > 0 {
        assert(char_jsons(chars).drop_last() == char_jsons(chars.drop_last()));
        lemma_chars_round_trip(chars.drop_last());
        lemma_char_round_trip(chars.last());
        assert(chars.drop_last().push(chars.last()) == chars);
    } else {
        assert(chars == Seq::<CharView>::empty());
    }
}

proof fn lemma_rows_round_trip(rows: Seq<RowView>)
    ensures
        rows_in(row_jsons(rows)) == Some(plain_rows(rows)),
    decreases rows.len(),
{
    if rows.len() > 0 {
        assert(row_jsons(rows).drop_last() == row_jsons(rows.drop_last()));
        lemma_rows_round_trip(rows.drop_last());
        lemma_keys();
        lemma_chars_round_trip(rows.last().chars);
        assert(plain_rows(rows.drop_last()).push(
            new_row(rows.last().uuid, rows.last().chars),
        ) == plain_rows(rows));
    } else {
        assert(plain_rows(rows) == Seq::<RowView>::empty());
    }
}

/// Reading the document of a text gives back its rows, with the same bytes under the same
/// identifiers.
pub proof fn law_document_round_trip(rows: Seq<RowView>)
    ensures
        rows_of(document(rows)) == Some(plain_rows(rows)),
{
    lemma_rows_round_trip(rows);
}

} // verus!
