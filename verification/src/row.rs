//! A row of text: its characters, and where they stand on the screen.
//!
//! A row holds bytes. A well-formed UTF-8 sequence is one character; a byte that begins none is
//! a character of its own. A character takes one column on the screen, a tab as many as lead to
//! the next tab stop.
use vstd::prelude::*;
use vstd::utf8::{decode_first_scalar, is_scalar, length_of_first_scalar, valid_first_scalar};

use crate::ansi_escape::{RESET_FMT, REVERSE_VIDEO};
use crate::syntax::{Conf, HlState};

verus! {

/// `char::from_u32`: the character with that code, if the number is a Unicode scalar value.
pub assume_specification[ char::from_u32 ](i: u32) -> (r: Option<char>)
    ensures
        r == if is_scalar(i) {
            Some(i as char)
        } else {
            None
        },
;

/// A hexadecimal digit.
pub open spec fn is_hex_digit(c: char) -> bool {
    '0' <= c <= '9' || 'a' <= c <= 'f'
}

/// The text of a UUID of version 4: 32 hexadecimal digits in groups of 8, 4, 4, 4 and 12, of which
/// the third begins with the version and the fourth with the variant.
pub open spec fn is_new_id(id: Seq<char>) -> bool {
    &&& id.len() == 36
    &&& id[8] == '-' && id[13] == '-' && id[18] == '-' && id[23] == '-'
    &&& id[14] == '4'
    &&& '8' <= id[19] <= '9' || 'a' <= id[19] <= 'b'
    &&& forall|i: int|
        0 <= i < 36 && i != 8 && i != 13 && i != 18 && i != 23 ==> is_hex_digit(#[trigger] id[i])
}

/// All the characters have new identifiers.
pub open spec fn have_new_ids(chars: Seq<CharView>) -> bool {
    forall|i: int| 0 <= i < chars.len() ==> is_new_id((#[trigger] chars[i]).id)
}

/// There is a text of the form that new identifiers have.
pub proof fn lemma_new_id() -> (id: Seq<char>)
    ensures
        is_new_id(id),
{
    Seq::new(
        36,
        |i: int|
            if i == 8 || i == 13 || i == 18 || i == 23 {
                '-'
            } else if i == 14 {
                '4'
            } else {
                '8'
            },
    )
}

/// `uuid::Uuid::new_v4`, written as text: an identifier made of random bits, which the system has
/// to give. That it differs from others is a matter of chance, and not claimed.
#[verifier::external_body]
fn fresh_id() -> (r: String)
    ensures
        is_new_id(r@),
{
    uuid::Uuid::new_v4().to_string()
}

/// A byte of a row with the identifier under which the replicas know it.
pub struct UuidChar(pub u8, pub String);

pub struct CharView {
    pub byte: u8,
    pub id: Seq<char>,
}

impl View for UuidChar {
    type V = CharView;

    open spec fn view(&self) -> CharView {
        CharView { byte: self.0, id: self.1@ }
    }
}

impl UuidChar {
    /// A byte with the given identifier, or with a new one.
    pub fn new(c: u8, uuid: Option<String>) -> (r: UuidChar)
        ensures
            r@.byte == c,
            match uuid {
                Some(id) => r@.id == id@,
                None => is_new_id(r@.id),
            },
    {
        match uuid {
            Some(id) => UuidChar(c, id),
            None => UuidChar(c, fresh_id()),
        }
    }
}

pub open spec fn char_views(chars: Seq<UuidChar>) -> Seq<CharView> {
    Seq::new(chars.len(), |i: int| chars[i]@)
}

/// The bytes of a sequence of characters with identifiers.
pub open spec fn bytes_of(chars: Seq<CharView>) -> Seq<u8> {
    Seq::new(chars.len(), |i: int| chars[i].byte)
}

/// The number of bytes of the character that `bytes` begins with.
pub open spec fn glyph_len(bytes: Seq<u8>) -> nat {
    if valid_first_scalar(bytes) {
        length_of_first_scalar(bytes) as nat
    } else {
        1
    }
}

/// The character that `bytes` begins with.
pub open spec fn glyph(bytes: Seq<u8>) -> char {
    if valid_first_scalar(bytes) {
        decode_first_scalar(bytes) as char
    } else {
        '\u{fffd}'
    }
}

/// The distance of the tab stops; without tab stops a tab takes one column.
pub open spec fn tab_width(tab: nat) -> nat {
    if tab == 0 {
        1
    } else {
        tab
    }
}

/// The number of columns that `c` takes at column `rx`.
pub open spec fn columns(c: char, rx: nat, tab: nat) -> nat {
    if c == '\t' {
        (tab_width(tab) - rx % tab_width(tab)) as nat
    } else {
        1
    }
}

pub proof fn lemma_glyph_len(bytes: Seq<u8>)
    requires
        bytes.len() > 0,
    ensures
        1 <= glyph_len(bytes) <= bytes.len(),
{
}

pub proof fn lemma_columns(c: char, rx: nat, tab: nat)
    ensures
        1 <= columns(c, rx, tab) <= tab_width(tab),
{
    assert(0 <= rx % tab_width(tab) < tab_width(tab)) by (nonlinear_arith)
        requires
            tab_width(tab) > 0,
    ;
}

pub open spec fn copies<T>(v: T, n: nat) -> Seq<T> {
    Seq::new(n, |i: int| v)
}

/// For each byte from `cx` on, and for the end of the row, the column of its character, if the
/// character at `cx` stands in column `rx`.
pub open spec fn cx2rx_from(bytes: Seq<u8>, cx: nat, rx: nat, tab: nat) -> Seq<nat>
    decreases bytes.len() - cx,
{
    if cx >= bytes.len() {
        seq![rx]
    } else {
        let rest = bytes.skip(cx as int);
        let n = glyph_len(rest);
        proof {
            lemma_glyph_len(rest);
        }
        copies(rx, n) + cx2rx_from(bytes, cx + n, rx + columns(glyph(rest), rx, tab), tab)
    }
}

/// For each column from `rx` on, and for the end of the row, the first byte of its character, if
/// the character at `cx` stands in column `rx`.
pub open spec fn rx2cx_from(bytes: Seq<u8>, cx: nat, rx: nat, tab: nat) -> Seq<nat>
    decreases bytes.len() - cx,
{
    if cx >= bytes.len() {
        seq![cx]
    } else {
        let rest = bytes.skip(cx as int);
        let n = glyph_len(rest);
        let w = columns(glyph(rest), rx, tab);
        proof {
            lemma_glyph_len(rest);
        }
        copies(cx, w) + rx2cx_from(bytes, cx + n, rx + w, tab)
    }
}

/// What is shown in each column from `rx` on, if the character at `cx` stands in column `rx`: a
/// tab is shown as spaces.
pub open spec fn render_from(bytes: Seq<u8>, cx: nat, rx: nat, tab: nat) -> Seq<char>
    decreases bytes.len() - cx,
{
    if cx >= bytes.len() {
        seq![]
    } else {
        let rest = bytes.skip(cx as int);
        let n = glyph_len(rest);
        let w = columns(glyph(rest), rx, tab);
        proof {
            lemma_glyph_len(rest);
        }
        copies(if glyph(rest) == '\t' { ' ' } else { glyph(rest) }, w) + render_from(
            bytes,
            cx + n,
            rx + w,
            tab,
        )
    }
}

/// The number of bytes of the character shown in column `col`, if the character at `cx` stands
/// in column `rx`; 1 behind the end of the row.
pub open spec fn char_size_from(bytes: Seq<u8>, cx: nat, rx: nat, tab: nat, col: nat) -> nat
    decreases bytes.len() - cx,
{
    if cx >= bytes.len() {
        1
    } else {
        let rest = bytes.skip(cx as int);
        let n = glyph_len(rest);
        let w = columns(glyph(rest), rx, tab);
        proof {
            lemma_glyph_len(rest);
        }
        if col < rx + w {
            n
        } else {
            char_size_from(bytes, cx + n, rx + w, tab, col)
        }
    }
}

/// The mapping from the bytes of a row to columns.
pub open spec fn cx2rx(bytes: Seq<u8>, tab: nat) -> Seq<nat> {
    cx2rx_from(bytes, 0, 0, tab)
}

/// The mapping from the columns of a row to bytes.
pub open spec fn rx2cx(bytes: Seq<u8>, tab: nat) -> Seq<nat> {
    rx2cx_from(bytes, 0, 0, tab)
}

/// A row as it is shown.
pub open spec fn render(bytes: Seq<u8>, tab: nat) -> Seq<char> {
    render_from(bytes, 0, 0, tab)
}

/// The number of bytes of the character shown in column `col`.
pub open spec fn char_size(bytes: Seq<u8>, tab: nat, col: nat) -> nat {
    char_size_from(bytes, 0, 0, tab, col)
}

/// The number of columns of a row.
pub open spec fn width(bytes: Seq<u8>, tab: nat) -> nat {
    cx2rx(bytes, tab).last()
}

/// The columns of a row of `n` bytes, and some more, can be counted.
pub open spec fn fits(n: nat, tab: nat) -> bool {
    (n + 32) * tab_width(tab) <= usize::MAX
}

pub open spec fn nats(s: Seq<usize>) -> Seq<nat> {
    Seq::new(s.len(), |i: int| s[i] as nat)
}

/// Represents a row of characters and how it is rendered.
pub struct Row {
    /// The identifier under which the replicas know the row.
    pub uuid: String,
    /// The characters of the row.
    pub chars: Vec<UuidChar>,
    /// What is shown in each column.
    pub render: Vec<char>,
    /// Mapping from indices in `chars` to the corresponding indices in `render`.
    pub cx2rx: Vec<usize>,
    /// Mapping from indices in `render` to the corresponding indices in `chars`.
    pub rx2cx: Vec<usize>,
    /// The highlight state at the end of the row.
    pub hl_state: HlState,
    /// If not `None`, the range that is currently matched during a FIND operation.
    pub match_segment: Option<std::ops::Range<usize>>,
}

pub struct RowView {
    pub uuid: Seq<char>,
    pub chars: Seq<CharView>,
    pub hl_state: HlState,
    pub match_segment: Option<std::ops::Range<usize>>,
}

impl RowView {
    pub open spec fn bytes(self) -> Seq<u8> {
        bytes_of(self.chars)
    }

    pub open spec fn with_state(self, hl_state: HlState) -> RowView {
        RowView { hl_state, ..self }
    }

    pub open spec fn with_chars(self, chars: Seq<CharView>) -> RowView {
        RowView { chars, ..self }
    }

    pub open spec fn with_match(self, match_segment: Option<std::ops::Range<usize>>) -> RowView {
        RowView { match_segment, ..self }
    }
}

/// A row as it is made: in the normal state, nothing matched.
pub open spec fn new_row(uuid: Seq<char>, chars: Seq<CharView>) -> RowView {
    RowView { uuid, chars, hl_state: HlState::Normal, match_segment: None }
}

impl View for Row {
    type V = RowView;

    open spec fn view(&self) -> RowView {
        RowView {
            uuid: self.uuid@,
            chars: char_views(self.chars@),
            hl_state: self.hl_state,
            match_segment: self.match_segment,
        }
    }
}

impl Row {
    /// The tables belong to the characters.
    pub open spec fn laid_out(self, tab: nat) -> bool {
        &&& nats(self.cx2rx@) == cx2rx(self@.bytes(), tab)
        &&& nats(self.rx2cx@) == rx2cx(self@.bytes(), tab)
        &&& self.render@ == render(self@.bytes(), tab)
    }
}

/// The lengths of the tables, and the bounds of their entries.
pub proof fn lemma_tables_from(bytes: Seq<u8>, cx: nat, rx: nat, tab: nat)
    requires
        cx <= bytes.len(),
    ensures
        cx2rx_from(bytes, cx, rx, tab).len() == bytes.len() - cx + 1,
        cx2rx_from(bytes, cx, rx, tab).last() >= rx,
        cx < bytes.len() ==> cx2rx_from(bytes, cx, rx, tab).last() > rx,
        rx2cx_from(bytes, cx, rx, tab).len() == cx2rx_from(bytes, cx, rx, tab).last() - rx + 1,
        rx2cx_from(bytes, cx, rx, tab).last() == bytes.len(),
        rx2cx_from(bytes, cx, rx, tab)[0] == cx,
        render_from(bytes, cx, rx, tab).len() == cx2rx_from(bytes, cx, rx, tab).last() - rx,
        forall|i: int|
            0 <= i < cx2rx_from(bytes, cx, rx, tab).len() ==> rx <= #[trigger] cx2rx_from(
                bytes,
                cx,
                rx,
                tab,
            )[i] <= cx2rx_from(bytes, cx, rx, tab).last(),
        forall|i: int|
            0 <= i < bytes.len() - cx ==> #[trigger] cx2rx_from(bytes, cx, rx, tab)[i]
                < cx2rx_from(bytes, cx, rx, tab).last(),
        forall|i: int|
            0 <= i < rx2cx_from(bytes, cx, rx, tab).len() ==> cx <= #[trigger] rx2cx_from(
                bytes,
                cx,
                rx,
                tab,
            )[i] <= bytes.len(),
    decreases bytes.len() - cx,
{
    if cx < bytes.len() {
        let rest = bytes.skip(cx as int);
        let n = glyph_len(rest);
        let w = columns(glyph(rest), rx, tab);
        lemma_glyph_len(rest);
        lemma_columns(glyph(rest), rx, tab);
        lemma_tables_from(bytes, cx + n, rx + w, tab);
        let c = cx2rx_from(bytes, cx, rx, tab);
        let c1 = cx2rx_from(bytes, cx + n, rx + w, tab);
        let r = rx2cx_from(bytes, cx, rx, tab);
        let r1 = rx2cx_from(bytes, cx + n, rx + w, tab);
        assert(c == copies(rx, n) + c1);
        assert(r == copies(cx, w) + r1);
        assert(c.last() == c1.last());
        assert(r.last() == r1.last());
        assert forall|i: int| 0 <= i < c.len() implies rx <= #[trigger] c[i] <= c.last() && (i
            < bytes.len() - cx ==> c[i] < c.last()) by {
            if i >= n {
                assert(c[i] == c1[i - n]);
            }
        }
        assert forall|i: int| 0 <= i < r.len() implies cx <= #[trigger] r[i] <= bytes.len() by {
            if i >= w {
                assert(r[i] == r1[i - w]);
            }
        }
    }
}

/// The tables of a row: one column per byte and one for the end, one byte per column and one for
/// the end.
pub proof fn lemma_tables(bytes: Seq<u8>, tab: nat)
    ensures
        cx2rx(bytes, tab).len() == bytes.len() + 1,
        rx2cx(bytes, tab).len() == width(bytes, tab) + 1,
        render(bytes, tab).len() == width(bytes, tab),
        bytes.len() > 0 ==> width(bytes, tab) > 0,
        forall|i: int|
            0 <= i <= bytes.len() ==> #[trigger] cx2rx(bytes, tab)[i] <= width(bytes, tab),
        forall|i: int|
            0 <= i < bytes.len() ==> #[trigger] cx2rx(bytes, tab)[i] < width(bytes, tab),
        forall|i: int|
            0 <= i <= width(bytes, tab) ==> #[trigger] rx2cx(bytes, tab)[i] <= bytes.len(),
{
    lemma_tables_from(bytes, 0, 0, tab);
}

proof fn lemma_width_from(bytes: Seq<u8>, cx: nat, rx: nat, tab: nat)
    requires
        cx <= bytes.len(),
        rx <= cx * tab_width(tab),
    ensures
        cx2rx_from(bytes, cx, rx, tab).last() <= bytes.len() * tab_width(tab),
    decreases bytes.len() - cx,
{
    if cx < bytes.len() {
        let rest = bytes.skip(cx as int);
        let n = glyph_len(rest);
        let w = columns(glyph(rest), rx, tab);
        lemma_glyph_len(rest);
        lemma_columns(glyph(rest), rx, tab);
        lemma_advance(cx, n, rx, w, tab_width(tab));
        lemma_width_from(bytes, cx + n, rx + w, tab);
        lemma_tables_from(bytes, cx + n, rx + w, tab);
        assert(cx2rx_from(bytes, cx, rx, tab).last() == cx2rx_from(bytes, cx + n, rx + w, tab).last());
    }
}

/// A row is at most as wide as if it held only tabs.
pub proof fn lemma_width(bytes: Seq<u8>, tab: nat)
    ensures
        width(bytes, tab) <= bytes.len() * tab_width(tab),
{
    lemma_width_from(bytes, 0, 0, tab);
}

proof fn lemma_column_from(bytes: Seq<u8>, cx: nat, rx: nat, tab: nat, x: nat)
    requires
        cx <= x <= bytes.len(),
        rx <= cx * tab_width(tab),
    ensures
        cx2rx_from(bytes, cx, rx, tab)[x - cx] <= x * tab_width(tab),
    decreases bytes.len() - cx,
{
    lemma_tables_from(bytes, cx, rx, tab);
    if cx < bytes.len() {
        let rest = bytes.skip(cx as int);
        let n = glyph_len(rest);
        let w = columns(glyph(rest), rx, tab);
        lemma_glyph_len(rest);
        lemma_columns(glyph(rest), rx, tab);
        lemma_advance(cx, n, rx, w, tab_width(tab));
        if x >= cx + n {
            lemma_column_from(bytes, cx + n, rx + w, tab, x);
        } else {
            assert(cx2rx_from(bytes, cx, rx, tab)[x - cx] == rx);
            assert(cx * tab_width(tab) <= x * tab_width(tab)) by (nonlinear_arith)
                requires
                    cx <= x,
            ;
        }
    }
}

/// A byte stands no further to the right than if only tabs stood before it.
pub proof fn lemma_column(bytes: Seq<u8>, tab: nat, x: nat)
    requires
        x <= bytes.len(),
    ensures
        cx2rx(bytes, tab)[x as int] <= x * tab_width(tab),
{
    lemma_column_from(bytes, 0, 0, tab, x);
}

proof fn lemma_advance(cx: nat, n: nat, rx: nat, w: nat, t: nat)
    requires
        rx <= cx * t,
        w <= t,
        n >= 1,
    ensures
        rx + w <= (cx + n) * t,
{
    assert(rx + w <= (cx + n) * t) by (nonlinear_arith)
        requires
            rx <= cx * t,
            w <= t,
            n >= 1,
    ;
}

/// The character before the one at `x` does not begin before the row does.
proof fn lemma_char_before_from(bytes: Seq<u8>, cx: nat, rx: nat, tab: nat, x: nat)
    requires
        cx <= x <= bytes.len(),
    ensures
        ({
            let c = cx2rx_from(bytes, cx, rx, tab)[x - cx];
            c >= rx && (c > rx ==> 1 <= char_size_from(bytes, cx, rx, tab, (c - 1) as nat) <= x
                - cx)
        }),
    decreases bytes.len() - cx,
{
    lemma_tables_from(bytes, cx, rx, tab);
    if cx < bytes.len() {
        let rest = bytes.skip(cx as int);
        let n = glyph_len(rest);
        let w = columns(glyph(rest), rx, tab);
        lemma_glyph_len(rest);
        lemma_columns(glyph(rest), rx, tab);
        lemma_tables_from(bytes, cx + n, rx + w, tab);
        assert(cx2rx_from(bytes, cx, rx, tab) == copies(rx, n) + cx2rx_from(
            bytes,
            cx + n,
            rx + w,
            tab,
        ));
        if x >= cx + n {
            lemma_char_before_from(bytes, cx + n, rx + w, tab, x);
        }
    }
}

/// The character that ends in the column before the one of byte `x` has at most `x` bytes.
pub proof fn lemma_char_before(bytes: Seq<u8>, tab: nat, x: nat)
    requires
        x <= bytes.len(),
        cx2rx(bytes, tab)[x as int] > 0,
    ensures
        1 <= char_size(bytes, tab, (cx2rx(bytes, tab)[x as int] - 1) as nat) <= x,
{
    lemma_char_before_from(bytes, 0, 0, tab, x);
}

/// The bytes of a character behind its first one are no ASCII.
proof fn lemma_glyph_tail(bytes: Seq<u8>, i: int)
    requires
        0 < i < glyph_len(bytes),
        bytes.len() > 0,
    ensures
        bytes[i] >= 0x80,
{
}

proof fn lemma_ascii_before_from(bytes: Seq<u8>, cx: nat, rx: nat, tab: nat, x: nat)
    requires
        cx <= x < bytes.len(),
        bytes[x as int] < 0x80,
    ensures
        ({
            let c = cx2rx_from(bytes, cx, rx, tab)[x + 1 - cx];
            c > rx && char_size_from(bytes, cx, rx, tab, (c - 1) as nat) == 1
        }),
    decreases bytes.len() - cx,
{
    let rest = bytes.skip(cx as int);
    let n = glyph_len(rest);
    let w = columns(glyph(rest), rx, tab);
    lemma_glyph_len(rest);
    lemma_columns(glyph(rest), rx, tab);
    lemma_tables_from(bytes, cx, rx, tab);
    lemma_tables_from(bytes, cx + n, rx + w, tab);
    let t1 = cx2rx_from(bytes, cx + n, rx + w, tab);
    assert(cx2rx_from(bytes, cx, rx, tab) == copies(rx, n) + t1);
    if cx == x {
        assert(rest[0] < 0x80);
        assert(n == 1);
        assert(t1[0] == rx + w);
    } else {
        if x < cx + n {
            lemma_glyph_tail(rest, x - cx);
            assert(rest[x - cx] == bytes[x as int]);
        }
        lemma_ascii_before_from(bytes, cx + n, rx + w, tab, x);
        assert(cx2rx_from(bytes, cx, rx, tab)[x + 1 - cx] == t1[x + 1 - cx - n]);
    }
}

/// An ASCII byte is a character of its own, whatever stands around it.
pub proof fn lemma_ascii_before(bytes: Seq<u8>, tab: nat, x: nat)
    requires
        x < bytes.len(),
        bytes[x as int] < 0x80,
    ensures
        cx2rx(bytes, tab)[(x + 1) as int] > 0,
        char_size(bytes, tab, (cx2rx(bytes, tab)[(x + 1) as int] - 1) as nat) == 1,
{
    lemma_ascii_before_from(bytes, 0, 0, tab, x);
}

proof fn lemma_ascii_row_from(bytes: Seq<u8>, cx: nat, rx: nat, tab: nat, col: nat)
    requires
        forall|i: int| 0 <= i < bytes.len() ==> #[trigger] bytes[i] < 0x80,
    ensures
        char_size_from(bytes, cx, rx, tab, col) == 1,
    decreases bytes.len() - cx,
{
    if cx < bytes.len() {
        let rest = bytes.skip(cx as int);
        assert(rest[0] == bytes[cx as int]);
        assert(glyph_len(rest) == 1);
        lemma_ascii_row_from(bytes, cx + 1, rx + columns(glyph(rest), rx, tab), tab, col);
    }
}

/// In a row of ASCII bytes each character has one byte.
pub proof fn lemma_ascii_row(bytes: Seq<u8>, tab: nat, col: nat)
    requires
        forall|i: int| 0 <= i < bytes.len() ==> #[trigger] bytes[i] < 0x80,
    ensures
        char_size(bytes, tab, col) == 1,
{
    lemma_ascii_row_from(bytes, 0, 0, tab, col);
}

proof fn lemma_char_size_from(bytes: Seq<u8>, cx: nat, rx: nat, tab: nat, col: nat)
    requires
        cx <= bytes.len(),
    ensures
        1 <= char_size_from(bytes, cx, rx, tab, col),
        char_size_from(bytes, cx, rx, tab, col) <= 1 || char_size_from(bytes, cx, rx, tab, col)
            <= bytes.len() - cx,
    decreases bytes.len() - cx,
{
    if cx < bytes.len() {
        let rest = bytes.skip(cx as int);
        let n = glyph_len(rest);
        lemma_glyph_len(rest);
        lemma_char_size_from(bytes, cx + n, rx + columns(glyph(rest), rx, tab), tab, col);
    }
}

/// A character has at least one byte, and no more bytes than its row.
pub proof fn lemma_char_size(bytes: Seq<u8>, tab: nat, col: nat)
    ensures
        1 <= char_size(bytes, tab, col),
        char_size(bytes, tab, col) <= 1 || char_size(bytes, tab, col) <= bytes.len(),
{
    lemma_char_size_from(bytes, 0, 0, tab, col);
}

/// The distance from `base` to the first larger entry of `t` from position `j` on.
pub open spec fn first_step(t: Seq<nat>, base: nat, j: nat) -> nat
    decreases t.len() - j,
{
    if j >= t.len() {
        1
    } else if t[j as int] > base {
        (t[j as int] - base) as nat
    } else {
        first_step(t, base, j + 1)
    }
}

proof fn lemma_first_step_shift(a: Seq<nat>, b: Seq<nat>, base: nat, j: nat)
    ensures
        first_step(a + b, base, a.len() + j) == first_step(b, base, j),
    decreases b.len() - j,
{
    if j < b.len() {
        assert((a + b)[(a.len() + j) as int] == b[j as int]);
        lemma_first_step_shift(a, b, base, j + 1);
    }
}

proof fn lemma_first_step_skip(t: Seq<nat>, base: nat, j: nat, k: nat)
    requires
        j <= k <= t.len(),
        forall|i: int| j <= i < k ==> #[trigger] t[i] <= base,
    ensures
        first_step(t, base, j) == first_step(t, base, k),
    decreases k - j,
{
    if j < k {
        lemma_first_step_skip(t, base, j + 1, k);
    }
}

/// The table of columns tells the size of a character: the distance to the next character.
proof fn lemma_size_from_table(bytes: Seq<u8>, cx: nat, rx: nat, tab: nat, col: nat)
    requires
        cx <= bytes.len(),
        rx <= col < rx + rx2cx_from(bytes, cx, rx, tab).len(),
    ensures
        ({
            let t = rx2cx_from(bytes, cx, rx, tab);
            first_step(t, t[col - rx], (col - rx + 1) as nat) == char_size_from(
                bytes,
                cx,
                rx,
                tab,
                col,
            )
        }),
    decreases bytes.len() - cx,
{
    let t = rx2cx_from(bytes, cx, rx, tab);
    if cx < bytes.len() {
        let rest = bytes.skip(cx as int);
        let n = glyph_len(rest);
        let w = columns(glyph(rest), rx, tab);
        lemma_glyph_len(rest);
        lemma_columns(glyph(rest), rx, tab);
        lemma_tables_from(bytes, cx + n, rx + w, tab);
        let t1 = rx2cx_from(bytes, cx + n, rx + w, tab);
        let own = copies(cx, w);
        assert(t == own + t1);
        if col < rx + w {
            assert(t[col - rx] == cx);
            lemma_first_step_skip(t, cx, (col - rx + 1) as nat, w);
            lemma_first_step_shift(own, t1, cx, 0);
            assert(t1[0] == cx + n);
        } else {
            assert(t[col - rx] == t1[col - rx - w]);
            lemma_size_from_table(bytes, cx + n, rx + w, tab, col);
            lemma_first_step_shift(own, t1, t[col - rx], (col - rx - w + 1) as nat);
        }
    }
}

/// The character that `bytes` holds at position `i`, and the number of its bytes.
fn decode_glyph(bytes: &Vec<u8>, i: usize) -> (r: (usize, char))
    requires
        i < bytes@.len(),
    ensures
        r.0 == glyph_len(bytes@.skip(i as int)),
        r.1 == glyph(bytes@.skip(i as int)),
{
    let ghost rest = bytes@.skip(i as int);
    let left = bytes.len() - i;
    let b0 = bytes[i];
    assert(rest[0] == b0);
    if b0 <= 0x7f {
        let code: u32 = (b0 & 0x7f) as u32;
        assert(b0 & 0x7f <= 0x7f) by (bit_vector);
        return (1, code_char(code));
    }
    if left >= 2 && 0xc0 <= b0 && b0 <= 0xdf {
        let b1 = bytes[i + 1];
        assert(rest[1] == b1);
        if 0x80 <= b1 && b1 <= 0xbf {
            let code: u32 = (((b0 & 0x1f) as u32) << 6) | ((b1 & 0x3f) as u32);
            assert((((b0 & 0x1f) as u32) << 6) | ((b1 & 0x3f) as u32) <= 0x7ff) by (bit_vector);
            if code >= 0x80 {
                return (2, code_char(code));
            }
        }
    }
    if left >= 3 && 0xe0 <= b0 && b0 <= 0xef {
        let b1 = bytes[i + 1];
        let b2 = bytes[i + 2];
        assert(rest[1] == b1);
        assert(rest[2] == b2);
        if 0x80 <= b1 && b1 <= 0xbf && 0x80 <= b2 && b2 <= 0xbf {
            let code: u32 = (((b0 & 0x0f) as u32) << 12) | (((b1 & 0x3f) as u32) << 6) | ((b2
                & 0x3f) as u32);
            assert((((b0 & 0x0f) as u32) << 12) | (((b1 & 0x3f) as u32) << 6) | ((b2 & 0x3f) as u32)
                <= 0xffff) by (bit_vector);
            if code >= 0x800 && !(0xd800 <= code && code <= 0xdfff) {
                return (3, code_char(code));
            }
        }
    }
    if left >= 4 && 0xf0 <= b0 && b0 <= 0xf7 {
        let b1 = bytes[i + 1];
        let b2 = bytes[i + 2];
        let b3 = bytes[i + 3];
        assert(rest[1] == b1);
        assert(rest[2] == b2);
        assert(rest[3] == b3);
        if 0x80 <= b1 && b1 <= 0xbf && 0x80 <= b2 && b2 <= 0xbf && 0x80 <= b3 && b3 <= 0xbf {
            let code: u32 = (((b0 & 0x07) as u32) << 18) | (((b1 & 0x3f) as u32) << 12) | (((b2
                & 0x3f) as u32) << 6) | ((b3 & 0x3f) as u32);
            if 0x10000 <= code && code <= 0x10ffff {
                return (4, code_char(code));
            }
        }
    }
    (1, '\u{fffd}')
}

fn code_char(code: u32) -> (r: char)
    requires
        is_scalar(code),
    ensures
        r == code as char,
{
    match char::from_u32(code) {
        Some(c) => c,
        None => '\u{fffd}',
    }
}

/// The bytes of the characters.
pub fn collect_bytes(chars: &Vec<UuidChar>) -> (r: Vec<u8>)
    ensures
        r@ == bytes_of(char_views(chars@)),
{
    let mut r: Vec<u8> = Vec::new();
    let mut i: usize = 0;
    while i < chars.len()
        invariant
            i <= chars@.len(),
            r@ == bytes_of(char_views(chars@)).take(i as int),
        decreases chars@.len() - i,
    {
        r.push(chars[i].0);
        i = i + 1;
    }
    r
}

impl Row {
    /// Create a new row, containing characters `chars`, with the given identifier or a new one.
    pub fn new(chars: Vec<UuidChar>, uuid: Option<String>, tab: usize) -> (r: Row)
        requires
            fits(chars@.len(), tab as nat),
        ensures
            r@ == new_row(r@.uuid, char_views(chars@)),
            match uuid {
                Some(id) => r@.uuid == id@,
                None => is_new_id(r@.uuid),
            },
            r.laid_out(tab as nat),
    {
        let uuid = match uuid {
            Some(id) => id,
            None => fresh_id(),
        };
        let mut row = Row {
            uuid,
            chars,
            render: Vec::new(),
            cx2rx: Vec::new(),
            rx2cx: Vec::new(),
            hl_state: HlState::Normal,
            match_segment: None,
        };
        let bytes = collect_bytes(&row.chars);
        row.lay_out(&bytes, tab);
        row
    }

    /// Create a new row from bytes; the characters get new identifiers.
    pub fn new_from_new_chars(bytes: Vec<u8>, uuid: Option<String>, tab: usize) -> (r: Row)
        requires
            fits(bytes@.len(), tab as nat),
        ensures
            r@ == new_row(r@.uuid, r@.chars),
            r@.bytes() == bytes@,
            have_new_ids(r@.chars),
            match uuid {
                Some(id) => r@.uuid == id@,
                None => is_new_id(r@.uuid),
            },
            r.laid_out(tab as nat),
    {
        let mut chars: Vec<UuidChar> = Vec::new();
        let mut i: usize = 0;
        while i < bytes.len()
            invariant
                i <= bytes@.len(),
                chars@.len() == i,
                forall|j: int|
                    0 <= j < i ==> (#[trigger] chars@[j])@.byte == bytes@[j] && is_new_id(
                        chars@[j]@.id,
                    ),
            decreases bytes@.len() - i,
        {
            chars.push(UuidChar::new(bytes[i], None));
            i = i + 1;
        }
        let row = Row::new(chars, uuid, tab);
        assert(row@.bytes() == bytes@);
        row
    }

    /// Compute the tables.
    fn lay_out(&mut self, bytes: &Vec<u8>, tab: usize)
        requires
            bytes@ == old(self)@.bytes(),
            fits(bytes@.len(), tab as nat),
        ensures
            final(self)@ == old(self)@,
            final(self).laid_out(tab as nat),
    {
        let mut cx2rx_table: Vec<usize> = Vec::new();
        let mut rx2cx_table: Vec<usize> = Vec::new();
        let mut shown: Vec<char> = Vec::new();
        let len = bytes.len();
        let stop: usize = if tab == 0 { 1 } else { tab };
        let mut cx: usize = 0;
        let mut rx: usize = 0;
        assert(nats(cx2rx_table@) + cx2rx(bytes@, tab as nat) == cx2rx(bytes@, tab as nat));
        assert(nats(rx2cx_table@) + rx2cx(bytes@, tab as nat) == rx2cx(bytes@, tab as nat));
        assert(shown@ + render(bytes@, tab as nat) == render(bytes@, tab as nat));
        while cx < len
            invariant
                len == bytes@.len(),
                cx <= len,
                stop == tab_width(tab as nat),
                fits(len as nat, tab as nat),
                rx <= cx * stop,
                nats(cx2rx_table@) + cx2rx_from(bytes@, cx as nat, rx as nat, tab as nat) == cx2rx(
                    bytes@,
                    tab as nat,
                ),
                nats(rx2cx_table@) + rx2cx_from(bytes@, cx as nat, rx as nat, tab as nat) == rx2cx(
                    bytes@,
                    tab as nat,
                ),
                shown@ + render_from(bytes@, cx as nat, rx as nat, tab as nat) == render(
                    bytes@,
                    tab as nat,
                ),
            decreases len - cx,
        {
            let (n, c) = decode_glyph(bytes, cx);
            let ghost rest = bytes@.skip(cx as int);
            proof {
                lemma_glyph_len(rest);
                lemma_columns(c, rx as nat, tab as nat);
            }
            let w: usize = if c == '\t' { stop - rx % stop } else { 1 };
            assert(w == columns(c, rx as nat, tab as nat));
            let shown_char = if c == '\t' { ' ' } else { c };
            let ghost cx2rx_before = cx2rx_table@;
            let ghost rx2cx_before = rx2cx_table@;
            let ghost shown_before = shown@;
            let mut k: usize = 0;
            while k < n
                invariant
                    k <= n,
                    nats(cx2rx_table@) == nats(cx2rx_before) + copies(rx as nat, k as nat),
                decreases n - k,
            {
                let ghost prev = cx2rx_table@;
                cx2rx_table.push(rx);
                assert(nats(cx2rx_table@) =~= nats(prev).push(rx as nat));
                assert(nats(cx2rx_table@) =~= nats(cx2rx_before) + copies(rx as nat, k as nat + 1));
                k = k + 1;
            }
            k = 0;
            while k < w
                invariant
                    k <= w,
                    nats(rx2cx_table@) == nats(rx2cx_before) + copies(cx as nat, k as nat),
                    shown@ == shown_before + copies(shown_char, k as nat),
                decreases w - k,
            {
                let ghost prev = rx2cx_table@;
                rx2cx_table.push(cx);
                shown.push(shown_char);
                assert(nats(rx2cx_table@) =~= nats(prev).push(cx as nat));
                assert(nats(rx2cx_table@) =~= nats(rx2cx_before) + copies(cx as nat, k as nat + 1));
                assert(shown@ =~= shown_before + copies(shown_char, k as nat + 1));
                k = k + 1;
            }
            proof {
                lemma_advance(cx as nat, n as nat, rx as nat, w as nat, stop as nat);
                assert((cx + n) * stop <= (len + 32) * stop) by (nonlinear_arith)
                    requires
                        cx + n <= len,
                ;
                assert(nats(cx2rx_before) + copies(rx as nat, n as nat) + cx2rx_from(
                    bytes@,
                    (cx + n) as nat,
                    (rx + w) as nat,
                    tab as nat,
                ) == nats(cx2rx_before) + cx2rx_from(bytes@, cx as nat, rx as nat, tab as nat));
                assert(nats(rx2cx_before) + copies(cx as nat, w as nat) + rx2cx_from(
                    bytes@,
                    (cx + n) as nat,
                    (rx + w) as nat,
                    tab as nat,
                ) == nats(rx2cx_before) + rx2cx_from(bytes@, cx as nat, rx as nat, tab as nat));
                assert(shown_before + copies(shown_char, w as nat) + render_from(
                    bytes@,
                    (cx + n) as nat,
                    (rx + w) as nat,
                    tab as nat,
                ) == shown_before + render_from(bytes@, cx as nat, rx as nat, tab as nat));
            }
            rx = rx + w;
            cx = cx + n;
        }
        let ghost cx2rx_before = cx2rx_table@;
        let ghost rx2cx_before = rx2cx_table@;
        cx2rx_table.push(rx);
        rx2cx_table.push(cx);
        assert(nats(cx2rx_table@) =~= nats(cx2rx_before) + seq![rx as nat]);
        assert(nats(rx2cx_table@) =~= nats(rx2cx_before) + seq![cx as nat]);
        assert(shown@ =~= shown@ + Seq::<char>::empty());
        self.cx2rx = cx2rx_table;
        self.rx2cx = rx2cx_table;
        self.render = shown;
    }

    /// Update the row: lay it out anew and compute the highlight state at its end, which is
    /// returned. The `hl_state` argument is the state of the previous row.
    pub fn update(&mut self, syntax: &Conf, hl_state: HlState, tab: usize) -> (r: HlState)
        requires
            fits(old(self).chars@.len(), tab as nat),
        ensures
            r == syntax@.next_state(old(self)@.bytes(), hl_state),
            final(self)@ == old(self)@.with_state(r),
            final(self).laid_out(tab as nat),
    {
        let bytes = collect_bytes(&self.chars);
        self.lay_out(&bytes, tab);
        self.hl_state = syntax.next_state(&bytes, hl_state);
        self.hl_state
    }

    /// Obtain the character size, in bytes, given its position in `self.render`.
    pub fn get_char_size(&self, rx: usize) -> (r: usize)
        requires
            rx < self.rx2cx@.len(),
        ensures
            r == first_step(nats(self.rx2cx@), self.rx2cx@[rx as int] as nat, rx as nat + 1),
            forall|tab: nat|
                #[trigger] self.laid_out(tab) ==> r == char_size(self@.bytes(), tab, rx as nat),
    {
        let base = self.rx2cx[rx];
        let ghost t = nats(self.rx2cx@);
        proof {
            assert forall|tab: nat| #[trigger] self.laid_out(tab) implies first_step(
                t,
                base as nat,
                rx as nat + 1,
            ) == char_size(self@.bytes(), tab, rx as nat) by {
                lemma_size_from_table(self@.bytes(), 0, 0, tab, rx as nat);
            }
        }
        let len = self.rx2cx.len();
        let mut j: usize = rx + 1;
        while j < len
            invariant
                len == self.rx2cx@.len(),
                rx < j <= len,
                forall|tab: nat|
                    #[trigger] self.laid_out(tab) ==> first_step(t, base as nat, rx as nat + 1)
                        == char_size(self@.bytes(), tab, rx as nat),
                t == nats(self.rx2cx@),
                base == self.rx2cx@[rx as int],
                first_step(t, base as nat, rx as nat + 1) == first_step(t, base as nat, j as nat),
            decreases len - j,
        {
            if self.rx2cx[j] > base {
                return self.rx2cx[j] - base;
            }
            j = j + 1;
        }
        1
    }
}

/// Whether column `col` is matched.
pub open spec fn matched(segment: Option<std::ops::Range<usize>>, col: int) -> bool {
    match segment {
        Some(s) => s.start <= col < s.end,
        None => false,
    }
}

/// The columns of `shown` from `from` up to `to`, those that are matched in reverse video.
pub open spec fn drawn(
    shown: Seq<char>,
    segment: Option<std::ops::Range<usize>>,
    from: int,
    to: int,
) -> Seq<char>
    decreases to - from,
{
    if from >= to {
        seq![]
    } else {
        drawn(shown, segment, from, to - 1) + if matched(segment, to - 1) {
            REVERSE_VIDEO@ + seq![shown[to - 1]] + RESET_FMT@
        } else {
            seq![shown[to - 1]]
        }
    }
}

impl RowView {
    /// What is drawn of the row on a screen with `max_len` columns that begins at column
    /// `offset`.
    pub open spec fn drawing(self, offset: nat, max_len: nat, tab: nat) -> Seq<char> {
        let shown = render(self.bytes(), tab);
        drawn(
            shown,
            self.match_segment,
            offset as int,
            if offset + max_len < shown.len() {
                (offset + max_len) as int
            } else {
                shown.len() as int
            },
        )
    }
}

impl Row {
    /// Draw the row and write the result to a buffer. An `offset` can be given, as well as a
    /// limit on the length of the row (`max_len`).
    pub fn draw(&self, offset: usize, max_len: usize, buffer: &mut String)
        ensures
            forall|tab: nat|
                #[trigger] self.laid_out(tab) ==> final(buffer)@ == old(buffer)@ + self@.drawing(
                    offset as nat,
                    max_len as nat,
                    tab,
                ),
    {
        let len = self.render.len();
        let end: usize = if offset < len && max_len < len - offset { offset + max_len } else { len };
        let mut i: usize = offset;
        assert(buffer@ == old(buffer)@ + drawn(
            self.render@,
            self.match_segment,
            offset as int,
            offset as int,
        ));
        while i < end
            invariant
                offset <= i,
                offset < end ==> i <= end,
                end <= self.render@.len(),
                offset >= end ==> i == offset,
                buffer@ == old(buffer)@ + drawn(
                    self.render@,
                    self.match_segment,
                    offset as int,
                    i as int,
                ),
            decreases end - i,
        {
            let in_match = match &self.match_segment {
                Some(s) => s.start <= i && i < s.end,
                None => false,
            };
            if in_match {
                buffer.append(REVERSE_VIDEO);
                buffer.push(self.render[i]);
                buffer.append(RESET_FMT);
            } else {
                buffer.push(self.render[i]);
            }
            i = i + 1;
            assert(buffer@ =~= old(buffer)@ + drawn(
                self.render@,
                self.match_segment,
                offset as int,
                i as int,
            ));
        }
        assert(drawn(self.render@, self.match_segment, offset as int, i as int) == drawn(
            self.render@,
            self.match_segment,
            offset as int,
            end as int,
        ));
    }
}

} // verus!
