//! Where the characters of a row stand on the screen.
use vstd::prelude::*;
use vstd::utf8::{
    char_u32_cast, decode_first_scalar, encode_utf8, encode_utf8_first_scalar, valid_first_scalar,
};

use crate::row::{
    char_size, char_size_from, columns, copies, cx2rx, cx2rx_from, glyph, glyph_len,
    lemma_columns, lemma_glyph_len, lemma_tables, lemma_tables_from, render, render_from, rx2cx,
    rx2cx_from, tab_width, width,
};

verus! {

/// Whether a character, or the end of the row, begins at byte `x`, one beginning at byte `cx`.
pub open spec fn begins_from(bytes: Seq<u8>, cx: nat, x: nat) -> bool
    decreases bytes.len() - cx,
{
    cx == x || (cx < bytes.len() && cx < x && {
        let n = glyph_len(bytes.skip(cx as int));
        proof {
            lemma_glyph_len(bytes.skip(cx as int));
        }
        begins_from(bytes, cx + n, x)
    })
}

/// Whether a character, or the end of the row, begins at byte `x`.
pub open spec fn begins_char(bytes: Seq<u8>, x: nat) -> bool {
    begins_from(bytes, 0, x)
}

/// The length of the character that begins at byte `x`.
pub open spec fn len_at(bytes: Seq<u8>, x: nat) -> nat {
    glyph_len(bytes.skip(x as int))
}

/// The character that begins at byte `x`.
pub open spec fn char_at(bytes: Seq<u8>, x: nat) -> char {
    glyph(bytes.skip(x as int))
}

proof fn lemma_char_from(bytes: Seq<u8>, cx: nat, rx: nat, tab: nat, x: nat)
    requires
        begins_from(bytes, cx, x),
        x < bytes.len(),
    ensures
        ({
            let t = cx2rx_from(bytes, cx, rx, tab);
            let n = len_at(bytes, x);
            let c = t[x - cx];
            let w = columns(char_at(bytes, x), c, tab);
            &&& cx <= x
            &&& 1 <= n
            &&& x + n <= bytes.len()
            &&& begins_from(bytes, cx, x + n)
            &&& c >= rx
            &&& forall|k: int| 0 <= k < n ==> #[trigger] t[x - cx + k] == c
            &&& t[x + n - cx] == c + w
            &&& c + w - rx < rx2cx_from(bytes, cx, rx, tab).len()
            &&& forall|col: nat|
                c <= col < c + w ==> #[trigger] char_size_from(bytes, cx, rx, tab, col) == n
            &&& forall|i: int|
                c - rx <= i < c + w - rx ==> #[trigger] rx2cx_from(bytes, cx, rx, tab)[i] == x
            &&& forall|i: int|
                c - rx <= i < c + w - rx ==> #[trigger] render_from(bytes, cx, rx, tab)[i] == if char_at(
                    bytes,
                    x,
                ) == '\t' {
                    ' '
                } else {
                    char_at(bytes, x)
                }
        }),
    decreases bytes.len() - cx,
{
    let rest = bytes.skip(cx as int);
    let n0 = glyph_len(rest);
    let w0 = columns(glyph(rest), rx, tab);
    lemma_glyph_len(rest);
    lemma_columns(glyph(rest), rx, tab);
    lemma_tables_from(bytes, cx, rx, tab);
    lemma_tables_from(bytes, cx + n0, rx + w0, tab);
    let t = cx2rx_from(bytes, cx, rx, tab);
    let t1 = cx2rx_from(bytes, cx + n0, rx + w0, tab);
    let b = rx2cx_from(bytes, cx, rx, tab);
    let b1 = rx2cx_from(bytes, cx + n0, rx + w0, tab);
    let d = render_from(bytes, cx, rx, tab);
    let d1 = render_from(bytes, cx + n0, rx + w0, tab);
    assert(t == copies(rx, n0) + t1);
    assert(b == copies(cx, w0) + b1);
    assert(d == copies(if glyph(rest) == '\t' { ' ' } else { glyph(rest) }, w0) + d1);
    let n = len_at(bytes, x);
    if cx == x {
        assert(t1[0] == rx + w0) by {
            if cx + n0 < bytes.len() {
                let rest1 = bytes.skip((cx + n0) as int);
                lemma_glyph_len(rest1);
            }
        }
        assert(begins_from(bytes, cx + n0, cx + n0));
        assert(begins_from(bytes, cx, x + n));
        assert forall|col: nat| rx <= col < rx + w0 implies #[trigger] char_size_from(
            bytes,
            cx,
            rx,
            tab,
            col,
        ) == n by {}
    } else {
        lemma_char_from(bytes, cx + n0, rx + w0, tab, x);
        let c = t1[x - cx - n0];
        let w = columns(char_at(bytes, x), c, tab);
        lemma_columns(char_at(bytes, x), c, tab);
        assert(t[x - cx] == c);
        assert forall|k: int| 0 <= k < n implies #[trigger] t[x - cx + k] == c by {
            assert(t[x - cx + k] == t1[x - (cx + n0) + k]);
        }
        assert(t[x + n - cx] == t1[x + n - cx - n0]);
        assert(begins_from(bytes, cx + n0, x + n));
        assert(begins_from(bytes, cx, x + n));
        assert forall|col: nat| c <= col < c + w implies #[trigger] char_size_from(
            bytes,
            cx,
            rx,
            tab,
            col,
        ) == n by {
            assert(char_size_from(bytes, cx + n0, rx + w0, tab, col) == n);
        }
        assert forall|i: int| c - rx <= i < c + w - rx implies #[trigger] b[i] == x by {
            assert(b[i] == b1[i - w0]);
        }
        assert forall|i: int| c - rx <= i < c + w - rx implies #[trigger] d[i] == if char_at(
            bytes,
            x,
        ) == '\t' {
            ' '
        } else {
            char_at(bytes, x)
        } by {
            assert(d[i] == d1[i - w0]);
        }
    }
}

/// The column of byte `x`.
pub open spec fn column(bytes: Seq<u8>, tab: nat, x: nat) -> nat {
    cx2rx(bytes, tab)[x as int]
}

/// A row begins in column 0. The bytes of a character stand in one column; the next character
/// stands in the next column, or at the next tab stop if the character is a tab. In these columns
/// the character is shown, a tab as spaces, and from them the mappings lead back to it.
pub proof fn law_layout(bytes: Seq<u8>, tab: nat, x: nat)
    requires
        begins_char(bytes, x),
        x < bytes.len(),
    ensures
        column(bytes, tab, 0) == 0,
        ({
            let n = len_at(bytes, x);
            let c = column(bytes, tab, x);
            let next = column(bytes, tab, x + n);
            let t = if tab == 0 {
                1
            } else {
                tab as int
            };
            &&& 1 <= n <= bytes.len() - x
            &&& begins_char(bytes, x + n)
            &&& forall|k: nat| x <= k < x + n ==> #[trigger] column(bytes, tab, k) == c
            &&& char_at(bytes, x) != '\t' ==> next == c + 1
            &&& char_at(bytes, x) == '\t' ==> c < next <= c + t && next as int % t == 0
            &&& next <= width(bytes, tab)
            &&& forall|col: nat|
                c <= col < next ==> #[trigger] char_size(bytes, tab, col) == n
            &&& forall|i: int| c <= i < next ==> #[trigger] rx2cx(bytes, tab)[i] == x
            &&& forall|i: int|
                c <= i < next ==> #[trigger] render(bytes, tab)[i] == if char_at(bytes, x) == '\t' {
                    ' '
                } else {
                    char_at(bytes, x)
                }
        }),
{
    lemma_tables(bytes, tab);
    let rest0 = bytes.skip(0);
    lemma_glyph_len(rest0);
    assert(column(bytes, tab, 0) == 0);
    lemma_char_from(bytes, 0, 0, tab, x);
    let n = len_at(bytes, x);
    let c = column(bytes, tab, x);
    let t = tab_width(tab) as int;
    let ch = char_at(bytes, x);
    lemma_columns(ch, c, tab);
    assert forall|k: nat| x <= k < x + n implies #[trigger] column(bytes, tab, k) == c by {
        assert(cx2rx_from(bytes, 0, 0, tab)[x - 0 + (k - x)] == c);
    }
    if ch == '\t' {
        assert((c + (t - c as int % t)) % t == 0) by (nonlinear_arith)
            requires
                t >= 1,
                c >= 0,
        ;
    }
}

/// The end of the row stands in the column behind the last character.
pub proof fn law_layout_end(bytes: Seq<u8>, tab: nat)
    ensures
        column(bytes, tab, bytes.len()) == width(bytes, tab),
        render(bytes, tab).len() == width(bytes, tab),
        rx2cx(bytes, tab).len() == width(bytes, tab) + 1,
        rx2cx(bytes, tab)[width(bytes, tab) as int] == bytes.len(),
{
    lemma_tables(bytes, tab);
    lemma_tables_from(bytes, 0, 0, tab);
}

proof fn lemma_ascii_begins_from(bytes: Seq<u8>, cx: nat, x: nat)
    requires
        cx <= x <= bytes.len(),
        forall|i: int| 0 <= i < bytes.len() ==> #[trigger] bytes[i] < 0x80,
    ensures
        begins_from(bytes, cx, x),
    decreases x - cx,
{
    if cx < x {
        let rest = bytes.skip(cx as int);
        assert(rest[0] == bytes[cx as int]);
        assert(glyph_len(rest) == 1);
        lemma_ascii_begins_from(bytes, cx + 1, x);
    }
}

/// In a row of ASCII bytes each byte begins a character, which is shown as it is.
pub proof fn law_ascii_layout(bytes: Seq<u8>, x: nat)
    requires
        x <= bytes.len(),
        forall|i: int| 0 <= i < bytes.len() ==> #[trigger] bytes[i] < 0x80,
    ensures
        begins_char(bytes, x),
        x < bytes.len() ==> len_at(bytes, x) == 1 && char_at(bytes, x) == bytes[x as int] as char,
{
    lemma_ascii_begins_from(bytes, 0, x);
    if x < bytes.len() {
        let rest = bytes.skip(x as int);
        let b = rest[0];
        assert(b == bytes[x as int]);
        assert(b < 0x80 ==> b & 0x7f == b) by (bit_vector);
    }
}

/// A byte that begins no character in UTF-8 is a character of its own, shown as the replacement
/// character.
pub proof fn law_invalid_bytes(bytes: Seq<u8>, x: nat)
    requires
        x < bytes.len(),
        !valid_first_scalar(bytes.skip(x as int)),
    ensures
        len_at(bytes, x) == 1,
        char_at(bytes, x) == '\u{fffd}',
{
}

proof fn lemma_shown_from(
    bytes: Seq<u8>,
    cx: nat,
    rx: nat,
    tab: nat,
    rest: Seq<char>,
)
    requires
        cx <= bytes.len(),
        bytes.skip(cx as int) == encode_utf8(rest),
        !rest.contains('\t'),
    ensures
        render_from(bytes, cx, rx, tab) == rest,
    decreases rest.len(),
{
    if rest.len() > 0 {
        let tail = bytes.skip(cx as int);
        encode_utf8_first_scalar(rest);
        char_u32_cast(rest[0], decode_first_scalar(tail));
        let n = glyph_len(tail);
        lemma_glyph_len(tail);
        assert(glyph(tail) == rest[0]);
        assert(rest[0] != '\t') by {
            if rest[0] == '\t' {
                assert(rest.contains('\t'));
            }
        }
        let more = rest.drop_first();
        assert(!more.contains('\t')) by {
            if more.contains('\t') {
                let i = choose|i: int| 0 <= i < more.len() && more[i] == '\t';
                assert(rest[i + 1] == '\t');
            }
        }
        assert(bytes.skip((cx + n) as int) =~= tail.skip(n as int));
        assert(tail.skip(n as int) =~= encode_utf8(more));
        lemma_shown_from(bytes, cx + n, rx + 1, tab, more);
        assert(render_from(bytes, cx, rx, tab) =~= seq![rest[0]] + more);
        assert(seq![rest[0]] + more =~= rest);
    } else {
        assert(bytes.skip(cx as int).len() == 0);
        assert(render_from(bytes, cx, rx, tab) =~= rest);
    }
}

/// A row that encodes a text without tabs is shown as that text.
pub proof fn law_text_is_shown(text: Seq<char>, tab: nat)
    requires
        !text.contains('\t'),
    ensures
        render(encode_utf8(text), tab) == text,
{
    assert(encode_utf8(text).skip(0) =~= encode_utf8(text));
    lemma_shown_from(encode_utf8(text), 0, 0, tab, text);
}

} // verus!
