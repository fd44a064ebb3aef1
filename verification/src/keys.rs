//! Input keys, and how the bytes that the terminal sends stand for them.
use vstd::prelude::*;

verus! {

/// The byte that the terminal sends when `key` is pressed together with Ctrl.
pub fn ctrl_key(key: u8) -> (r: u8)
    ensures
        r == key & 0x1f,
{
    key & 0x1f
}

/// Ctrl-Q
pub const EXIT: u8 = 0x11;

/// Ctrl-H
pub const DELETE_BIS: u8 = 0x08;

/// Ctrl-L
pub const REFRESH_SCREEN: u8 = 0x0c;

/// Ctrl-P
pub const REFRESH_REPLICA: u8 = 0x10;

/// Ctrl-S
pub const SAVE: u8 = 0x13;

/// Ctrl-N
pub const SAVE_AS: u8 = 0x0e;

/// Ctrl-F
pub const FIND: u8 = 0x06;

/// Ctrl-G
pub const GOTO: u8 = 0x07;

/// Ctrl-D
pub const DUPLICATE: u8 = 0x04;

/// Ctrl-E
pub const EXECUTE: u8 = 0x05;

/// Ctrl-R
pub const REMOVE_LINE: u8 = 0x12;

/// The backspace key
pub const BACKSPACE: u8 = 127;

/// The escape byte, with which the codes of the special keys begin
pub const ESC: u8 = 0x1b;

/// The bytes of the commands are those of their letters with Ctrl.
pub proof fn law_command_bytes()
    ensures
        EXIT == 0x51u8 & 0x1f,
        DELETE_BIS == 0x48u8 & 0x1f,
        REFRESH_SCREEN == 0x4cu8 & 0x1f,
        REFRESH_REPLICA == 0x50u8 & 0x1f,
        SAVE == 0x53u8 & 0x1f,
        SAVE_AS == 0x4eu8 & 0x1f,
        FIND == 0x46u8 & 0x1f,
        GOTO == 0x47u8 & 0x1f,
        DUPLICATE == 0x44u8 & 0x1f,
        EXECUTE == 0x45u8 & 0x1f,
        REMOVE_LINE == 0x52u8 & 0x1f,
{
    assert(0x51u8 & 0x1f == 0x11 && 0x48u8 & 0x1f == 0x08 && 0x4cu8 & 0x1f == 0x0c && 0x50u8 & 0x1f
        == 0x10 && 0x53u8 & 0x1f == 0x13 && 0x4eu8 & 0x1f == 0x0e && 0x46u8 & 0x1f == 0x06 && 0x47u8
        & 0x1f == 0x07 && 0x44u8 & 0x1f == 0x04 && 0x45u8 & 0x1f == 0x05 && 0x52u8 & 0x1f == 0x12)
        by (bit_vector);
}

/// Enum of arrow keys
#[derive(Clone, Copy, PartialEq, Eq, Structural, Debug)]
pub enum AKey {
    Left,
    Right,
    Up,
    Down,
}

/// Enum of page keys
#[derive(Clone, Copy, PartialEq, Eq, Structural, Debug)]
pub enum PageKey {
    Up,
    Down,
}

/// Enum of input keys
#[derive(Clone, Copy, PartialEq, Eq, Structural, Debug)]
pub enum Key {
    Arrow(AKey),
    CtrlArrow(AKey),
    Page(PageKey),
    Home,
    End,
    Delete,
    Escape,
    Char(u8),
}

/// What the bytes read so far stand for.
#[derive(Clone, Copy, PartialEq, Eq, Structural, Debug)]
pub enum Decoded {
    /// A key was pressed.
    Pressed(Key),
    /// The bytes begin the code of a key: the next byte is wanted.
    More,
    /// No key was pressed.
    Idle,
}

/// The key that `ESC [ c d` stands for, `c` being the first byte behind the bracket (or the
/// first one behind the default modifier `1;`) and `d` the one that follows it.
pub open spec fn numbered_key(c: Option<u8>, d: Option<u8>) -> Key {
    match (c, d) {
        (Some(0x31u8 /* 1 */), Some(0x7eu8 /* ~ */)) => Key::Home,
        (Some(0x37u8 /* 7 */), Some(0x7eu8 /* ~ */)) => Key::Home,
        (Some(0x34u8 /* 4 */), Some(0x7eu8 /* ~ */)) => Key::End,
        (Some(0x38u8 /* 8 */), Some(0x7eu8 /* ~ */)) => Key::End,
        (Some(0x33u8 /* 3 */), Some(0x7eu8 /* ~ */)) => Key::Delete,
        (Some(0x35u8 /* 5 */), Some(0x7eu8 /* ~ */)) => Key::Page(PageKey::Up),
        (Some(0x36u8 /* 6 */), Some(0x7eu8 /* ~ */)) => Key::Page(PageKey::Down),
        (Some(0x35u8 /* 5 */), Some(0x41u8 /* A */)) => Key::CtrlArrow(AKey::Up),
        (Some(0x35u8 /* 5 */), Some(0x42u8 /* B */)) => Key::CtrlArrow(AKey::Down),
        (Some(0x35u8 /* 5 */), Some(0x43u8 /* C */)) => Key::CtrlArrow(AKey::Right),
        (Some(0x35u8 /* 5 */), Some(0x44u8 /* D */)) => Key::CtrlArrow(AKey::Left),
        _ => Key::Escape,
    }
}

/// What `ESC [` followed by `rest` stands for.
pub open spec fn bracket_code(rest: Seq<Option<u8>>) -> Decoded {
    if rest.len() == 0 {
        Decoded::More
    } else {
        match rest[0] {
            Some(0x41u8 /* A */) => Decoded::Pressed(Key::Arrow(AKey::Up)),
            Some(0x42u8 /* B */) => Decoded::Pressed(Key::Arrow(AKey::Down)),
            Some(0x43u8 /* C */) => Decoded::Pressed(Key::Arrow(AKey::Right)),
            Some(0x44u8 /* D */) => Decoded::Pressed(Key::Arrow(AKey::Left)),
            Some(0x48u8 /* H */) => Decoded::Pressed(Key::Home),
            Some(0x46u8 /* F */) => Decoded::Pressed(Key::End),
            Some(c) => if 0x30u8 /* 0 */ <= c <= 0x38u8 /* 8 */ {
                if rest.len() == 1 {
                    Decoded::More
                } else if c == 0x31u8 /* 1 */ && rest[1] == Some(0x3bu8 /* ; */) {
                    if rest.len() < 4 {
                        Decoded::More
                    } else {
                        Decoded::Pressed(numbered_key(rest[2], rest[3]))
                    }
                } else {
                    Decoded::Pressed(numbered_key(rest[0], rest[1]))
                }
            } else {
                Decoded::Pressed(Key::Escape)
            },
            None => Decoded::Pressed(Key::Escape),
        }
    }
}

/// What `ESC O` followed by `c` stands for.
pub open spec fn letter_code(c: Option<u8>) -> Key {
    match c {
        Some(0x48u8 /* H */) => Key::Home,
        Some(0x46u8 /* F */) => Key::End,
        Some(0x61u8 /* a */) => Key::CtrlArrow(AKey::Up),
        Some(0x62u8 /* b */) => Key::CtrlArrow(AKey::Down),
        Some(0x63u8 /* c */) => Key::CtrlArrow(AKey::Right),
        Some(0x64u8 /* d */) => Key::CtrlArrow(AKey::Left),
        _ => Key::Escape,
    }
}

/// What the bytes that were read stand for; `None` in their place means that the terminal had
/// none to give.
pub open spec fn decoded(input: Seq<Option<u8>>) -> Decoded {
    if input.len() == 0 {
        Decoded::More
    } else if input[0] is None {
        Decoded::Idle
    } else if input[0] != Some(ESC) {
        Decoded::Pressed(Key::Char(input[0]->0))
    } else if input.len() == 1 {
        Decoded::More
    } else if input[1] == Some(0x5bu8 /* [ */) {
        bracket_code(input.skip(2))
    } else if input[1] == Some(0x4fu8 /* O */) {
        if input.len() == 2 {
            Decoded::More
        } else {
            Decoded::Pressed(letter_code(input[2]))
        }
    } else {
        Decoded::Pressed(Key::Escape)
    }
}

fn decode_numbered(c: Option<u8>, d: Option<u8>) -> (r: Key)
    ensures
        r == numbered_key(c, d),
{
    match (c, d) {
        (Some(0x31u8 /* 1 */), Some(0x7eu8 /* ~ */)) => Key::Home,
        (Some(0x37u8 /* 7 */), Some(0x7eu8 /* ~ */)) => Key::Home,
        (Some(0x34u8 /* 4 */), Some(0x7eu8 /* ~ */)) => Key::End,
        (Some(0x38u8 /* 8 */), Some(0x7eu8 /* ~ */)) => Key::End,
        (Some(0x33u8 /* 3 */), Some(0x7eu8 /* ~ */)) => Key::Delete,
        (Some(0x35u8 /* 5 */), Some(0x7eu8 /* ~ */)) => Key::Page(PageKey::Up),
        (Some(0x36u8 /* 6 */), Some(0x7eu8 /* ~ */)) => Key::Page(PageKey::Down),
        (Some(0x35u8 /* 5 */), Some(0x41u8 /* A */)) => Key::CtrlArrow(AKey::Up),
        (Some(0x35u8 /* 5 */), Some(0x42u8 /* B */)) => Key::CtrlArrow(AKey::Down),
        (Some(0x35u8 /* 5 */), Some(0x43u8 /* C */)) => Key::CtrlArrow(AKey::Right),
        (Some(0x35u8 /* 5 */), Some(0x44u8 /* D */)) => Key::CtrlArrow(AKey::Left),
        _ => Key::Escape,
    }
}

fn decode_letter(c: Option<u8>) -> (r: Key)
    ensures
        r == letter_code(c),
{
    match c {
        Some(0x48u8 /* H */) => Key::Home,
        Some(0x46u8 /* F */) => Key::End,
        Some(0x61u8 /* a */) => Key::CtrlArrow(AKey::Up),
        Some(0x62u8 /* b */) => Key::CtrlArrow(AKey::Down),
        Some(0x63u8 /* c */) => Key::CtrlArrow(AKey::Right),
        Some(0x64u8 /* d */) => Key::CtrlArrow(AKey::Left),
        _ => Key::Escape,
    }
}

/// Matches the bytes read so far, at most one escape code, to a key. In particular, the ANSI
/// escape codes stand for `Key::Delete`, `Key::Home` etc.
pub fn decode_key(input: &Vec<Option<u8>>) -> (r: Decoded)
    ensures
        r == decoded(input@),
{
    let n = input.len();
    if n == 0 {
        return Decoded::More;
    }
    match input[0] {
        None => Decoded::Idle,
        Some(a) => {
            if a != ESC {
                return Decoded::Pressed(Key::Char(a));
            }
            if n == 1 {
                return Decoded::More;
            }
            match input[1] {
                Some(0x5bu8 /* [ */) => {
                    if n == 2 {
                        return Decoded::More;
                    }
                    match input[2] {
                        Some(0x41u8 /* A */) => Decoded::Pressed(Key::Arrow(AKey::Up)),
                        Some(0x42u8 /* B */) => Decoded::Pressed(Key::Arrow(AKey::Down)),
                        Some(0x43u8 /* C */) => Decoded::Pressed(Key::Arrow(AKey::Right)),
                        Some(0x44u8 /* D */) => Decoded::Pressed(Key::Arrow(AKey::Left)),
                        Some(0x48u8 /* H */) => Decoded::Pressed(Key::Home),
                        Some(0x46u8 /* F */) => Decoded::Pressed(Key::End),
                        Some(c) => {
                            if c < 0x30u8 /* 0 */ || c > 0x38u8 /* 8 */ {
                                return Decoded::Pressed(Key::Escape);
                            }
                            if n == 3 {
                                return Decoded::More;
                            }
                            let default_modifier = match input[3] {
                                Some(d) => c == 0x31u8 /* 1 */ && d == 0x3bu8 /* ; */,
                                None => false,
                            };
                            if !default_modifier {
                                return Decoded::Pressed(decode_numbered(input[2], input[3]));
                            }
                            if n < 6 {
                                return Decoded::More;
                            }
                            Decoded::Pressed(decode_numbered(input[4], input[5]))
                        },
                        None => Decoded::Pressed(Key::Escape),
                    }
                },
                Some(0x4fu8 /* O */) => {
                    if n == 2 {
                        return Decoded::More;
                    }
                    Decoded::Pressed(decode_letter(input[2]))
                },
                _ => Decoded::Pressed(Key::Escape),
            }
        },
    }
}

/// 1 is the default modifier value: `ESC [ 1 ; c d` stands for what `ESC [ c d` stands for, `c`
/// being one of the digits that such a code can begin with and `c d` not itself a modifier.
pub proof fn law_default_modifier(c: u8, d: Option<u8>)
    requires
        0x30u8 /* 0 */ <= c <= 0x38u8 /* 8 */,
        !(c == 0x31u8 /* 1 */ && d == Some(0x3bu8 /* ; */)),
    ensures
        decoded(
            seq![
                Some(ESC),
                Some(0x5bu8 /* [ */),
                Some(0x31u8 /* 1 */),
                Some(0x3bu8 /* ; */),
                Some(c),
                d,
            ],
        ) == decoded(seq![Some(ESC), Some(0x5bu8 /* [ */), Some(c), d]),
{
    let long = seq![
        Some(ESC),
        Some(0x5bu8 /* [ */),
        Some(0x31u8 /* 1 */),
        Some(0x3bu8 /* ; */),
        Some(c),
        d,
    ];
    let short = seq![Some(ESC), Some(0x5bu8 /* [ */), Some(c), d];
    assert(long.skip(2) == seq![Some(0x31u8 /* 1 */), Some(0x3bu8 /* ; */), Some(c), d]);
    assert(short.skip(2) == seq![Some(c), d]);
}

/// Reading stops: six bytes always stand for a key, or for no key.
pub proof fn law_reading_stops(input: Seq<Option<u8>>)
    requires
        input.len() >= 6,
    ensures
        !(decoded(input) is More),
{
}

/// A key that was recognised stays recognised whatever is read behind it.
pub proof fn law_decoding_is_stable(input: Seq<Option<u8>>, next: Option<u8>)
    requires
        !(decoded(input) is More),
    ensures
        decoded(input.push(next)) == decoded(input),
{
    if input.len() >= 2 {
        assert(input.push(next).skip(2) == input.skip(2).push(next));
    }
}

/// The arrow that the letters from A to D stand for.
pub open spec fn arrow(letter: u8) -> AKey {
    if letter == 0x41u8 /* A */ {
        AKey::Up
    } else if letter == 0x42u8 /* B */ {
        AKey::Down
    } else if letter == 0x43u8 /* C */ {
        AKey::Right
    } else {
        AKey::Left
    }
}

/// What `ESC` and two more bytes stand for.
pub open spec fn short_code(a: u8, b: u8) -> Decoded {
    decoded(seq![Some(ESC), Some(a), Some(b)])
}

/// What `ESC [` and two more bytes stand for.
pub open spec fn long_code(a: u8, b: Option<u8>) -> Decoded {
    decoded(seq![Some(ESC), Some(0x5bu8 /* [ */), Some(a), b])
}

/// The codes of the arrow keys end with a letter, the same for all kinds of terminals and with
/// Ctrl: `ESC [ A`, and with Ctrl `ESC [ 5 A`, `ESC [ 1 ; 5 A` or `ESC O a`.
pub proof fn law_arrow_codes(letter: u8)
    requires
        0x41u8 /* A */ <= letter <= 0x44u8 /* D */,
    ensures
        short_code(0x5bu8 /* [ */, letter) == Decoded::Pressed(Key::Arrow(arrow(letter))),
        long_code(0x35u8 /* 5 */, Some(letter)) == Decoded::Pressed(Key::CtrlArrow(arrow(letter))),
        decoded(
            seq![
                Some(ESC),
                Some(0x5bu8 /* [ */),
                Some(0x31u8 /* 1 */),
                Some(0x3bu8 /* ; */),
                Some(0x35u8 /* 5 */),
                Some(letter),
            ],
        ) == Decoded::Pressed(Key::CtrlArrow(arrow(letter))),
        short_code(0x4fu8 /* O */, (letter + 0x20) as u8) == Decoded::Pressed(
            Key::CtrlArrow(arrow(letter)),
        ),
{
    law_default_modifier(0x35u8, Some(letter));
    let short = seq![Some(ESC), Some(0x5bu8), Some(letter)];
    assert(short.skip(2) =~= seq![Some(letter)]);
    let long = seq![Some(ESC), Some(0x5bu8), Some(0x35u8), Some(letter)];
    assert(long.skip(2) =~= seq![Some(0x35u8), Some(letter)]);
}

/// The other special keys have a number and a tilde as their code, or a letter: 1, 7 and H stand
/// for Home, 4, 8 and F for End, 3 for Delete, 5 and 6 for the pages. What has no such form stands
/// for Escape.
pub proof fn law_number_codes(c: u8, d: Option<u8>)
    requires
        0x30u8 /* 0 */ <= c <= 0x38u8 /* 8 */,
        d != Some(0x3bu8 /* ; */),
        c == 0x35u8 /* 5 */ ==> !(d matches Some(l) && 0x41 <= l <= 0x44),
    ensures
        long_code(c, d) == Decoded::Pressed(
            if d != Some(0x7eu8 /* ~ */) {
                Key::Escape
            } else if c == 0x31u8 || c == 0x37u8 {
                Key::Home
            } else if c == 0x34u8 || c == 0x38u8 {
                Key::End
            } else if c == 0x33u8 {
                Key::Delete
            } else if c == 0x35u8 {
                Key::Page(PageKey::Up)
            } else if c == 0x36u8 {
                Key::Page(PageKey::Down)
            } else {
                Key::Escape
            },
        ),
        short_code(0x5bu8 /* [ */, 0x48u8 /* H */) == Decoded::Pressed(Key::Home),
        short_code(0x4fu8 /* O */, 0x48u8 /* H */) == Decoded::Pressed(Key::Home),
        short_code(0x5bu8 /* [ */, 0x46u8 /* F */) == Decoded::Pressed(Key::End),
        short_code(0x4fu8 /* O */, 0x46u8 /* F */) == Decoded::Pressed(Key::End),
{
    let long = seq![Some(ESC), Some(0x5bu8), Some(c), d];
    assert(long.skip(2) =~= seq![Some(c), d]);
    let home = seq![Some(ESC), Some(0x5bu8), Some(0x48u8)];
    assert(home.skip(2) =~= seq![Some(0x48u8)]);
    let end = seq![Some(ESC), Some(0x5bu8), Some(0x46u8)];
    assert(end.skip(2) =~= seq![Some(0x46u8)]);
}

/// Every byte but `ESC` is a key of its own, and `ESC` alone, or before another byte than `[` and
/// `O`, is the Escape key.
pub proof fn law_plain_bytes(c: u8, next: Option<u8>)
    ensures
        c != 0x1b ==> decoded(seq![Some(c)]) == Decoded::Pressed(Key::Char(c)),
        next != Some(0x5bu8 /* [ */) && next != Some(0x4fu8 /* O */) ==> decoded(
            seq![Some(0x1bu8), next],
        ) == Decoded::Pressed(Key::Escape),
        decoded(seq![None]) is Idle,
{
}

} // verus!
