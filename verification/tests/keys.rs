use kibi::keys::{
    ctrl_key, decode_key, AKey, Decoded, Key, PageKey, DELETE_BIS, DUPLICATE, EXECUTE, EXIT, FIND,
    GOTO, REFRESH_REPLICA, REFRESH_SCREEN, REMOVE_LINE, SAVE, SAVE_AS,
};

fn decoded(bytes: &[u8]) -> Decoded {
    decode_key(&bytes.iter().map(|b| Some(*b)).collect())
}

#[test]
fn commands_are_letters_with_ctrl() {
    let commands = [
        (EXIT, b'Q'),
        (DELETE_BIS, b'H'),
        (REFRESH_SCREEN, b'L'),
        (REFRESH_REPLICA, b'P'),
        (SAVE, b'S'),
        (SAVE_AS, b'N'),
        (FIND, b'F'),
        (GOTO, b'G'),
        (DUPLICATE, b'D'),
        (EXECUTE, b'E'),
        (REMOVE_LINE, b'R'),
    ];
    for (command, letter) in commands {
        assert_eq!(command, ctrl_key(letter));
    }
}

#[test]
fn codes_of_keys() {
    let keys: [(&[u8], Key); 27] = [
        (b"a", Key::Char(b'a')),
        (b"\x1b[A", Key::Arrow(AKey::Up)),
        (b"\x1b[B", Key::Arrow(AKey::Down)),
        (b"\x1b[C", Key::Arrow(AKey::Right)),
        (b"\x1b[D", Key::Arrow(AKey::Left)),
        (b"\x1b[H", Key::Home),
        (b"\x1bOH", Key::Home),
        (b"\x1b[1~", Key::Home),
        (b"\x1b[7~", Key::Home),
        (b"\x1b[F", Key::End),
        (b"\x1bOF", Key::End),
        (b"\x1b[4~", Key::End),
        (b"\x1b[8~", Key::End),
        (b"\x1b[3~", Key::Delete),
        (b"\x1b[5~", Key::Page(PageKey::Up)),
        (b"\x1b[6~", Key::Page(PageKey::Down)),
        (b"\x1b[1;5A", Key::CtrlArrow(AKey::Up)),
        (b"\x1b[1;5B", Key::CtrlArrow(AKey::Down)),
        (b"\x1b[5C", Key::CtrlArrow(AKey::Right)),
        (b"\x1b[1;5C", Key::CtrlArrow(AKey::Right)),
        (b"\x1b[1;5D", Key::CtrlArrow(AKey::Left)),
        (b"\x1bOa", Key::CtrlArrow(AKey::Up)),
        (b"\x1bOb", Key::CtrlArrow(AKey::Down)),
        (b"\x1bOc", Key::CtrlArrow(AKey::Right)),
        (b"\x1bOd", Key::CtrlArrow(AKey::Left)),
        (b"\x1bx", Key::Escape),
        (b"\x1b[9", Key::Escape),
    ];
    for (bytes, key) in keys {
        assert_eq!(decoded(bytes), Decoded::Pressed(key));
        // No part of a code is a key
        for n in 0..bytes.len() {
            assert_eq!(decoded(&bytes[..n]), Decoded::More);
        }
    }
}

#[test]
fn codes_that_stand_for_no_key() {
    assert_eq!(decoded(b"\x1b[2~"), Decoded::Pressed(Key::Escape));
    assert_eq!(decoded(b"\x1bOA"), Decoded::Pressed(Key::Escape));
    assert_eq!(decoded(b"\x1b[1;2A"), Decoded::Pressed(Key::Escape));
}

#[test]
fn nothing_was_read() {
    assert_eq!(decode_key(&vec![None]), Decoded::Idle);
    assert_eq!(decode_key(&vec![Some(0x1b), None]), Decoded::Pressed(Key::Escape));
    assert_eq!(decode_key(&vec![Some(0x1b), Some(b'['), None]), Decoded::Pressed(Key::Escape));
    assert_eq!(
        decode_key(&vec![Some(0x1b), Some(b'['), Some(b'5'), None]),
        Decoded::Pressed(Key::Escape)
    );
}

#[test]
fn a_key_is_not_changed_by_what_follows() {
    assert_eq!(decoded(b"\x1b[Axyz"), Decoded::Pressed(Key::Arrow(AKey::Up)));
    assert_eq!(decoded(b"ab"), Decoded::Pressed(Key::Char(b'a')));
}
