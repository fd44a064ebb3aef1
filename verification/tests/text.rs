use kibi::search::slice_find;
use kibi::text::{
    chars_of, decimal_string, parse_unsigned, push_centred, push_prefix, push_right_aligned,
    split_words, trimmed, trimmed_end, IntError,
};

#[test]
fn numbers_are_read_as_std_reads_them() {
    let texts = [
        "", "0", "7", "007", "255", "256", "+5", "+", "-", "-1", "12a", "a12", " 1", "1 ", "999999",
        "2x999", "\u{661}", "++1",
    ];
    for text in texts {
        let ours = parse_unsigned(text, 255);
        match text.parse::<u8>() {
            Ok(v) => assert_eq!(ours, Ok(v as u64)),
            Err(e) => assert_eq!(ours.unwrap_err().message(), e.to_string()),
        }
    }
    let max = u64::MAX.to_string();
    assert_eq!(parse_unsigned(&max, u64::MAX), Ok(u64::MAX));
    assert_eq!(parse_unsigned("18446744073709551616", u64::MAX), Err(IntError::PosOverflow));
}

#[test]
fn decimal_notation() {
    for n in [0, 9, 10, 99, 100, 12345, u64::MAX] {
        assert_eq!(decimal_string(n), n.to_string());
        assert_eq!(parse_unsigned(&decimal_string(n), u64::MAX), Ok(n));
    }
}

#[test]
fn words_and_white_space() {
    for text in ["", "  ", "ls", " ls  -l\t/tmp \n", "a\u{a0}b\u{3000}c", "\u{200b}x"] {
        let words: Vec<String> = text.split_whitespace().map(|w| w.to_string()).collect();
        assert_eq!(split_words(text), words);
        let chars = chars_of(text);
        assert_eq!(trimmed(&chars, 0, chars.len()), text.trim());
        assert_eq!(trimmed_end(text), text.trim_end());
    }
}

#[test]
fn padding_and_cutting() {
    for text in ["", "abc", "h\u{e9}llo", "a long text"] {
        for width in [0, 1, 4, 5, 8, 20] {
            let mut s = String::new();
            push_right_aligned(&mut s, text, width);
            assert_eq!(s, format!("{:>1$}", text, width));
            let mut s = String::new();
            push_centred(&mut s, text, width);
            assert_eq!(s, format!("{:^1$}", text, width));
            let mut s = String::new();
            push_prefix(&mut s, text, width);
            assert_eq!(s, format!("{:.1$}", text, width));
        }
    }
}

#[test]
fn the_first_place_of_a_needle() {
    assert_eq!(slice_find(&[1, 2, 3, 2, 3], &[2, 3]), Some(1));
    assert_eq!(slice_find(&[1, 2, 3], &[]), Some(0));
    assert_eq!(slice_find(&[1, 2, 3], &[3]), Some(2));
    assert_eq!(slice_find(&[1, 2, 3], &[3, 4]), None);
    assert_eq!(slice_find(&[1], &[1, 2]), None);
    assert_eq!(slice_find::<u8>(&[], &[]), Some(0));
    assert_eq!(slice_find::<u8>(&[], &[1]), None);
}
