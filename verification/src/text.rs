//! Characters and strings: decimal numbers, padding, trimming and splitting.
//!
//! A string is modelled as the sequence of its characters.
use vstd::prelude::*;

verus! {

/// `String::push`: the character is appended.
pub assume_specification[ String::push ](s: &mut String, c: char)
    ensures
        final(s)@ == old(s)@.push(c),
;

/// `String::pop`: the last character is removed and returned; an empty string stays as it is.
pub assume_specification[ String::pop ](s: &mut String) -> (r: Option<char>)
    ensures
        old(s)@.len() == 0 ==> r is None && final(s)@ == old(s)@,
        old(s)@.len() > 0 ==> r == Some(old(s)@.last()) && final(s)@ == old(s)@.drop_last(),
;

/// The character of a decimal digit.
pub open spec fn digit(d: nat) -> char {
    (48 + d) as char
}

/// The value of a decimal digit.
pub open spec fn digit_value(c: char) -> nat {
    (c as nat - 48) as nat
}

pub open spec fn is_digit(c: char) -> bool {
    '0' <= c <= '9'
}

/// The decimal notation of `n`, without leading zeros.
pub open spec fn decimal(n: nat) -> Seq<char>
    decreases n,
{
    if n < 10 {
        seq![digit(n)]
    } else {
        decimal(n / 10).push(digit(n % 10))
    }
}

/// `n` times the character `c`.
pub open spec fn repeated(c: char, n: nat) -> Seq<char> {
    Seq::new(n, |i: int| c)
}

/// The first `n` characters of `s`, or all of them.
pub open spec fn prefix(s: Seq<char>, n: nat) -> Seq<char> {
    if n <= s.len() {
        s.take(n as int)
    } else {
        s
    }
}

/// `s` aligned to the right in a field of `width` columns.
pub open spec fn right_aligned(s: Seq<char>, width: nat) -> Seq<char> {
    repeated(' ', if width > s.len() { (width - s.len()) as nat } else { 0 }) + s
}

/// `s` centred in a field of `width` columns; an odd column goes to the right.
pub open spec fn centred(s: Seq<char>, width: nat) -> Seq<char> {
    let pad = if width > s.len() { (width - s.len()) as nat } else { 0 };
    repeated(' ', pad / 2) + s + repeated(' ', (pad + 1) as nat / 2)
}

/// Appends the decimal notation of `n`.
pub fn push_decimal(s: &mut String, n: u64)
    ensures
        final(s)@ == old(s)@ + decimal(n as nat),
    decreases n,
{
    if n >= 10 {
        push_decimal(s, n / 10);
    }
    let c: char = (48u8 + (n % 10) as u8) as char;
    s.push(c);
}

/// The decimal notation of `n`.
pub fn decimal_string(n: u64) -> (r: String)
    ensures
        r@ == decimal(n as nat),
{
    let mut s = String::new();
    push_decimal(&mut s, n);
    s
}

/// Appends `n` times the character `c`.
pub fn push_repeated(s: &mut String, c: char, n: usize)
    ensures
        final(s)@ == old(s)@ + repeated(c, n as nat),
{
    let mut i: usize = 0;
    while i < n
        invariant
            i <= n,
            s@ == old(s)@ + repeated(c, i as nat),
        decreases n - i,
    {
        s.push(c);
        i = i + 1;
    }
}

/// Appends at most `n` characters of `text`.
pub fn push_prefix(s: &mut String, text: &str, n: usize)
    ensures
        final(s)@ == old(s)@ + prefix(text@, n as nat),
{
    if n <= text.unicode_len() {
        s.append(text.substring_char(0, n));
    } else {
        s.append(text);
    }
}

/// Appends `text` aligned to the right in a field of `width` columns.
pub fn push_right_aligned(s: &mut String, text: &str, width: usize)
    ensures
        final(s)@ == old(s)@ + right_aligned(text@, width as nat),
{
    let len = text.unicode_len();
    if width > len {
        push_repeated(s, ' ', width - len);
    }
    s.append(text);
}

/// Appends `text` centred in a field of `width` columns.
pub fn push_centred(s: &mut String, text: &str, width: usize)
    ensures
        final(s)@ == old(s)@ + centred(text@, width as nat),
{
    let len = text.unicode_len();
    let pad: usize = if width > len { width - len } else { 0 };
    push_repeated(s, ' ', pad / 2);
    s.append(text);
    push_repeated(s, ' ', pad - pad / 2);
}

/// The characters of a string.
pub fn chars_of(s: &str) -> (r: Vec<char>)
    ensures
        r@ == s@,
{
    let mut r: Vec<char> = Vec::new();
    for c in it: s.chars()
        invariant
            it.seq() == s@,
            r@ == s@.take(it.index() as int),
    {
        r.push(c);
    }
    r
}

/// The string made of the characters from `from` up to `to`.
pub fn string_of(chars: &Vec<char>, from: usize, to: usize) -> (r: String)
    requires
        from <= to <= chars@.len(),
    ensures
        r@ == chars@.subrange(from as int, to as int),
{
    let mut s = String::new();
    let mut i: usize = from;
    while i < to
        invariant
            from <= i <= to <= chars@.len(),
            s@ == chars@.subrange(from as int, i as int),
        decreases to - i,
    {
        s.push(chars[i]);
        i = i + 1;
    }
    s
}

/// The characters with the Unicode property `White_Space`.
pub open spec fn is_white_space(c: char) -> bool {
    ||| '\u{9}' <= c <= '\u{d}'
    ||| c == ' '
    ||| c == '\u{85}'
    ||| c == '\u{a0}'
    ||| c == '\u{1680}'
    ||| '\u{2000}' <= c <= '\u{200a}'
    ||| c == '\u{2028}'
    ||| c == '\u{2029}'
    ||| c == '\u{202f}'
    ||| c == '\u{205f}'
    ||| c == '\u{3000}'
}

/// `s` without the white space at its start.
pub open spec fn trim_start(s: Seq<char>) -> Seq<char>
    decreases s.len(),
{
    if s.len() > 0 && is_white_space(s[0]) {
        trim_start(s.skip(1))
    } else {
        s
    }
}

/// `s` without the white space at its end.
pub open spec fn trim_end(s: Seq<char>) -> Seq<char>
    decreases s.len(),
{
    if s.len() > 0 && is_white_space(s.last()) {
        trim_end(s.drop_last())
    } else {
        s
    }
}

/// `s` without the white space at either end.
pub open spec fn trim(s: Seq<char>) -> Seq<char> {
    trim_end(trim_start(s))
}

/// How many characters of `s` come before the first white space.
pub open spec fn word_len(s: Seq<char>) -> nat
    decreases s.len(),
{
    if s.len() == 0 || is_white_space(s[0]) {
        0
    } else {
        1 + word_len(s.skip(1))
    }
}

pub proof fn lemma_word_len(s: Seq<char>)
    ensures
        word_len(s) <= s.len(),
    decreases s.len(),
{
    if s.len() > 0 && !is_white_space(s[0]) {
        lemma_word_len(s.skip(1));
    }
}

pub proof fn lemma_trim_start(s: Seq<char>)
    ensures
        trim_start(s).len() <= s.len(),
        trim_start(s).len() > 0 ==> !is_white_space(trim_start(s)[0]),
    decreases s.len(),
{
    if s.len() > 0 && is_white_space(s[0]) {
        lemma_trim_start(s.skip(1));
    }
}

/// The words of `s`: its longest runs of characters that are no white space, in order.
pub open spec fn words(s: Seq<char>) -> Seq<Seq<char>>
    decreases s.len(),
{
    let t = trim_start(s);
    proof {
        lemma_trim_start(s);
        lemma_word_len(t);
    }
    if t.len() == 0 {
        seq![]
    } else {
        seq![t.take(word_len(t) as int)] + words(t.skip(word_len(t) as int))
    }
}

/// Whether `c` is white space.
pub fn white_space(c: char) -> (r: bool)
    ensures
        r == is_white_space(c),
{
    ('\u{9}' <= c && c <= '\u{d}') || c == ' ' || c == '\u{85}' || c == '\u{a0}' || c == '\u{1680}'
        || ('\u{2000}' <= c && c <= '\u{200a}') || c == '\u{2028}' || c == '\u{2029}'
        || c == '\u{202f}' || c == '\u{205f}' || c == '\u{3000}'
}

/// Where the text of `chars[from..to]` begins, behind its leading white space.
fn text_start(chars: &Vec<char>, from: usize, to: usize) -> (r: usize)
    requires
        from <= to <= chars@.len(),
    ensures
        from <= r <= to,
        chars@.subrange(r as int, to as int) == trim_start(chars@.subrange(from as int, to as int)),
{
    let mut i: usize = from;
    while i < to && white_space(chars[i])
        invariant
            from <= i <= to <= chars@.len(),
            trim_start(chars@.subrange(i as int, to as int)) == trim_start(
                chars@.subrange(from as int, to as int),
            ),
        decreases to - i,
    {
        assert(chars@.subrange(i as int, to as int).skip(1) == chars@.subrange(i + 1, to as int));
        i = i + 1;
    }
    i
}

/// Where the text of `chars[from..to]` ends, before its trailing white space.
fn text_end(chars: &Vec<char>, from: usize, to: usize) -> (r: usize)
    requires
        from <= to <= chars@.len(),
    ensures
        from <= r <= to,
        chars@.subrange(from as int, r as int) == trim_end(chars@.subrange(from as int, to as int)),
{
    let mut i: usize = to;
    while i > from && white_space(chars[i - 1])
        invariant
            from <= i <= to <= chars@.len(),
            trim_end(chars@.subrange(from as int, i as int)) == trim_end(
                chars@.subrange(from as int, to as int),
            ),
        decreases i - from,
    {
        assert(chars@.subrange(from as int, i as int).drop_last() == chars@.subrange(
            from as int,
            i - 1,
        ));
        i = i - 1;
    }
    i
}

/// The characters of `chars[from..to]` without the white space at either end.
pub fn trimmed(chars: &Vec<char>, from: usize, to: usize) -> (r: String)
    requires
        from <= to <= chars@.len(),
    ensures
        r@ == trim(chars@.subrange(from as int, to as int)),
{
    let start = text_start(chars, from, to);
    let end = text_end(chars, start, to);
    string_of(chars, start, end)
}

/// `s` without the white space at its end.
pub fn trimmed_end(s: &str) -> (r: String)
    ensures
        r@ == trim_end(s@),
{
    let chars = chars_of(s);
    assert(chars@.subrange(0, chars@.len() as int) == s@);
    let end = text_end(&chars, 0, chars.len());
    string_of(&chars, 0, end)
}

/// The words of a list of strings.
pub open spec fn views(v: Seq<String>) -> Seq<Seq<char>> {
    v.map_values(|s: String| s@)
}

/// Splits `s` into its words.
pub fn split_words(s: &str) -> (r: Vec<String>)
    ensures
        views(r@) == words(s@),
{
    let chars = chars_of(s);
    let n = chars.len();
    let mut r: Vec<String> = Vec::new();
    let mut i: usize = 0;
    assert(chars@.subrange(0, n as int) == s@);
    assert(views(r@) + words(s@) == words(s@));
    loop
        invariant
            n == chars@.len(),
            i <= n,
            views(r@) + words(chars@.subrange(i as int, n as int)) == words(s@),
        ensures
            views(r@) == words(s@),
        decreases n - i,
    {
        let start = text_start(&chars, i, n);
        let ghost t = chars@.subrange(start as int, n as int);
        proof {
            lemma_trim_start(chars@.subrange(i as int, n as int));
            lemma_word_len(t);
        }
        if start == n {
            assert(views(r@) == words(s@));
            break;
        }
        let mut end: usize = start;
        while end < n && !white_space(chars[end])
            invariant
                start <= end <= n,
                n == chars@.len(),
                t == chars@.subrange(start as int, n as int),
                word_len(t) == (end - start) + word_len(chars@.subrange(end as int, n as int)),
            decreases n - end,
        {
            assert(chars@.subrange(end as int, n as int).skip(1) == chars@.subrange(end + 1, n as int));
            end = end + 1;
        }
        let word = string_of(&chars, start, end);
        let ghost before = views(r@);
        r.push(word);
        proof {
            assert(word_len(t) == end - start);
            assert(t.take(word_len(t) as int) == word@);
            assert(t.skip(word_len(t) as int) == chars@.subrange(end as int, n as int));
            assert(views(r@) == before.push(word@));
            assert(views(r@) + words(chars@.subrange(end as int, n as int)) == before + words(
                chars@.subrange(i as int, n as int),
            ));
        }
        i = end;
    }
    r
}

/// Why a text is no number.
#[derive(Clone, Copy, PartialEq, Eq, Structural, Debug)]
pub enum IntError {
    /// There is no text.
    Empty,
    /// A character is no digit.
    InvalidDigit,
    /// The number is above the largest one accepted.
    PosOverflow,
}

impl IntError {
    pub open spec fn text(self) -> Seq<char> {
        match self {
            IntError::Empty => "cannot parse integer from empty string"@,
            IntError::InvalidDigit => "invalid digit found in string"@,
            IntError::PosOverflow => "number too large to fit in target type"@,
        }
    }

    /// The message for the error.
    pub fn message(&self) -> (r: String)
        ensures
            r@ == self.text(),
    {
        match self {
            IntError::Empty => "cannot parse integer from empty string".to_string(),
            IntError::InvalidDigit => "invalid digit found in string".to_string(),
            IntError::PosOverflow => "number too large to fit in target type".to_string(),
        }
    }
}

/// Reads digits from left to right behind a number that has the value `acc`. The first
/// character that is no digit, or that takes the number above `max`, gives the error.
pub open spec fn digits_value(d: Seq<char>, acc: nat, max: nat) -> Result<nat, IntError>
    decreases d.len(),
{
    if d.len() == 0 {
        Ok(acc)
    } else if !is_digit(d[0]) {
        Err(IntError::InvalidDigit)
    } else if acc * 10 + digit_value(d[0]) > max {
        Err(IntError::PosOverflow)
    } else {
        digits_value(d.skip(1), acc * 10 + digit_value(d[0]), max)
    }
}

/// The number that `s` denotes, a sign `+` being allowed in front of its digits.
pub open spec fn unsigned_value(s: Seq<char>, max: nat) -> Result<nat, IntError> {
    if s.len() == 0 {
        Err(IntError::Empty)
    } else if s.len() > 1 && s[0] == '+' {
        digits_value(s.skip(1), 0, max)
    } else {
        digits_value(s, 0, max)
    }
}

/// Reads a number of at most `max`.
pub fn parse_unsigned(s: &str, max: u64) -> (r: Result<u64, IntError>)
    ensures
        match r {
            Ok(v) => unsigned_value(s@, max as nat) == Ok::<nat, IntError>(v as nat) && v <= max,
            Err(e) => unsigned_value(s@, max as nat) == Err::<nat, IntError>(e),
        },
{
    let chars = chars_of(s);
    let n = chars.len();
    if n == 0 {
        return Err(IntError::Empty);
    }
    let start: usize = if n > 1 && chars[0] == '+' { 1 } else { 0 };
    let mut i: usize = start;
    let mut acc: u64 = 0;
    assert(chars@.subrange(0, n as int) == s@);
    assert(chars@.subrange(1, n as int) == s@.skip(1));
    while i < n
        invariant
            n == chars@.len(),
            start <= i <= n,
            acc <= max,
            digits_value(chars@.subrange(start as int, n as int), 0, max as nat) == digits_value(
                chars@.subrange(i as int, n as int),
                acc as nat,
                max as nat,
            ),
            unsigned_value(s@, max as nat) == digits_value(
                chars@.subrange(start as int, n as int),
                0,
                max as nat,
            ),
        decreases n - i,
    {
        let c = chars[i];
        let ghost rest = chars@.subrange(i as int, n as int);
        assert(rest[0] == c);
        assert(rest.skip(1) == chars@.subrange(i + 1, n as int));
        if c < '0' || c > '9' {
            return Err(IntError::InvalidDigit);
        }
        let d: u64 = c as u64 - 48;
        if acc > max / 10 || d > max - acc * 10 {
            return Err(IntError::PosOverflow);
        }
        acc = acc * 10 + d;
        i = i + 1;
    }
    Ok(acc)
}

/// Reading on behind a part that was read.
proof fn lemma_digits_concat(a: Seq<char>, b: Seq<char>, acc: nat, max: nat)
    ensures
        match digits_value(a, acc, max) {
            Ok(v) => digits_value(a + b, acc, max) == digits_value(b, v, max),
            Err(e) => digits_value(a + b, acc, max) == Err::<nat, IntError>(e),
        },
    decreases a.len(),
{
    if a.len() == 0 {
        assert(a + b == b);
    } else {
        assert((a + b)[0] == a[0]);
        assert((a + b).skip(1) == a.skip(1) + b);
        if is_digit(a[0]) && acc * 10 + digit_value(a[0]) <= max {
            lemma_digits_concat(a.skip(1), b, acc * 10 + digit_value(a[0]), max);
        }
    }
}

proof fn lemma_decimal_digits(n: nat, max: nat)
    requires
        n <= max,
    ensures
        digits_value(decimal(n), 0, max) == Ok::<nat, IntError>(n),
        decimal(n).len() > 0,
        is_digit(decimal(n)[0]),
    decreases n,
{
    if n < 10 {
        reveal_with_fuel(digits_value, 2);
        assert(decimal(n).skip(1).len() == 0);
    } else {
        lemma_decimal_digits(n / 10, max);
        let last = seq![digit(n % 10)];
        lemma_digits_concat(decimal(n / 10), last, 0, max);
        assert(decimal(n) == decimal(n / 10) + last);
        reveal_with_fuel(digits_value, 2);
        assert(last.skip(1).len() == 0);
    }
}

/// Reading the decimal notation of a number gives the number back.
pub proof fn lemma_decimal_round_trip(n: nat, max: nat)
    requires
        n <= max,
    ensures
        unsigned_value(decimal(n), max) == Ok::<nat, IntError>(n),
{
    lemma_decimal_digits(n, max);
}

} // verus!
