//! What numbers, words and trimmed texts are.
use vstd::prelude::*;

use crate::text::{
    centred, decimal, digit, digit_value, digits_value, is_digit, is_white_space, lemma_trim_start,
    lemma_word_len, prefix, right_aligned, trim, trim_end, trim_start, unsigned_value, word_len, words, IntError,
};

verus! {

/// Whether all the characters are decimal digits.
pub open spec fn all_digits(d: Seq<char>) -> bool {
    forall|i: int| 0 <= i < d.len() ==> '0' <= #[trigger] d[i] <= '9'
}

/// The value of decimal digits: each counts ten times as much as the one behind it.
pub open spec fn value(d: Seq<char>) -> nat
    decreases d.len(),
{
    if d.len() == 0 {
        0
    } else {
        value(d.drop_last()) * 10 + (d.last() as nat - '0' as nat) as nat
    }
}

/// The decimal notation of a number is made of digits with the value of the number, and does not
/// begin with a zero, but for that of zero.
pub proof fn law_decimal(n: nat)
    ensures
        decimal(n).len() > 0,
        all_digits(decimal(n)),
        value(decimal(n)) == n,
        decimal(n)[0] == '0' ==> n == 0,
    decreases n,
{
    reveal_with_fuel(value, 2);
    if n < 10 {
        let d = decimal(n);
        assert(d.drop_last() =~= Seq::empty());
        assert(d.last() == digit(n));
    } else {
        law_decimal(n / 10);
        let d = decimal(n);
        assert(d.drop_last() =~= decimal(n / 10));
        assert(d.last() == digit(n % 10));
        assert forall|i: int| 0 <= i < d.len() implies '0' <= #[trigger] d[i] <= '9' by {
            if i < d.len() - 1 {
                assert(d[i] == decimal(n / 10)[i]);
            }
        }
        assert(d[0] == decimal(n / 10)[0]);
    }
}

/// A number that digits before `d` have, with `d` read behind them.
spec fn value_behind(d: Seq<char>, acc: nat) -> nat
    decreases d.len(),
{
    if d.len() == 0 {
        acc
    } else {
        value_behind(d.skip(1), acc * 10 + (d[0] as nat - '0' as nat) as nat)
    }
}

proof fn lemma_value_behind(d: Seq<char>, acc: nat)
    requires
        all_digits(d),
    ensures
        d.len() > 0 ==> value_behind(d, acc) == value_behind(d.drop_last(), acc) * 10 + (
        d.last() as nat - '0' as nat),
        value_behind(d, acc) >= acc,
    decreases d.len(),
{
    if d.len() == 1 {
        assert(d.skip(1) =~= Seq::empty());
        assert(d.drop_last() =~= Seq::empty());
        reveal_with_fuel(value_behind, 2);
    } else if d.len() > 1 {
        let acc1 = acc * 10 + (d[0] as nat - '0' as nat) as nat;
        assert(all_digits(d.skip(1))) by {
            assert forall|i: int| 0 <= i < d.len() - 1 implies '0' <= #[trigger] d.skip(1)[i]
                <= '9' by {
                assert(d.skip(1)[i] == d[i + 1]);
            }
        }
        lemma_value_behind(d.skip(1), acc1);
        assert(d.skip(1).drop_last() =~= d.drop_last().skip(1));
        assert(d.drop_last()[0] == d[0]);
    }
}

proof fn lemma_value(d: Seq<char>)
    requires
        all_digits(d),
    ensures
        value_behind(d, 0) == value(d),
    decreases d.len(),
{
    if d.len() > 0 {
        assert(all_digits(d.drop_last())) by {
            assert forall|i: int| 0 <= i < d.len() - 1 implies '0' <= #[trigger] d.drop_last()[i]
                <= '9' by {
                assert(d.drop_last()[i] == d[i]);
            }
        }
        lemma_value(d.drop_last());
        lemma_value_behind(d, 0);
        assert('0' <= d[d.len() - 1] <= '9');
    }
}

proof fn lemma_digits_value(d: Seq<char>, acc: nat, max: nat)
    requires
        acc <= max,
    ensures
        all_digits(d) ==> digits_value(d, acc, max) == if value_behind(d, acc) <= max {
            Ok::<nat, IntError>(value_behind(d, acc))
        } else {
            Err::<nat, IntError>(IntError::PosOverflow)
        },
        !all_digits(d) ==> digits_value(d, acc, max) is Err,
    decreases d.len(),
{
    if d.len() > 0 {
        let rest = d.skip(1);
        assert forall|i: int| 0 <= i < rest.len() implies rest[i] == #[trigger] d[i + 1] by {}
        if is_digit(d[0]) {
            let acc1 = acc * 10 + digit_value(d[0]);
            if acc1 <= max {
                lemma_digits_value(rest, acc1, max);
            } else if all_digits(d) {
                assert(all_digits(rest)) by {
                    assert forall|i: int| 0 <= i < rest.len() implies '0' <= #[trigger] rest[i]
                        <= '9' by {
                        assert(rest[i] == d[i + 1]);
                    }
                }
                lemma_value_behind(rest, acc1);
            }
            if all_digits(d) {
                assert forall|i: int| 0 <= i < rest.len() implies '0' <= #[trigger] rest[i]
                    <= '9' by {
                    assert(rest[i] == d[i + 1]);
                }
            } else if all_digits(rest) {
                assert forall|i: int| 0 <= i < d.len() implies '0' <= #[trigger] d[i] <= '9' by {
                    if i > 0 {
                        assert(rest[i - 1] == d[i]);
                    }
                }
            }
        } else {
            assert(!('0' <= d[0] <= '9'));
        }
    }
}

/// A text that is made of digits, with or without a sign `+` before them, is read as their value,
/// if that is not too large; no other text is read.
pub proof fn law_number_is_read(s: Seq<char>, max: nat)
    ensures
        ({
            let d = if s.len() > 1 && s[0] == '+' {
                s.skip(1)
            } else {
                s
            };
            match unsigned_value(s, max) {
                Ok(v) => d.len() > 0 && all_digits(d) && v == value(d) && v <= max,
                Err(e) => {
                    &&& d.len() == 0 || !all_digits(d) || value(d) > max
                    &&& e is Empty <==> s.len() == 0
                    &&& all_digits(d) && d.len() > 0 ==> e is PosOverflow
                },
            }
        }),
{
    let d = if s.len() > 1 && s[0] == '+' {
        s.skip(1)
    } else {
        s
    };
    lemma_digits_value(d, 0, max);
    if all_digits(d) {
        lemma_value(d);
    }
    lemma_no_empty_error(d, 0, max);
}

proof fn lemma_no_empty_error(d: Seq<char>, acc: nat, max: nat)
    ensures
        digits_value(d, acc, max) != Err::<nat, IntError>(IntError::Empty),
    decreases d.len(),
{
    if d.len() > 0 && is_digit(d[0]) && acc * 10 + digit_value(d[0]) <= max {
        lemma_no_empty_error(d.skip(1), acc * 10 + digit_value(d[0]), max);
    }
}

/// Of the ASCII characters the space and those from the tab to the carriage return are white space,
/// and no letter, digit or sign is.
pub proof fn law_white_space(c: char)
    requires
        c as u32 <= 0x7f,
    ensures
        is_white_space(c) <==> c == ' ' || 9 <= c as u32 <= 13,
{
}

/// Whether all the characters are white space.
pub open spec fn blank(s: Seq<char>) -> bool {
    forall|i: int| 0 <= i < s.len() ==> is_white_space(#[trigger] s[i])
}

/// Whether no character is white space.
pub open spec fn is_word(s: Seq<char>) -> bool {
    &&& s.len() > 0
    &&& forall|i: int| 0 <= i < s.len() ==> !is_white_space(#[trigger] s[i])
}

/// The white space at the end is cut off, and nothing else is.
pub proof fn law_trim_end(s: Seq<char>)
    ensures
        ({
            let n = trim_end(s).len() as int;
            &&& n <= s.len()
            &&& trim_end(s) == s.take(n)
            &&& blank(s.skip(n))
            &&& n > 0 ==> !is_white_space(s[n - 1])
        }),
    decreases s.len(),
{
    if s.len() > 0 && is_white_space(s.last()) {
        law_trim_end(s.drop_last());
        let n = trim_end(s).len() as int;
        assert(s.drop_last().take(n) =~= s.take(n));
        assert forall|i: int| 0 <= i < s.skip(n).len() implies is_white_space(
            #[trigger] s.skip(n)[i],
        ) by {
            if n + i < s.len() - 1 {
                assert(s.drop_last().skip(n)[i] == s[n + i]);
            }
        }
    } else {
        assert(s.take(s.len() as int) =~= s);
    }
}

/// The white space at the start is cut off, and nothing else is.
pub proof fn law_trim_start(s: Seq<char>)
    ensures
        ({
            let n = s.len() - trim_start(s).len();
            &&& 0 <= n
            &&& trim_start(s) == s.skip(n)
            &&& blank(s.take(n))
            &&& n < s.len() ==> !is_white_space(s[n])
        }),
    decreases s.len(),
{
    if s.len() > 0 && is_white_space(s[0]) {
        law_trim_start(s.skip(1));
        let n = s.len() - trim_start(s).len();
        assert(s.skip(1).skip(n - 1) =~= s.skip(n));
        assert forall|i: int| 0 <= i < s.take(n).len() implies is_white_space(
            #[trigger] s.take(n)[i],
        ) by {
            if i > 0 {
                assert(s.skip(1).take(n - 1)[i - 1] == s[i]);
            }
        }
    } else {
        assert(s.skip(0) =~= s);
    }
}

/// A text between white space is what trimming leaves, if it neither begins nor ends with white
/// space.
pub proof fn law_trim(a: Seq<char>, s: Seq<char>, b: Seq<char>)
    requires
        blank(a),
        blank(b),
        s.len() > 0,
        !is_white_space(s[0]),
        !is_white_space(s.last()),
    ensures
        trim(a + s + b) == s,
{
    let t = a + s + b;
    law_trim_start(t);
    let n = t.len() - trim_start(t).len();
    assert(n == a.len()) by {
        if n < a.len() {
            assert(t[n] == a[n]);
        } else if n > a.len() {
            assert(t.take(n)[a.len() as int] == s[0]);
        }
    }
    assert(trim_start(t) =~= s + b);
    let u = s + b;
    law_trim_end(u);
    let m = trim_end(u).len() as int;
    assert(m == s.len()) by {
        if m < s.len() {
            assert(u.skip(m)[s.len() - 1 - m] == s.last());
        } else if m > s.len() {
            assert(u[m - 1] == b[m - 1 - s.len()]);
        }
    }
    assert(u.take(m) =~= s);
}

proof fn lemma_word_len_exact(s: Seq<char>, n: nat)
    requires
        n <= s.len(),
        forall|i: int| 0 <= i < n ==> !is_white_space(#[trigger] s[i]),
        n < s.len() ==> is_white_space(s[n as int]),
    ensures
        word_len(s) == n,
    decreases s.len(),
{
    if n > 0 {
        let rest = s.skip(1);
        assert forall|i: int| 0 <= i < n - 1 implies !is_white_space(#[trigger] rest[i]) by {
            assert(rest[i] == s[i + 1]);
        }
        lemma_word_len_exact(rest, (n - 1) as nat);
    }
}

/// A text without white space is one word, and a text of white space has none.
pub proof fn law_one_word(s: Seq<char>)
    ensures
        is_word(s) ==> words(s) == seq![s],
        blank(s) ==> words(s) == Seq::<Seq<char>>::empty(),
{
    law_trim_start(s);
    let n = s.len() - trim_start(s).len();
    if is_word(s) {
        assert(n == 0) by {
            if n > 0 {
                assert(s.take(n)[0] == s[0]);
            }
        }
        assert(trim_start(s) =~= s);
        lemma_word_len_exact(s, s.len());
        assert(s.skip(s.len() as int) =~= Seq::empty());
        assert(s.take(s.len() as int) =~= s);
        assert(words(Seq::<char>::empty()) =~= seq![]);
        assert(words(s) =~= seq![s]);
    }
    if blank(s) {
        assert(trim_start(s).len() == 0);
        assert(words(s) =~= Seq::<Seq<char>>::empty());
    }
}

/// White space separates words: the words of two texts with white space between them are those of
/// the first and then those of the second.
pub proof fn law_words_separated(a: Seq<char>, c: char, b: Seq<char>)
    requires
        is_white_space(c),
    ensures
        words(a + seq![c] + b) == words(a) + words(b),
    decreases a.len(),
{
    let s = a + seq![c] + b;
    law_trim_start(a);
    law_trim_start(s);
    let n = a.len() - trim_start(a).len();
    let m = s.len() - trim_start(s).len();
    let ta = trim_start(a);
    let ts = trim_start(s);
    if ta.len() == 0 {
        // Only white space stands before `b`
        assert(words(a) =~= seq![]);
        law_trim_start(b);
        let k = b.len() - trim_start(b).len();
        assert(m == a.len() + 1 + k) by {
            if m <= a.len() + k {
                if m < a.len() {
                    assert(s[m] == a[m]);
                    assert(a.take(n)[m] == a[m]);
                } else if m > a.len() {
                    assert(s[m] == b[m - a.len() - 1]);
                    assert(b.take(k)[m - a.len() - 1] == b[m - a.len() - 1]);
                }
            } else if m > a.len() + 1 + k {
                assert(s.take(m)[a.len() + 1 + k] == b[k]);
            }
        }
        assert(ts =~= trim_start(b));
        assert(words(s) =~= words(a) + words(b));
    } else {
        assert(m == n) by {
            if m < n {
                assert(a.take(n)[m] == s[m]);
            } else if m > n {
                assert(s.take(m)[n] == a[n]);
            }
        }
        assert(ts =~= ta + seq![c] + b);
        lemma_word_len(ta);
        let w = word_len(ta);
        lemma_word_chars(ta);
        assert(word_len(ts) == w) by {
            assert forall|i: int| 0 <= i < w implies !is_white_space(#[trigger] ts[i]) by {
                assert(ts[i] == ta[i]);
            }
            if w < ta.len() {
                assert(ts[w as int] == ta[w as int]);
            } else {
                assert(ts[w as int] == c);
            }
            lemma_word_len_exact(ts, w);
        }
        lemma_trim_start(a);
        assert(w > 0);
        let rest = ta.skip(w as int);
        assert(ts.skip(w as int) =~= rest + seq![c] + b);
        assert(ts.take(w as int) =~= ta.take(w as int));
        law_words_separated(rest, c, b);
        assert(words(s) =~= words(a) + words(b));
    }
}

proof fn lemma_word_chars(s: Seq<char>)
    ensures
        word_len(s) <= s.len(),
        forall|i: int| 0 <= i < word_len(s) ==> !is_white_space(#[trigger] s[i]),
        word_len(s) < s.len() ==> is_white_space(s[word_len(s) as int]),
    decreases s.len(),
{
    if s.len() > 0 && !is_white_space(s[0]) {
        let rest = s.skip(1);
        lemma_word_chars(rest);
        assert forall|i: int| 0 <= i < word_len(s) implies !is_white_space(#[trigger] s[i]) by {
            if i > 0 {
                assert(rest[i - 1] == s[i]);
            }
        }
    }
}

/// Whether all the characters are spaces.
pub open spec fn spaces(s: Seq<char>) -> bool {
    forall|i: int| 0 <= i < s.len() ==> #[trigger] s[i] == ' '
}

/// A text that fits fills its field with spaces: before it if it is aligned to the right; on both
/// sides if it is centred, on the right as many as on the left, or one more.
pub proof fn law_alignment(s: Seq<char>, width: nat)
    requires
        s.len() <= width,
    ensures
        ({
            let n = width - s.len();
            &&& right_aligned(s, width).len() == width
            &&& right_aligned(s, width).skip(n) == s
            &&& spaces(right_aligned(s, width).take(n))
            &&& centred(s, width).len() == width
            &&& centred(s, width).subrange(n / 2, n / 2 + s.len()) == s
            &&& spaces(centred(s, width).take(n / 2))
            &&& spaces(centred(s, width).skip(n / 2 + s.len()))
        }),
{
    let n = width - s.len();
    assert(right_aligned(s, width).skip(n) =~= s);
    assert(centred(s, width).subrange(n / 2, n / 2 + s.len()) =~= s);
}

/// Of a text as many characters are taken as there is room for.
pub proof fn law_prefix(s: Seq<char>, n: nat)
    ensures
        s.len() <= n ==> prefix(s, n) == s,
        s.len() > n ==> prefix(s, n) == s.take(n as int),
{
    assert(s.take(s.len() as int) =~= s);
}

} // verus!
