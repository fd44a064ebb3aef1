//! Sizes in bytes, written for people.
use vstd::prelude::*;

use crate::text::{decimal, digit, push_decimal};

verus! {

/// How often `n` can be divided by 1024: the largest `i` for which 1024 to the power `i` is
/// at most `n`.
pub open spec fn unit(n: nat) -> nat
    decreases n,
{
    if n < 1024 {
        0
    } else {
        1 + unit(n / 1024)
    }
}

/// 1024 to the power `i`.
pub open spec fn power_of_1024(i: nat) -> nat
    decreases i,
{
    if i == 0 {
        1
    } else {
        1024 * power_of_1024((i - 1) as nat)
    }
}

/// The letter in front of the `B` for the unit 1024 to the power `i`.
pub open spec fn unit_letter(i: nat) -> char {
    " kMGTPEZ"@[i as int]
}

/// A number below 100 with two digits.
pub open spec fn two_digits(n: nat) -> Seq<char> {
    seq![digit(n / 10), digit(n % 10)]
}

/// A size below 1024 is written in bytes; a larger one in the largest unit that it reaches,
/// with two decimal places, rounded down.
pub open spec fn size_text(n: nat) -> Seq<char> {
    if n < 1024 {
        decimal(n) + "B"@
    } else {
        let hundredths = 100 * n / power_of_1024(unit(n));
        decimal(hundredths / 100) + "."@ + two_digits(hundredths % 100) + seq![
            unit_letter(unit(n)),
        ] + "B"@
    }
}

/// The unit that a size reaches is the one between whose power and the next it lies.
pub proof fn lemma_unit(n: nat)
    requires
        n > 0,
    ensures
        power_of_1024(unit(n)) <= n < power_of_1024(unit(n) + 1),
    decreases n,
{
    reveal_with_fuel(power_of_1024, 2);
    if n >= 1024 {
        lemma_unit(n / 1024);
        let p = power_of_1024(unit(n / 1024));
        assert(power_of_1024(unit(n)) == 1024 * p);
    }
}

proof fn lemma_unit_bound(n: nat)
    requires
        n <= u64::MAX,
    ensures
        unit(n) <= 6,
{
    reveal_with_fuel(unit, 8);
}

/// Pretty-format a size in bytes.
pub fn format_size(n: u64) -> (r: String)
    requires
        100 * n <= u64::MAX,
    ensures
        r@ == size_text(n as nat),
{
    let mut s = String::new();
    if n < 1024 {
        push_decimal(&mut s, n);
        s.append("B");
        return s;
    }
    let mut m: u64 = n;
    let mut i: usize = 0;
    let mut power: u64 = 1;
    while m >= 1024
        invariant
            unit(n as nat) == i + unit(m as nat),
            power == power_of_1024(i as nat),
            power * m <= n,
            m >= 1,
            i <= n,
        decreases m,
    {
        let ghost before = m;
        let ghost old_power = power;
        assert(power * 1024 <= n) by (nonlinear_arith)
            requires
                power * m <= n,
                m >= 1024,
        ;
        m = m / 1024;
        power = power * 1024;
        proof {
            reveal_with_fuel(power_of_1024, 2);
            lemma_unit_bound(n as nat);
        }
        assert(power * m <= n) by (nonlinear_arith)
            requires
                old_power * before <= n,
                m == before / 1024,
                power == old_power * 1024,
        ;
        i = i + 1;
    }
    proof {
        lemma_unit_bound(n as nat);
    }
    assert(i == unit(n as nat));
    assert(power > 0) by {
        lemma_power_positive(i as nat);
    }
    let q: u64 = 100 * n / power;
    push_decimal(&mut s, q / 100);
    s.append(".");
    s.push((48u8 + (q % 100 / 10) as u8) as char);
    s.push((48u8 + (q % 10) as u8) as char);
    assert(q % 100 % 10 == q % 10);
    proof {
        reveal_strlit(" kMGTPEZ");
    }
    s.push(" kMGTPEZ".get_char(i));
    s.append("B");
    s
}

proof fn lemma_power_positive(i: nat)
    ensures
        power_of_1024(i) > 0,
    decreases i,
{
    if i > 0 {
        lemma_power_positive((i - 1) as nat);
    }
}

} // verus!
