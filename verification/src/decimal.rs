//! Decimal digits and numerals: the spec-level vocabulary for digit strings
//! and the executable conversion from integers to their decimal text.

use vstd::prelude::*;
use vstd::string::StringExecFns;

verus! {

/// True for the ten ASCII decimal digit characters.
pub open spec fn is_digit(c: char) -> bool {
    '0' <= c && c <= '9'
}

/// Numeric value of a decimal digit character.
pub open spec fn digit_val(c: char) -> nat
    recommends
        is_digit(c),
{
    if c == '0' {
        0
    } else if c == '1' {
        1
    } else if c == '2' {
        2
    } else if c == '3' {
        3
    } else if c == '4' {
        4
    } else if c == '5' {
        5
    } else if c == '6' {
        6
    } else if c == '7' {
        7
    } else if c == '8' {
        8
    } else {
        9
    }
}

/// True when every character of `s` is a decimal digit.
pub open spec fn all_digits(s: Seq<char>) -> bool {
    forall|i: int| 0 <= i < s.len() ==> is_digit(#[trigger] s[i])
}

/// The number a digit string denotes when read as a decimal numeral.
pub open spec fn digits_val(s: Seq<char>) -> nat
    recommends
        all_digits(s),
    decreases s.len(),
{
    if s.len() == 0 {
        0
    } else {
        digits_val(s.drop_last()) * 10 + digit_val(s.last())
    }
}

/// The digit character whose value is `d`.
pub open spec fn digit_char(d: nat) -> char
    recommends
        d < 10,
{
    if d == 0 {
        '0'
    } else if d == 1 {
        '1'
    } else if d == 2 {
        '2'
    } else if d == 3 {
        '3'
    } else if d == 4 {
        '4'
    } else if d == 5 {
        '5'
    } else if d == 6 {
        '6'
    } else if d == 7 {
        '7'
    } else if d == 8 {
        '8'
    } else {
        '9'
    }
}

/// The canonical decimal numeral of `n`: no leading zeros, `"0"` for zero.
pub open spec fn dec_str(n: nat) -> Seq<char>
    decreases n,
{
    if n < 10 {
        seq![digit_char(n)]
    } else {
        dec_str(n / 10) + seq![digit_char(n % 10)]
    }
}

/// Executable test for a decimal digit character.
pub fn is_digit_char(c: char) -> (r: bool)
    ensures
        r == is_digit(c),
{
    '0' <= c && c <= '9'
}

/// Numeric value of a decimal digit character, executably.
pub fn digit_value(c: char) -> (d: u64)
    requires
        is_digit(c),
    ensures
        d as nat == digit_val(c),
        d < 10,
{
    if c == '0' {
        0
    } else if c == '1' {
        1
    } else if c == '2' {
        2
    } else if c == '3' {
        3
    } else if c == '4' {
        4
    } else if c == '5' {
        5
    } else if c == '6' {
        6
    } else if c == '7' {
        7
    } else if c == '8' {
        8
    } else {
        9
    }
}

/// A digit string is worth at least as much as any of its prefixes.
pub proof fn lemma_digits_val_take_le(s: Seq<char>, m: int)
    requires
        0 <= m <= s.len(),
    ensures
        digits_val(s.take(m)) <= digits_val(s),
    decreases s.len() - m,
{
    if m == s.len() {
        assert(s.take(m) =~= s);
    } else {
        assert(s.take(m + 1).drop_last() =~= s.take(m));
        assert(digits_val(s.take(m + 1)) == digits_val(s.take(m)) * 10 + digit_val(
            s.take(m + 1).last(),
        ));
        lemma_digits_val_take_le(s, m + 1);
    }
}

/// The one-character string for a digit value.
fn digit_str(d: u64) -> (r: &'static str)
    requires
        d < 10,
    ensures
        r@ == seq![digit_char(d as nat)],
{
    proof {
        reveal_strlit("0");
        reveal_strlit("1");
        reveal_strlit("2");
        reveal_strlit("3");
        reveal_strlit("4");
        reveal_strlit("5");
        reveal_strlit("6");
        reveal_strlit("7");
        reveal_strlit("8");
        reveal_strlit("9");
    }
    let r: &'static str = if d == 0 {
        "0"
    } else if d == 1 {
        "1"
    } else if d == 2 {
        "2"
    } else if d == 3 {
        "3"
    } else if d == 4 {
        "4"
    } else if d == 5 {
        "5"
    } else if d == 6 {
        "6"
    } else if d == 7 {
        "7"
    } else if d == 8 {
        "8"
    } else {
        "9"
    };
    proof {
        assert(r@ =~= seq![digit_char(d as nat)]);
    }
    r
}

/// Renders `n` as its canonical decimal numeral.
pub fn u64_to_string(n: u64) -> (r: String)
    ensures
        r@ == dec_str(n as nat),
    decreases n,
{
    if n < 10 {
        String::from_str(digit_str(n))
    } else {
        let prefix = u64_to_string(n / 10);
        let r = prefix.concat(digit_str(n % 10));
        proof {
            assert(r@ =~= dec_str(n as nat));
        }
        r
    }
}

/// A decimal numeral is a non-empty digit string.
pub proof fn lemma_dec_str_digits(n: nat)
    ensures
        all_digits(dec_str(n)),
        dec_str(n).len() >= 1,
    decreases n,
{
    if n < 10 {
        assert(is_digit(digit_char(n)));
    } else {
        lemma_dec_str_digits(n / 10);
        assert(is_digit(digit_char(n % 10)));
    }
}

/// Distinct numbers have distinct decimal numerals.
pub proof fn lemma_dec_str_injective(m: nat, n: nat)
    requires
        dec_str(m) == dec_str(n),
    ensures
        m == n,
    decreases m,
{
    lemma_dec_str_digits(m);
    lemma_dec_str_digits(n);
    if m < 10 && n < 10 {
        assert(dec_str(m)[0] == digit_char(m));
        assert(dec_str(n)[0] == digit_char(n));
    } else if m < 10 {
        assert(dec_str(n).len() == dec_str(n / 10).len() + 1);
        lemma_dec_str_digits(n / 10);
        assert(false);
    } else if n < 10 {
        assert(dec_str(m).len() == dec_str(m / 10).len() + 1);
        lemma_dec_str_digits(m / 10);
        assert(false);
    } else {
        let pm = dec_str(m / 10);
        let pn = dec_str(n / 10);
        assert(dec_str(m).last() == digit_char(m % 10));
        assert(dec_str(n).last() == digit_char(n % 10));
        assert(m % 10 == n % 10);
        assert(pm.len() == pn.len());
        assert(pm =~= pn) by {
            assert(forall|i: int|
                0 <= i < pm.len() ==> #[trigger] pm[i] == dec_str(m)[i] && pn[i] == dec_str(n)[i]);
        }
        lemma_dec_str_injective(m / 10, n / 10);
    }
}

/// A digit string followed by a non-digit splits a string in only one way.
pub proof fn lemma_digits_prefix_unique(
    s: Seq<char>,
    p1: Seq<char>,
    t1: Seq<char>,
    p2: Seq<char>,
    t2: Seq<char>,
)
    requires
        s == p1 + t1,
        s == p2 + t2,
        all_digits(p1),
        all_digits(p2),
        t1.len() > 0,
        !is_digit(t1[0]),
        t2.len() > 0,
        !is_digit(t2[0]),
    ensures
        p1 == p2,
        t1 == t2,
{
    if p1.len() < p2.len() {
        assert(s[p1.len() as int] == t1[0]);
        assert(s[p1.len() as int] == p2[p1.len() as int]);
        assert(false);
    }
    if p2.len() < p1.len() {
        assert(s[p2.len() as int] == t2[0]);
        assert(s[p2.len() as int] == p1[p2.len() as int]);
        assert(false);
    }
    assert(p1 =~= p2) by {
        assert(forall|i: int| 0 <= i < p1.len() ==> #[trigger] p1[i] == s[i] && p2[i] == s[i]);
    }
    assert(t1 =~= t2) by {
        assert((p1 + t1).len() == p1.len() + t1.len());
        assert((p2 + t2).len() == p2.len() + t2.len());
        assert(forall|i: int| 0 <= i < t1.len() ==> #[trigger] t1[i] == (p1 + t1)[p1.len() + i]);
        assert(forall|i: int| 0 <= i < t2.len() ==> #[trigger] t2[i] == (p2 + t2)[p2.len() + i]);
    }
}

} // verus!
