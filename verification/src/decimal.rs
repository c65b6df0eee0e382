//! Decimal numerals: writing a number as its decimal digit characters and
//! reading it back. Part files carry their index in decimal at the end of
//! the file name, and reassembly orders parts by that number, so both
//! directions are specified and proved inverse to each other.

use vstd::prelude::*;

verus! {

/// The character for one decimal digit value.
pub open spec fn digit_char(d: int) -> char {
    if d == 0 {
        '0'
    } else if d == 1 {
        '1'
    } else if d == 2 {
        '2'
    } else if d == 3 {
        '3'
    } else if d == 4 {
        '4'
    } else if d == 5 {
        '5'
    } else if d == 6 {
        '6'
    } else if d == 7 {
        '7'
    } else if d == 8 {
        '8'
    } else {
        '9'
    }
}

/// The value of one decimal digit character, or -1 for any other character.
pub open spec fn char_digit(c: char) -> int {
    if c == '0' {
        0
    } else if c == '1' {
        1
    } else if c == '2' {
        2
    } else if c == '3' {
        3
    } else if c == '4' {
        4
    } else if c == '5' {
        5
    } else if c == '6' {
        6
    } else if c == '7' {
        7
    } else if c == '8' {
        8
    } else if c == '9' {
        9
    } else {
        -1
    }
}

/// Whether a character is a decimal digit.
pub open spec fn is_digit_char(c: char) -> bool {
    char_digit(c) >= 0
}

/// The decimal numeral of a non-negative number: most significant digit
/// first, no leading zeros (zero itself is the single character `0`).
pub open spec fn dec_digits(n: int) -> Seq<char>
    decreases n,
{
    if n < 10 {
        seq![digit_char(n)]
    } else {
        dec_digits(n / 10).push(digit_char(n % 10))
    }
}

/// The number a digit string stands for, read most significant digit first.
pub open spec fn dec_value(s: Seq<char>) -> int
    decreases s.len(),
{
    if s.len() == 0 {
        0
    } else {
        dec_value(s.drop_last()) * 10 + char_digit(s.last())
    }
}

/// Every character of the string is a decimal digit.
pub open spec fn all_digits(s: Seq<char>) -> bool {
    forall|i: int| 0 <= i < s.len() ==> is_digit_char(s[i])
}

/// A canonical numeral: non-empty, all digits, and no leading zero except
/// for the single-character numeral `0` itself.
pub open spec fn canonical_dec(s: Seq<char>) -> bool {
    &&& s.len() > 0
    &&& all_digits(s)
    &&& (s.len() > 1 ==> s[0] != '0')
}

/// The numeral of a non-negative number is canonical, reads back as that
/// number, and starts with a non-zero digit whenever the number is positive.
pub proof fn lemma_dec_digits_props(n: int)
    requires
        n >= 0,
    ensures
        canonical_dec(dec_digits(n)),
        dec_value(dec_digits(n)) == n,
        n >= 1 ==> dec_digits(n)[0] != '0',
    decreases n,
{
    if n < 10 {
        let s = dec_digits(n);
        assert(s =~= seq![digit_char(n)]);
        assert(s.drop_last() =~= Seq::<char>::empty());
        assert(s.last() == digit_char(n));
        assert(char_digit(digit_char(n)) == n);
        assert(dec_value(s) == dec_value(s.drop_last()) * 10 + char_digit(s.last()));
        assert(dec_value(s.drop_last()) == 0);
    } else {
        lemma_dec_digits_props(n / 10);
        let sub = dec_digits(n / 10);
        let s = dec_digits(n);
        assert(s == sub.push(digit_char(n % 10)));
        assert(s.drop_last() =~= sub);
        assert(s.last() == digit_char(n % 10));
        vstd::arithmetic::div_mod::lemma_fundamental_div_mod(n, 10);
        assert(char_digit(digit_char(n % 10)) == n % 10);
        assert(s[0] == sub[0]);
    }
}

/// A digit string's value is never negative.
pub proof fn lemma_dec_value_nonneg(s: Seq<char>)
    requires
        all_digits(s),
    ensures
        dec_value(s) >= 0,
    decreases s.len(),
{
    if s.len() > 0 {
        assert(is_digit_char(s.last()));
        assert(all_digits(s.drop_last()));
        lemma_dec_value_nonneg(s.drop_last());
    }
}

/// Reading one more digit multiplies the value read so far by ten and adds
/// that digit.
pub proof fn lemma_dec_take_step(s: Seq<char>, j: int)
    requires
        0 <= j < s.len(),
    ensures
        dec_value(s.take(j + 1)) == dec_value(s.take(j)) * 10 + char_digit(s[j]),
{
    assert(s.take(j + 1).drop_last() =~= s.take(j));
    assert(s.take(j + 1).last() == s[j]);
}

/// A digit string is worth at least as much as any of its prefixes.
pub proof fn lemma_dec_value_prefix_le(s: Seq<char>, j: int)
    requires
        all_digits(s),
        0 <= j <= s.len(),
    ensures
        dec_value(s.take(j)) <= dec_value(s),
    decreases s.len() - j,
{
    if j == s.len() {
        assert(s.take(j) =~= s);
    } else {
        lemma_dec_take_step(s, j);
        assert(all_digits(s.take(j))) by {
            assert(forall|i: int| 0 <= i < j ==> s.take(j)[i] == s[i]);
        }
        lemma_dec_value_nonneg(s.take(j));
        lemma_dec_value_prefix_le(s, j + 1);
    }
}

/// A numeral with a non-zero leading digit is worth at least one, and at
/// least ten if it has more than one digit.
pub proof fn lemma_canonical_lower(s: Seq<char>)
    requires
        s.len() >= 1,
        all_digits(s),
        s[0] != '0',
    ensures
        dec_value(s) >= 1,
        s.len() >= 2 ==> dec_value(s) >= 10,
    decreases s.len(),
{
    if s.len() == 1 {
        assert(s.drop_last() =~= Seq::<char>::empty());
        assert(dec_value(s.drop_last()) == 0);
        assert(s.last() == s[0]);
        assert(is_digit_char(s[0]));
        assert(char_digit(s[0]) >= 1);
    } else {
        assert(all_digits(s.drop_last()));
        assert(s.drop_last()[0] == s[0]);
        lemma_canonical_lower(s.drop_last());
        assert(is_digit_char(s.last()));
        assert(char_digit(s.last()) >= 0);
        assert(dec_value(s) == dec_value(s.drop_last()) * 10 + char_digit(s.last()));
    }
}

/// Reading a canonical numeral and writing the result again gives back the
/// same characters: the two directions are exact inverses.
pub proof fn lemma_dec_digits_of_value(s: Seq<char>)
    requires
        canonical_dec(s),
    ensures
        dec_digits(dec_value(s)) == s,
    decreases s.len(),
{
    let v = dec_value(s);
    if s.len() == 1 {
        assert(s.drop_last() =~= Seq::<char>::empty());
        assert(dec_value(s.drop_last()) == 0);
        assert(s.last() == s[0]);
        assert(v == char_digit(s[0]));
        assert(dec_digits(v) =~= seq![digit_char(v)]);
        assert(digit_char(char_digit(s[0])) == s[0]);
        assert(dec_digits(v) =~= s);
    } else {
        let sub = s.drop_last();
        assert(all_digits(sub));
        assert(sub[0] == s[0]);
        assert(canonical_dec(sub));
        lemma_canonical_lower(sub);
        let q = dec_value(sub);
        let d = char_digit(s.last());
        assert(is_digit_char(s.last()));
        assert(v == q * 10 + d);
        vstd::arithmetic::div_mod::lemma_fundamental_div_mod_converse(v, 10, q, d);
        assert(v / 10 == q && v % 10 == d);
        assert(v >= 10);
        lemma_dec_digits_of_value(sub);
        assert(dec_digits(v) == dec_digits(q).push(digit_char(d)));
        assert(digit_char(char_digit(s.last())) == s.last());
        assert(dec_digits(v) =~= s);
    }
}

/// Two numbers with the same numeral are the same number.
pub proof fn lemma_dec_digits_injective(a: int, b: int)
    requires
        a >= 0,
        b >= 0,
        dec_digits(a) == dec_digits(b),
    ensures
        a == b,
{
    lemma_dec_digits_props(a);
    lemma_dec_digits_props(b);
}

/// The one-character string for a digit value.
fn digit_str(d: u64) -> (s: &'static str)
    requires
        d < 10,
    ensures
        s@ == seq![digit_char(d as int)],
{
    proof {
        reveal_strlit("0");
        reveal_strlit("1");
        reveal_strlit("2");
        reveal_strlit("3");
        reveal_strlit("4");
        reveal_strlit("5");
        reveal_strlit("6");
        reveal_strlit("7");
        reveal_strlit("8");
        reveal_strlit("9");
    }
    let s = match d {
        0 => "0",
        1 => "1",
        2 => "2",
        3 => "3",
        4 => "4",
        5 => "5",
        6 => "6",
        7 => "7",
        8 => "8",
        _ => "9",
    };
    proof {
        assert(s@ =~= seq![digit_char(d as int)]);
    }
    s
}

/// Writes a number in decimal.
pub fn dec_string(n: u64) -> (s: String)
    ensures
        s@ == dec_digits(n as int),
    decreases n,
{
    if n < 10 {
        String::from_str(digit_str(n))
    } else {
        let mut s = dec_string(n / 10);
        s.append(digit_str(n % 10));
        proof {
            assert(dec_digits((n / 10) as int).push(digit_char((n % 10) as int))
                =~= dec_digits((n / 10) as int) + seq![digit_char((n % 10) as int)]);
        }
        s
    }
}

/// The value of one digit character, if it is one.
pub fn digit_of(c: char) -> (r: Option<u64>)
    ensures
        match r {
            Some(v) => char_digit(c) == v as int && v < 10,
            None => char_digit(c) == -1,
        },
{
    match c {
        '0' => Some(0),
        '1' => Some(1),
        '2' => Some(2),
        '3' => Some(3),
        '4' => Some(4),
        '5' => Some(5),
        '6' => Some(6),
        '7' => Some(7),
        '8' => Some(8),
        '9' => Some(9),
        _ => None,
    }
}

} // verus!
