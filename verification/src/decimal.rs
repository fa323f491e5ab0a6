//! Decimal numerals: rendering integers as text and parsing digit
//! strings, the exact counterpart of the substitutions and clause
//! parsing done on decoded program text.

use vstd::prelude::*;

verus! {

/// The character for one decimal digit value.
pub open spec fn digit_char(d: int) -> char {
    if d == 0 {
        '0'
    } else if d == 1 {
        '1'
    } else if d == 2 {
        '2'
    } else if d == 3 {
        '3'
    } else if d == 4 {
        '4'
    } else if d == 5 {
        '5'
    } else if d == 6 {
        '6'
    } else if d == 7 {
        '7'
    } else if d == 8 {
        '8'
    } else {
        '9'
    }
}

/// The numeric value of one decimal digit character, or -1 when the
/// character is not a digit.
pub open spec fn digit_val(c: char) -> int {
    if c == '0' {
        0
    } else if c == '1' {
        1
    } else if c == '2' {
        2
    } else if c == '3' {
        3
    } else if c == '4' {
        4
    } else if c == '5' {
        5
    } else if c == '6' {
        6
    } else if c == '7' {
        7
    } else if c == '8' {
        8
    } else if c == '9' {
        9
    } else {
        -1
    }
}

/// Decimal numeral of a non-negative integer, most significant digit
/// first, without a sign and without leading zeros.
pub open spec fn spec_decimal(n: int) -> Seq<char>
    decreases n,
{
    if n < 10 {
        seq![digit_char(n)]
    } else {
        spec_decimal(n / 10).push(digit_char(n % 10))
    }
}

/// Decimal numeral of any integer: a leading minus sign for negative
/// values, otherwise as `spec_decimal`.
pub open spec fn spec_signed_decimal(n: int) -> Seq<char> {
    if n < 0 {
        seq!['-'] + spec_decimal(-n)
    } else {
        spec_decimal(n)
    }
}

/// Digit characters of a digit-value sequence, read back to front.
pub open spec fn rev_digit_chars(ds: Seq<u8>) -> Seq<char>
    decreases ds.len(),
{
    if ds.len() == 0 {
        Seq::empty()
    } else {
        rev_digit_chars(ds.drop_first()) + seq![digit_char(ds[0] as int)]
    }
}

proof fn lemma_rev_digit_chars_push(ds: Seq<u8>, d: u8)
    ensures
        rev_digit_chars(ds.push(d)) == seq![digit_char(d as int)] + rev_digit_chars(ds),
    decreases ds.len(),
{
    assert(ds.push(d).len() == ds.len() + 1);
    if ds.len() == 0 {
        assert(ds.push(d)[0] == d);
        assert(ds.push(d).drop_first() =~= Seq::<u8>::empty());
        assert(rev_digit_chars(ds.push(d)) == rev_digit_chars(Seq::<u8>::empty()) + seq![
            digit_char(d as int),
        ]);
        assert(rev_digit_chars(ds.push(d)) =~= seq![digit_char(d as int)] + rev_digit_chars(ds));
    } else {
        assert(ds.push(d)[0] == ds[0]);
        assert(ds.push(d).drop_first() =~= ds.drop_first().push(d));
        lemma_rev_digit_chars_push(ds.drop_first(), d);
        assert(rev_digit_chars(ds.push(d)) == rev_digit_chars(ds.drop_first().push(d)) + seq![
            digit_char(ds[0] as int),
        ]);
        assert(rev_digit_chars(ds.push(d)) =~= seq![digit_char(d as int)] + rev_digit_chars(ds));
    }
}

fn digit_str(d: u8) -> (s: &'static str)
    requires
        d < 10,
    ensures
        s@ == seq![digit_char(d as int)],
{
    proof {
        reveal_strlit("0");
        reveal_strlit("1");
        reveal_strlit("2");
        reveal_strlit("3");
        reveal_strlit("4");
        reveal_strlit("5");
        reveal_strlit("6");
        reveal_strlit("7");
        reveal_strlit("8");
        reveal_strlit("9");
    }
    match d {
        0 => "0",
        1 => "1",
        2 => "2",
        3 => "3",
        4 => "4",
        5 => "5",
        6 => "6",
        7 => "7",
        8 => "8",
        _ => "9",
    }
}

/// Renders a non-negative integer as its decimal numeral.
pub fn u128_to_string(n: u128) -> (s: String)
    ensures
        s@ == spec_decimal(n as int),
{
    let mut digits: Vec<u8> = Vec::new();
    let mut m: u128 = n;
    while m >= 10
        invariant
            forall|k: int| 0 <= k < digits.len() ==> #[trigger] digits[k] < 10,
            spec_decimal(n as int) == spec_decimal(m as int) + rev_digit_chars(digits@),
        decreases m,
    {
        let ghost old_digits = digits@;
        let ghost old_m = m as int;
        let d: u8 = (m % 10) as u8;
        digits.push(d);
        m = m / 10;
        proof {
            lemma_rev_digit_chars_push(old_digits, d);
            assert(spec_decimal(old_m) == spec_decimal(old_m / 10).push(digit_char(old_m % 10)));
            assert(spec_decimal(old_m).push(digit_char(old_m % 10)) == spec_decimal(old_m)
                + seq![digit_char(old_m % 10)]) by {
                assert(spec_decimal(old_m / 10).push(digit_char(old_m % 10)) =~= spec_decimal(
                    old_m / 10,
                ) + seq![digit_char(old_m % 10)]);
            }
            assert(spec_decimal(n as int) =~= spec_decimal(m as int) + rev_digit_chars(digits@));
        }
    }
    let ghost pre_digits = digits@;
    let last: u8 = m as u8;
    digits.push(last);
    proof {
        lemma_rev_digit_chars_push(pre_digits, last);
        assert(spec_decimal(m as int) == seq![digit_char(m as int)]);
        assert(spec_decimal(n as int) =~= rev_digit_chars(digits@));
    }
    let mut s = String::new();
    let mut j: usize = digits.len();
    while j > 0
        invariant
            j <= digits.len(),
            forall|k: int| 0 <= k < digits.len() ==> #[trigger] digits[k] < 10,
            s@ == rev_digit_chars(digits@.skip(j as int)),
            spec_decimal(n as int) == rev_digit_chars(digits@),
        decreases j,
    {
        j = j - 1;
        let piece = digit_str(digits[j]);
        s.append(piece);
        proof {
            assert(digits@.skip(j as int).drop_first() =~= digits@.skip(j as int + 1));
            assert(s@ =~= rev_digit_chars(digits@.skip(j as int)));
        }
    }
    proof {
        assert(digits@.skip(0) =~= digits@);
    }
    s
}

/// Renders any integer as its decimal numeral with an optional sign.
pub fn i128_to_string(n: i128) -> (s: String)
    requires
        n > i128::MIN,
    ensures
        s@ == spec_signed_decimal(n as int),
{
    if n < 0 {
        let mut s = String::new();
        proof {
            reveal_strlit("-");
        }
        s.append("-");
        let mag = u128_to_string((-n) as u128);
        s.append(mag.as_str());
        proof {
            assert(s@ =~= spec_signed_decimal(n as int));
        }
        s
    } else {
        u128_to_string(n as u128)
    }
}

/// The value of a digit string read as a base-10 numeral; meaningful
/// only when every character is a digit.
pub open spec fn nat_of_digits(s: Seq<char>) -> int
    decreases s.len(),
{
    if s.len() == 0 {
        0
    } else {
        nat_of_digits(s.drop_last()) * 10 + digit_val(s.last())
    }
}

/// Whether every character of `s` is a decimal digit.
pub open spec fn all_digits(s: Seq<char>) -> bool {
    forall|i: int| 0 <= i < s.len() ==> digit_val(#[trigger] s[i]) >= 0
}

/// What parsing a clause parameter yields: the numeral's value when the
/// text is one or more digits and the value fits an `i32`, else nothing.
pub open spec fn spec_parse_i32(s: Seq<char>) -> Option<i32> {
    if s.len() >= 1 && all_digits(s) && nat_of_digits(s) <= i32::MAX {
        Some(nat_of_digits(s) as i32)
    } else {
        None
    }
}

proof fn lemma_nat_of_digits_bounds(s: Seq<char>)
    requires
        all_digits(s),
    ensures
        nat_of_digits(s) >= 0,
        s.len() >= 1 ==> nat_of_digits(s) >= nat_of_digits(s.drop_last()),
    decreases s.len(),
{
    if s.len() > 0 {
        assert(all_digits(s.drop_last())) by {
            assert(forall|i: int|
                0 <= i < s.drop_last().len() ==> #[trigger] s.drop_last()[i] == s[i]);
        }
        lemma_nat_of_digits_bounds(s.drop_last());
        assert(digit_val(s.last()) >= 0);
    }
}

/// Parses a digit string into an `i32`, refusing empty text, any
/// non-digit character, and values beyond `i32::MAX`.
pub fn parse_i32(s: &str) -> (r: Option<i32>)
    ensures
        r == spec_parse_i32(s@),
        r is Some ==> r->0 >= 0,
{
    let n = s.unicode_len();
    if n == 0 {
        return None;
    }
    let mut acc: i64 = 0;
    let mut i: usize = 0;
    while i < n
        invariant
            0 < n == s@.len(),
            i <= n,
            all_digits(s@.take(i as int)),
            acc == nat_of_digits(s@.take(i as int)),
            0 <= acc <= i32::MAX,
        decreases n - i,
    {
        let c = s.get_char(i);
        let d: i64 = match c {
            '0' => 0,
            '1' => 1,
            '2' => 2,
            '3' => 3,
            '4' => 4,
            '5' => 5,
            '6' => 6,
            '7' => 7,
            '8' => 8,
            '9' => 9,
            _ => {
                proof {
                    assert(digit_val(s@[i as int]) == -1);
                    assert(!all_digits(s@));
                }
                return None;
            },
        };
        proof {
            assert(digit_val(c) == d);
        }
        let next: i64 = acc * 10 + d;
        proof {
            assert(s@.take(i as int + 1).drop_last() =~= s@.take(i as int));
            assert(s@.take(i as int + 1).last() == s@[i as int]);
            assert(all_digits(s@.take(i as int + 1)));
            assert(next == nat_of_digits(s@.take(i as int + 1)));
        }
        if next > i32::MAX as i64 {
            proof {
                lemma_parse_overflow(s@, i as int + 1);
            }
            return None;
        }
        acc = next;
        i = i + 1;
    }
    proof {
        assert(s@.take(n as int) =~= s@);
    }
    Some(acc as i32)
}

/// Once a digit-string prefix already exceeds `i32::MAX`, the whole
/// string does too (appending digits cannot shrink the value).
proof fn lemma_parse_overflow(s: Seq<char>, i: int)
    requires
        0 <= i <= s.len(),
        all_digits(s.take(i)),
        nat_of_digits(s.take(i)) > i32::MAX,
    ensures
        spec_parse_i32(s) is None,
    decreases s.len() - i,
{
    if i == s.len() {
        assert(s.take(i) =~= s);
    } else {
        if digit_val(s[i]) < 0 {
            assert(!all_digits(s));
        } else {
            assert(all_digits(s.take(i + 1))) by {
                assert(forall|k: int|
                    0 <= k < i + 1 ==> #[trigger] s.take(i + 1)[k] == s.take(i).push(s[i])[k]);
                assert(forall|k: int| 0 <= k < i ==> #[trigger] s.take(i)[k] == s.take(i + 1)[k]);
            }
            assert(s.take(i + 1).drop_last() =~= s.take(i));
            assert(nat_of_digits(s.take(i + 1)) == nat_of_digits(s.take(i)) * 10 + digit_val(
                s[i],
            ));
            lemma_parse_overflow(s, i + 1);
        }
    }
}

} // verus!
