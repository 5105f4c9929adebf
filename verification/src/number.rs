//! Decimal numbers in text.

use vstd::prelude::*;

use crate::text::chars;

verus! {

/// The digit `d`.
pub open spec fn digit(d: int) -> char {
    ('0' as int + d) as char
}

/// `n` in decimal, without leading zeros.
pub open spec fn decimal_spec(n: int) -> Seq<char>
    decreases n,
{
    if n < 10 {
        seq![digit(n)]
    } else {
        decimal_spec(n / 10).push(digit(n % 10))
    }
}

pub open spec fn is_digit_spec(c: char) -> bool {
    '0' <= c <= '9'
}

/// Whether `s` consists of decimal digits.
pub open spec fn all_digits(s: Seq<char>) -> bool {
    forall|i: int| 0 <= i < s.len() ==> is_digit_spec(#[trigger] s[i])
}

/// The number that the digits of `s` write.
pub open spec fn value(s: Seq<char>) -> int
    decreases s.len(),
{
    if s.len() == 0 {
        0
    } else {
        10 * value(s.drop_last()) + (s.last() as int - '0' as int)
    }
}

/// `s` without the plus sign that it may start with.
pub open spec fn unsigned_part(s: Seq<char>) -> Seq<char> {
    if s.len() > 0 && s[0] == '+' {
        s.drop_first()
    } else {
        s
    }
}

/// The number that `s` writes: an optional plus sign and at least one digit, of a value up to
/// `max`.
pub open spec fn parse_number_spec(s: Seq<char>, max: int) -> Option<int> {
    let digits = unsigned_part(s);
    if digits.len() > 0 && all_digits(digits) && value(digits) <= max {
        Some(value(digits))
    } else {
        None
    }
}

proof fn lemma_value_of_prefix(s: Seq<char>, n: int)
    requires
        all_digits(s),
        0 <= n <= s.len(),
    ensures
        0 <= value(s.take(n)) <= value(s),
    decreases s.len(),
{
    if n == s.len() {
        assert(s.take(n) =~= s);
        if n > 0 {
            lemma_value_of_prefix(s.drop_last(), n - 1);
            assert(s.drop_last().take(n - 1) =~= s.drop_last());
        }
    } else {
        lemma_value_of_prefix(s.drop_last(), n);
        assert(s.drop_last().take(n) =~= s.take(n));
    }
}

/// `n` in decimal consists of digits, at least one, and they write `n`.
pub proof fn lemma_decimal(n: int)
    requires
        n >= 0,
    ensures
        decimal_spec(n).len() > 0,
        all_digits(decimal_spec(n)),
        value(decimal_spec(n)) == n,
    decreases n,
{
    if n < 10 {
        assert(decimal_spec(n).drop_last() =~= seq![]);
        assert(value(decimal_spec(n)) == 10 * value(seq![]) + n);
    } else {
        lemma_decimal(n / 10);
        assert(decimal_spec(n).drop_last() =~= decimal_spec(n / 10));
    }
}

/// What is written in decimal is read back.
pub proof fn lemma_parse_decimal(n: int, max: int)
    requires
        0 <= n <= max,
    ensures
        parse_number_spec(decimal_spec(n), max) == Some(n),
{
    lemma_decimal(n);
    assert(is_digit_spec(decimal_spec(n)[0]));
}

/// A number in decimal is written with digits alone, and with a zero in front only where it is
/// zero.
pub proof fn lemma_decimal_form(n: int)
    requires
        n >= 0,
    ensures
        decimal_spec(n).len() > 0,
        all_decimal(decimal_spec(n)),
        n == 0 ==> decimal_spec(n) == seq!['0'],
        n > 0 ==> decimal_spec(n)[0] != '0',
    decreases n,
{
    lemma_decimal(n);
    let s = decimal_spec(n);
    assert forall|i: int| 0 <= i < s.len() implies '0' <= #[trigger] s[i] <= '9' by {
        assert(is_digit_spec(s[i]));
    }
    if n >= 10 {
        lemma_decimal_form(n / 10);
    }
}

/// A plus sign changes nothing, and neither does a zero in front. Nothing is read where no digit
/// is left, or where another character than a digit stands anywhere but for the plus sign in
/// front.
pub proof fn lemma_parse_number_signs(s: Seq<char>, max: int)
    ensures
        all_decimal(s) ==> parse_number_spec(seq!['+'] + s, max) == parse_number_spec(s, max),
        all_decimal(s) && s.len() > 0 ==> parse_number_spec(seq!['0'] + s, max)
            == parse_number_spec(s, max),
        s.len() == 0 ==> parse_number_spec(s, max) is None,
        forall|i: int|
            0 <= i < s.len() && !('0' <= #[trigger] s[i] <= '9') && !(i == 0 && s[i] == '+')
                ==> parse_number_spec(s, max) is None,
{
    if all_decimal(s) {
        let plus = seq!['+'] + s;
        assert(plus.drop_first() =~= s);
        if s.len() > 0 {
            assert('0' <= s[0] <= '9');
        }
        let zero = seq!['0'] + s;
        lemma_leading_zero(s);
        assert forall|i: int| 0 <= i < s.len() implies is_digit_spec(#[trigger] s[i]) by {}
        assert forall|i: int| 0 <= i < zero.len() implies is_digit_spec(#[trigger] zero[i]) by {
            if i > 0 {
                assert(zero[i] == s[i - 1]);
            }
        }
    }
    assert forall|i: int|
        0 <= i < s.len() && !('0' <= #[trigger] s[i] <= '9') && !(i == 0 && s[i]
            == '+') implies parse_number_spec(s, max) is None by {
        let digits = unsigned_part(s);
        if s[0] == '+' {
            assert(digits[i - 1] == s[i]);
        } else {
            assert(digits[i] == s[i]);
        }
    }
}

/// Whether all characters are between `0` and `9`.
pub open spec fn all_decimal(s: Seq<char>) -> bool {
    forall|i: int| 0 <= i < s.len() ==> '0' <= #[trigger] s[i] <= '9'
}

/// A number that is read is not negative and not over the limit.
pub proof fn lemma_parse_number_bound(s: Seq<char>, max: int)
    ensures
        parse_number_spec(s, max) matches Some(n) ==> 0 <= n <= max,
{
    if let Some(n) = parse_number_spec(s, max) {
        lemma_value_of_prefix(unsigned_part(s), 0);
    }
}

proof fn lemma_leading_zero(s: Seq<char>)
    ensures
        value(seq!['0'] + s) == value(s),
    decreases s.len(),
{
    let zero = seq!['0'] + s;
    if s.len() == 0 {
        assert(zero.drop_last() =~= s);
    } else {
        assert(zero.drop_last() =~= seq!['0'] + s.drop_last());
        lemma_leading_zero(s.drop_last());
    }
}

/// Numbers are read digit by digit: one digit more makes ten times the number and the digit, and
/// what is over the limit is not read.
pub proof fn lemma_parse_number_digits(s: Seq<char>, d: int, max: int)
    requires
        all_decimal(s),
        s.len() > 0,
        0 <= d <= 9,
    ensures
        match parse_number_spec(s, max) {
            Some(n) => parse_number_spec(s.push(('0' as int + d) as char), max) == (if 10 * n + d
                <= max {
                Some(10 * n + d)
            } else {
                None
            }),
            None => parse_number_spec(s.push(('0' as int + d) as char), max) is None,
        },
        0 <= max ==> parse_number_spec(seq![('0' as int + d) as char], max) == (if d <= max {
            Some(d)
        } else {
            None
        }),
{
    let c = ('0' as int + d) as char;
    let longer = s.push(c);
    assert('0' <= s[0] <= '9');
    assert forall|i: int| 0 <= i < s.len() implies is_digit_spec(#[trigger] s[i]) by {}
    assert(longer.drop_last() =~= s);
    assert(longer[0] == s[0]);
    assert forall|i: int| 0 <= i < longer.len() implies is_digit_spec(#[trigger] longer[i]) by {
        if i < s.len() {
            assert(longer[i] == s[i]);
        }
    }
    assert(longer.take(s.len() as int) =~= s);
    lemma_value_of_prefix(longer, s.len() as int);
    assert(seq![c].drop_last() =~= seq![]);
    assert(value(seq![c]) == 10 * value(seq![]) + d);
}

/// The number that `s` writes, where it is at most `max`.
pub fn parse_number(s: &str, max: u64) -> (r: Option<u64>)
    ensures
        match parse_number_spec(s@, max as int) {
            Some(n) => r matches Some(v) && v == n,
            None => r is None,
        },
{
    let text = chars(s);
    let n: usize = text.len();
    let start: usize = if n > 0 && text[0] == '+' {
        1
    } else {
        0
    };
    let ghost digits = unsigned_part(s@);
    assert(digits =~= s@.skip(start as int));
    if start == n {
        return None;
    }
    let mut number: u64 = 0;
    let mut i: usize = start;
    assert(digits.take(0) =~= seq![]);
    while i < n
        invariant
            start <= i <= n == s@.len(),
            text@ == s@,
            digits == s@.skip(start as int),
            digits == unsigned_part(s@),
            all_digits(digits.take(i - start)),
            number == value(digits.take(i - start)),
            number <= max,
        decreases n - i,
    {
        let c = text[i];
        assert(digits[i - start] == c);
        if !('0' <= c && c <= '9') {
            return None;
        }
        let next: u128 = 10 * number as u128 + (c as u32 - '0' as u32) as u128;
        proof {
            let longer = digits.take(i - start + 1);
            assert(longer.drop_last() =~= digits.take(i - start));
            assert(next == value(longer));
            if next > max && all_digits(digits) {
                lemma_value_of_prefix(digits, i - start + 1);
            }
            assert forall|k: int| 0 <= k < longer.len() implies is_digit_spec(
                #[trigger] longer[k],
            ) by {
                if k < i - start {
                    assert(longer[k] == digits.take(i - start)[k]);
                }
            }
        }
        if next > max as u128 {
            return None;
        }
        number = next as u64;
        i += 1;
    }
    assert(digits.take(n - start) =~= digits);
    Some(number)
}

fn digit_text(d: u64) -> (r: &'static str)
    requires
        d < 10,
    ensures
        r@ == seq![digit(d as int)],
{
    proof {
        reveal_strlit("0");
        reveal_strlit("1");
        reveal_strlit("2");
        reveal_strlit("3");
        reveal_strlit("4");
        reveal_strlit("5");
        reveal_strlit("6");
        reveal_strlit("7");
        reveal_strlit("8");
        reveal_strlit("9");
    }
    let r = if d == 0 {
        "0"
    } else if d == 1 {
        "1"
    } else if d == 2 {
        "2"
    } else if d == 3 {
        "3"
    } else if d == 4 {
        "4"
    } else if d == 5 {
        "5"
    } else if d == 6 {
        "6"
    } else if d == 7 {
        "7"
    } else if d == 8 {
        "8"
    } else {
        "9"
    };
    assert(r@ =~= seq![digit(d as int)]);
    r
}

/// `n` in decimal.
pub fn decimal(n: u64) -> (r: String)
    ensures
        r@ == decimal_spec(n as int),
    decreases n,
{
    if n < 10 {
        let mut r = String::new();
        r.append(digit_text(n));
        assert(r@ =~= decimal_spec(n as int));
        r
    } else {
        let mut r = decimal(n / 10);
        r.append(digit_text(n % 10));
        assert(r@ =~= decimal_spec(n as int));
        r
    }
}

} // verus!
