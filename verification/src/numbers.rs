//! Numbers as texts.
use vstd::prelude::*;

verus! {

/// The digits of a number.
pub open spec fn decimal(n: nat) -> Seq<char>
    decreases n,
{
    if n < 10 {
        seq![('0' as nat + n) as char]
    } else {
        decimal(n / 10).push(('0' as nat + n % 10) as char)
    }
}

/// Writes a number.
pub fn to_decimal(n: u64) -> (r: String)
    ensures
        r@ == decimal(n as nat),
    decreases n,
{
    if n < 10 {
        let mut r = String::new();
        r.push((48u8 + n as u8) as char);
        assert(r@ =~= decimal(n as nat));
        r
    } else {
        let mut r = to_decimal(n / 10);
        r.push((48u8 + (n % 10) as u8) as char);
        r
    }
}

/// A number that may be negative, written.
pub open spec fn signed_decimal(n: int) -> Seq<char> {
    if n < 0 {
        seq!['-'] + decimal((-n) as nat)
    } else {
        decimal(n as nat)
    }
}

/// Writes a number that may be negative.
pub fn write_i64(n: i64) -> (r: String)
    ensures
        r@ == signed_decimal(n as int),
{
    if n < 0 {
        let magnitude = (-(n + 1)) as u64 + 1;
        let digits = to_decimal(magnitude);
        proof {
            reveal_strlit("-");
            assert("-"@ =~= seq!['-']);
        }
        crate::text::cat2("-", digits.as_str())
    } else {
        to_decimal(n as u64)
    }
}

/// Whether a character is a digit.
pub open spec fn is_digit(c: char) -> bool {
    '0' <= c && c <= '9'
}

/// Whether a text has only digits.
pub open spec fn all_digits(s: Seq<char>) -> bool {
    forall|i: int| 0 <= i < s.len() ==> is_digit(#[trigger] s[i])
}

/// The number that digits stand for.
pub open spec fn digits_value(digits: Seq<char>) -> nat
    decreases digits.len(),
{
    if digits.len() == 0 {
        0
    } else {
        digits_value(digits.drop_last()) * 10 + (digits.last() as nat - '0' as nat) as nat
    }
}

/// The number that a text stands for: digits, with or without a sign before them.
pub open spec fn parsed_int(text: Seq<char>) -> Option<int> {
    let signed = text.len() > 0 && (text[0] == '-' || text[0] == '+');
    let digits = if signed {
        text.skip(1)
    } else {
        text
    };
    if digits.len() > 0 && all_digits(digits) {
        Some(
            if signed && text[0] == '-' {
                -(digits_value(digits) as int)
            } else {
                digits_value(digits) as int
            },
        )
    } else {
        None
    }
}

/// The complaint of `str::parse` about a text that is no number of 64 bits.
pub uninterp spec fn int_complaint(text: Seq<char>) -> Seq<char>;

/// `str::parse` of the standard library into an `i64`: digits with or without a sign before them,
/// where the number has room in 64 bits.
#[verifier::external_body]
pub(crate) fn parse_i64(text: &str) -> (r: Result<i64, String>)
    ensures
        match r {
            Ok(n) => parsed_int(text@) == Some(n as int),
            Err(complaint) => (match parsed_int(text@) {
                Some(n) => n < i64::MIN || n > i64::MAX,
                None => true,
            }) && complaint@ == int_complaint(text@),
        },
{
    text.parse::<i64>().map_err(|e| e.to_string())
}

proof fn lemma_decimal_digits(n: nat)
    ensures
        decimal(n).len() > 0,
        all_digits(decimal(n)),
        digits_value(decimal(n)) == n,
    decreases n,
{
    if n < 10 {
        reveal_with_fuel(digits_value, 2);
        assert(decimal(n).drop_last() =~= Seq::empty());
    } else {
        lemma_decimal_digits(n / 10);
        assert(decimal(n).drop_last() =~= decimal(n / 10));
    }
}

/// A number that has been written reads back as itself.
pub proof fn written_numbers_read_back(n: int)
    ensures
        parsed_int(signed_decimal(n)) == Some(n),
{
    if n < 0 {
        lemma_decimal_digits((-n) as nat);
        assert(signed_decimal(n).skip(1) =~= decimal((-n) as nat));
    } else {
        lemma_decimal_digits(n as nat);
        assert(is_digit(decimal(n as nat)[0]));
    }
}

/// A number is written without zeros before it, and different numbers are written differently.
pub proof fn numbers_have_one_text(n: nat, m: nat)
    ensures
        n > 0 ==> decimal(n)[0] != '0',
        decimal(0) == seq!['0'],
        decimal(n) == decimal(m) ==> n == m,
    decreases n,
{
    lemma_decimal_digits(n);
    lemma_decimal_digits(m);
    if n >= 10 {
        numbers_have_one_text(n / 10, m);
        lemma_decimal_digits(n / 10);
        assert(decimal(n)[0] == decimal(n / 10)[0]);
    }
}

} // verus!
