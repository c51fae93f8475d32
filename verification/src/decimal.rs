//! Decimal numerals: how a counter is written in text and read back.

use vstd::prelude::*;

verus! {

/// Whether `c` is one of the ten ASCII digits.
pub open spec fn is_digit(c: char) -> bool {
    '0' <= c <= '9'
}

/// The number that the digit `c` stands for.
pub open spec fn digit_value(c: char) -> int {
    c as int - '0' as int
}

/// The digit that stands for `d`, for `d` below ten.
pub open spec fn digit_char(d: int) -> char {
    (d + '0' as int) as char
}

/// The numeral of `n`: its decimal digits, most significant first, with no
/// leading zero except for zero itself.
pub open spec fn decimal(n: nat) -> Seq<char>
    decreases n,
{
    if n < 10 {
        seq![digit_char(n as int)]
    } else {
        decimal(n / 10).push(digit_char((n % 10) as int))
    }
}

/// The number that a run of digits denotes, read in base ten.
pub open spec fn digits_value(s: Seq<char>) -> int
    decreases s.len(),
{
    if s.len() == 0 {
        0
    } else {
        digits_value(s.drop_last()) * 10 + digit_value(s.last())
    }
}

/// The one-character text of a digit.
fn digit_str(d: u16) -> (out: &'static str)
    requires
        d < 10,
    ensures
        out@ == seq![digit_char(d as int)],
{
    proof {
        reveal_strlit("0");
        reveal_strlit("1");
        reveal_strlit("2");
        reveal_strlit("3");
        reveal_strlit("4");
        reveal_strlit("5");
        reveal_strlit("6");
        reveal_strlit("7");
        reveal_strlit("8");
        reveal_strlit("9");
    }
    let out = match d {
        0 => "0",
        1 => "1",
        2 => "2",
        3 => "3",
        4 => "4",
        5 => "5",
        6 => "6",
        7 => "7",
        8 => "8",
        _ => "9",
    };
    assert(out@ =~= seq![digit_char(d as int)]);
    out
}

/// Appends the numeral of `n` to `out`.
pub fn write_decimal(out: &mut String, n: u16)
    ensures
        final(out)@ == old(out)@ + decimal(n as nat),
    decreases n,
{
    if n >= 10 {
        write_decimal(out, n / 10);
    }
    out.append(digit_str(n % 10));
    assert(out@ =~= old(out)@ + decimal(n as nat));
}

/// Why a text is no numeral of a counter.
#[derive(Debug, Clone, Copy, PartialEq, Eq, Structural)]
pub enum NumberError {
    /// The text is empty.
    Empty,
    /// A character that is no digit stands where a digit is needed, or no
    /// digit follows the sign.
    InvalidDigit,
    /// The digits denote more than a counter can hold.
    TooLarge,
}

/// The text without its leading `+`, if it has one.
pub open spec fn unsigned_part(s: Seq<char>) -> Seq<char> {
    if s.len() > 0 && s[0] == '+' {
        s.drop_first()
    } else {
        s
    }
}

/// How many digits stand at the front of `s` before anything else.
pub open spec fn digit_run(s: Seq<char>) -> nat
    decreases s.len(),
{
    if s.len() == 0 || !is_digit(s[0]) {
        0
    } else {
        1 + digit_run(s.drop_first())
    }
}

/// What a text reads as: an optional `+`, then one or more digits that denote
/// at most `u16::MAX`. Leading zeros are accepted. Scanning from the left, the
/// error is the first that shows: digits that already denote too much, or a
/// character that is no digit.
pub open spec fn parsed_u16(s: Seq<char>) -> Result<u16, NumberError> {
    let d = unsigned_part(s);
    let run = d.take(digit_run(d) as int);
    if s.len() == 0 {
        Err(NumberError::Empty)
    } else if digits_value(run) > u16::MAX {
        Err(NumberError::TooLarge)
    } else if run.len() < d.len() || d.len() == 0 {
        Err(NumberError::InvalidDigit)
    } else {
        Ok(digits_value(d) as u16)
    }
}

/// A front of `s` that holds digits only, and ends where `s` ends or where
/// something else stands, is the digit run of `s`.
pub proof fn lemma_digit_run(s: Seq<char>, n: int)
    requires
        0 <= n <= s.len(),
        forall|j: int| 0 <= j < n ==> is_digit(#[trigger] s[j]),
        n == s.len() || !is_digit(s[n]),
    ensures
        digit_run(s) == n,
    decreases n,
{
    if n > 0 {
        let t = s.drop_first();
        assert forall|j: int| 0 <= j < n - 1 implies is_digit(#[trigger] t[j]) by {
            assert(t[j] == s[j + 1]);
        }
        lemma_digit_run(t, n - 1);
    }
}

/// A front of `s` that holds digits only is no longer than the digit run.
pub proof fn lemma_digit_run_covers(s: Seq<char>, n: int)
    requires
        0 <= n <= s.len(),
        forall|j: int| 0 <= j < n ==> is_digit(#[trigger] s[j]),
    ensures
        n <= digit_run(s) <= s.len(),
        forall|j: int| 0 <= j < digit_run(s) ==> is_digit(#[trigger] s[j]),
    decreases s.len(),
{
    if s.len() > 0 && is_digit(s[0]) {
        let t = s.drop_first();
        let m = if n > 0 { n - 1 } else { 0 };
        assert forall|j: int| 0 <= j < m implies is_digit(#[trigger] t[j]) by {
            assert(t[j] == s[j + 1]);
        }
        lemma_digit_run_covers(t, m);
        assert forall|j: int| 0 <= j < digit_run(s) implies is_digit(#[trigger] s[j]) by {
            if j > 0 {
                assert(s[j] == t[j - 1]);
            }
        }
    }
}

/// Among fronts made of digits, a longer one denotes no less.
pub proof fn lemma_digits_value_grows(s: Seq<char>, i: int, j: int)
    requires
        0 <= i <= j <= s.len(),
        forall|k: int| 0 <= k < j ==> is_digit(#[trigger] s[k]),
    ensures
        0 <= digits_value(s.take(i)) <= digits_value(s.take(j)),
    decreases j,
{
    if j == 0 {
        assert(s.take(0).len() == 0);
    } else {
        assert(s.take(j).drop_last() =~= s.take(j - 1));
        assert(s.take(j).last() == s[j - 1]);
        if i < j {
            lemma_digits_value_grows(s, i, j - 1);
        } else {
            lemma_digits_value_grows(s, j - 1, j - 1);
        }
    }
}

/// A numeral is a run of one or more digits that denotes its number.
pub proof fn lemma_decimal_denotes(n: nat)
    ensures
        decimal(n).len() > 0,
        forall|j: int| 0 <= j < decimal(n).len() ==> is_digit(#[trigger] decimal(n)[j]),
        digits_value(decimal(n)) == n,
    decreases n,
{
    let s = decimal(n);
    if n < 10 {
        assert(s.drop_last().len() == 0);
        assert(digits_value(s) == digits_value(s.drop_last()) * 10 + digit_value(s.last()));
    } else {
        lemma_decimal_denotes(n / 10);
        assert(s.drop_last() =~= decimal(n / 10));
    }
}

/// Reading the numeral of a counter gives the counter back.
pub proof fn lemma_parse_decimal(n: u16)
    ensures
        parsed_u16(decimal(n as nat)) == Ok::<u16, NumberError>(n),
{
    let s = decimal(n as nat);
    lemma_decimal_denotes(n as nat);
    assert(is_digit(s[0]));
    assert(unsigned_part(s) == s);
    lemma_digit_run(s, s.len() as int);
    assert(s.take(s.len() as int) =~= s);
}

/// Reads a counter from `text`.
pub fn parse_u16(text: &str) -> (r: Result<u16, NumberError>)
    ensures
        r == parsed_u16(text@),
{
    let ghost d = unsigned_part(text@);
    let ghost shift: int = text@.len() - d.len();
    let ghost digits: int = 0;
    let mut value: u16 = 0;
    let mut any_digit = false;
    let mut signed = false;
    for c in it: text.chars()
        invariant
            it.seq() == text@,
            d == unsigned_part(text@),
            shift == text@.len() - d.len(),
            it.index() == 0 ==> digits == 0 && !signed,
            it.index() > 0 ==> it.index() == digits + shift && signed == (shift == 1),
            any_digit == (digits > 0),
            0 <= digits <= d.len(),
            forall|j: int| 0 <= j < digits ==> is_digit(#[trigger] d[j]),
            value == digits_value(d.take(digits)),
    {
        if c == '+' && !any_digit && !signed {
            signed = true;
        } else if '0' <= c && c <= '9' {
            let digit: u16 = (c as u32 - '0' as u32) as u16;
            proof {
                assert(d[digits] == c);
                assert(d.take(digits + 1).drop_last() =~= d.take(digits));
                assert(d.take(digits + 1).last() == c);
            }
            if value > 6553 || (value == 6553 && digit > 5) {
                proof {
                    let run = digit_run(d) as int;
                    lemma_digit_run_covers(d, digits + 1);
                    lemma_digits_value_grows(d.take(run), digits + 1, run);
                    assert(d.take(run).take(digits + 1) =~= d.take(digits + 1));
                    assert(d.take(run).take(run) =~= d.take(run));
                }
                return Err(NumberError::TooLarge);
            }
            value = value * 10 + digit;
            any_digit = true;
            proof {
                digits = digits + 1;
            }
        } else {
            proof {
                assert(d[digits] == c);
                lemma_digit_run(d, digits);
            }
            return Err(NumberError::InvalidDigit);
        }
    }
    proof {
        lemma_digit_run(d, digits);
        assert(d.take(digits) =~= d);
    }
    if any_digit {
        Ok(value)
    } else if signed {
        Err(NumberError::InvalidDigit)
    } else {
        Err(NumberError::Empty)
    }
}

} // verus!
