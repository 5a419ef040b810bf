//! Decimal numbers as text.
use crate::text::to_chars;
use vstd::prelude::*;
use vstd::string::*;

verus! {

/// The decimal digit of value `d`.
pub open spec fn digit(d: int) -> char {
    ('0' as u32 + d) as char
}

/// The decimal digits of `n`, without leading zeros.
pub open spec fn decimal(n: nat) -> Seq<char>
    decreases n,
{
    if n < 10 {
        seq![digit(n as int)]
    } else {
        decimal(n / 10).push(digit((n % 10) as int))
    }
}

/// The decimal text of `n`, with a minus sign where it is negative.
pub open spec fn integer_text(n: int) -> Seq<char> {
    if n < 0 {
        seq!['-'] + decimal((-n) as nat)
    } else {
        decimal(n as nat)
    }
}

/// The decimal digits of `n`.
pub fn decimal_text(n: u64) -> (s: String)
    ensures
        s@ == decimal(n as nat),
    decreases n,
{
    let low: u8 = (n % 10) as u8;
    let mut s = if n < 10 {
        String::new()
    } else {
        decimal_text(n / 10)
    };
    s.push((48 + low) as char);
    s
}

/// The decimal text of a signed number.
pub fn signed_text(n: i64) -> (s: String)
    ensures
        s@ == integer_text(n as int),
{
    if n < 0 {
        let mut s = String::new();
        s.push('-');
        let size: u64 = (-(n as i128)) as u64;
        s.append(decimal_text(size).as_str());
        s
    } else {
        decimal_text(n as u64)
    }
}

/// Why a text is not a number.
#[derive(Debug, Clone, Copy, PartialEq, Eq)]
pub enum NumberError {
    /// There is no text.
    Empty,
    /// Something other than a digit stands where a digit is due.
    InvalidDigit,
    /// The number is larger than the type holds.
    TooLarge,
}

/// A decimal digit.
pub open spec fn is_digit(c: char) -> bool {
    '0' <= c <= '9'
}

/// The value of a decimal digit.
pub open spec fn digit_value(c: char) -> nat {
    (c as u32 - '0' as u32) as nat
}

/// Reads the digits of `s` after those that make up `acc`, up to the value `limit`; the first
/// character that fails decides the error.
pub open spec fn scan(s: Seq<char>, acc: nat, limit: nat) -> Result<nat, NumberError>
    decreases s.len(),
{
    if s.len() == 0 {
        Ok(acc)
    } else if !is_digit(s[0]) {
        Err(NumberError::InvalidDigit)
    } else if acc * 10 + digit_value(s[0]) > limit {
        Err(NumberError::TooLarge)
    } else {
        scan(s.drop_first(), acc * 10 + digit_value(s[0]), limit)
    }
}

/// Reads the digits of `v` from index `from` on.
fn scan_digits(v: &Vec<char>, from: usize, limit: u64) -> (r: Result<u64, NumberError>)
    requires
        from <= v@.len(),
    ensures
        match r {
            Ok(n) => scan(v@.skip(from as int), 0, limit as nat) == Ok::<nat, NumberError>(n as nat),
            Err(e) => scan(v@.skip(from as int), 0, limit as nat) == Err::<nat, NumberError>(e),
        },
{
    let mut acc: u64 = 0;
    let mut i: usize = from;
    while i < v.len()
        invariant
            from <= i <= v@.len(),
            acc <= limit,
            scan(v@.skip(i as int), acc as nat, limit as nat) == scan(
                v@.skip(from as int),
                0,
                limit as nat,
            ),
        decreases v@.len() - i,
    {
        let c = v[i];
        assert(v@.skip(i as int).drop_first() == v@.skip(i + 1));
        if c < '0' || '9' < c {
            return Err(NumberError::InvalidDigit);
        }
        let d: u64 = (c as u64) - ('0' as u64);
        let wide: u128 = (acc as u128) * 10 + (d as u128);
        if wide > limit as u128 {
            return Err(NumberError::TooLarge);
        }
        acc = wide as u64;
        i += 1;
    }
    Ok(acc)
}

/// The number that `s` writes as a `u64`: digits, with a plus sign in front or none.
pub open spec fn parsed_u64(s: Seq<char>) -> Result<nat, NumberError> {
    if s.len() == 0 {
        Err(NumberError::Empty)
    } else if s[0] == '+' {
        if s.len() == 1 {
            Err(NumberError::InvalidDigit)
        } else {
            scan(s.drop_first(), 0, u64::MAX as nat)
        }
    } else {
        scan(s, 0, u64::MAX as nat)
    }
}

/// Reads a `u64`.
pub fn parse_u64(s: &str) -> (r: Result<u64, NumberError>)
    ensures
        match r {
            Ok(n) => parsed_u64(s@) == Ok::<nat, NumberError>(n as nat),
            Err(e) => parsed_u64(s@) == Err::<nat, NumberError>(e),
        },
{
    let v = to_chars(s);
    if v.len() == 0 {
        return Err(NumberError::Empty);
    }
    assert(v@.skip(0) == v@);
    assert(v@.skip(1) == v@.drop_first());
    if v[0] == '+' {
        if v.len() == 1 {
            return Err(NumberError::InvalidDigit);
        }
        scan_digits(&v, 1, u64::MAX)
    } else {
        scan_digits(&v, 0, u64::MAX)
    }
}

/// The number that `s` writes as an `i64`: digits, with a sign in front or none.
pub open spec fn parsed_i64(s: Seq<char>) -> Option<int> {
    if s.len() == 0 {
        None
    } else if s[0] == '-' || s[0] == '+' {
        if s.len() == 1 {
            None
        } else if s[0] == '-' {
            match scan(s.drop_first(), 0, (i64::MAX + 1) as nat) {
                Ok(n) => Some(-(n as int)),
                Err(_) => None,
            }
        } else {
            match scan(s.drop_first(), 0, i64::MAX as nat) {
                Ok(n) => Some(n as int),
                Err(_) => None,
            }
        }
    } else {
        match scan(s, 0, i64::MAX as nat) {
            Ok(n) => Some(n as int),
            Err(_) => None,
        }
    }
}

/// A number that was scanned is no larger than its limit.
proof fn lemma_scan_limit(s: Seq<char>, acc: nat, limit: nat)
    requires
        acc <= limit,
    ensures
        scan(s, acc, limit) matches Ok(n) ==> n <= limit,
    decreases s.len(),
{
    if s.len() > 0 && is_digit(s[0]) && acc * 10 + digit_value(s[0]) <= limit {
        lemma_scan_limit(s.drop_first(), acc * 10 + digit_value(s[0]), limit);
    }
}

/// Reads an `i64`.
pub fn parse_i64(s: &str) -> (r: Option<i64>)
    ensures
        match r {
            Some(n) => parsed_i64(s@) == Some(n as int),
            None => parsed_i64(s@) is None,
        },
{
    let v = to_chars(s);
    if v.len() == 0 {
        return None;
    }
    assert(v@.skip(0) == v@);
    assert(v@.skip(1) == v@.drop_first());
    let max: u64 = i64::MAX as u64;
    if v[0] == '-' {
        if v.len() == 1 {
            return None;
        }
        proof {
            lemma_scan_limit(v@.drop_first(), 0, (i64::MAX + 1) as nat);
        }
        match scan_digits(&v, 1, max + 1) {
            Ok(n) => Some((-(n as i128)) as i64),
            Err(_) => None,
        }
    } else {
        let from: usize = if v[0] == '+' {
            1
        } else {
            0
        };
        if v.len() == from {
            return None;
        }
        proof {
            lemma_scan_limit(v@.skip(from as int), 0, i64::MAX as nat);
        }
        match scan_digits(&v, from, max) {
            Ok(n) => Some(n as i64),
            Err(_) => None,
        }
    }
}

/// Reading the decimal text of a number gives the number back.
pub proof fn law_decimal_is_read_back(n: u64)
    ensures
        parsed_u64(decimal(n as nat)) == Ok::<nat, NumberError>(n as nat),
{
    lemma_scan_decimal(n as nat, u64::MAX as nat, Seq::empty());
    lemma_decimal_digits(n as nat);
    assert(decimal(n as nat) + Seq::<char>::empty() == decimal(n as nat));
}

/// The decimal text of a number is made of digits, and of at least one.
proof fn lemma_decimal_digits(n: nat)
    ensures
        decimal(n).len() > 0,
        forall|i: int| 0 <= i < decimal(n).len() ==> is_digit(#[trigger] decimal(n)[i]),
    decreases n,
{
    if n >= 10 {
        lemma_decimal_digits(n / 10);
    }
}

/// Scanning the decimal text of `n` reaches `n`, and goes on with what follows the text.
proof fn lemma_scan_decimal(n: nat, limit: nat, rest: Seq<char>)
    requires
        n <= limit,
    ensures
        scan(decimal(n) + rest, 0, limit) == scan(rest, n, limit),
    decreases n,
{
    let s = decimal(n) + rest;
    if n < 10 {
        assert(s.drop_first() == rest);
    } else {
        let low = digit((n % 10) as int);
        let tail = seq![low] + rest;
        assert(s == decimal(n / 10) + tail);
        lemma_scan_decimal(n / 10, limit, tail);
        assert(tail.drop_first() == rest);
    }
}

/// Reading the decimal text of a signed number gives the number back; a plus sign in front of a
/// number that is not negative changes nothing.
pub proof fn law_signed_text_is_read_back(n: i64)
    ensures
        parsed_i64(integer_text(n as int)) == Some(n as int),
        n >= 0 ==> parsed_i64(seq!['+'] + integer_text(n as int)) == Some(n as int),
        n >= 0 ==> parsed_u64(seq!['+'] + decimal(n as nat)) == Ok::<nat, NumberError>(n as nat),
{
    let size: nat = if n < 0 {
        (-(n as int)) as nat
    } else {
        n as nat
    };
    let digits = decimal(size);
    lemma_decimal_digits(size);
    assert(digits + Seq::<char>::empty() == digits);
    lemma_scan_decimal(size, u64::MAX as nat, Seq::empty());
    lemma_scan_decimal(size, (i64::MAX + 1) as nat, Seq::empty());
    if n < 0 {
        assert((seq!['-'] + digits).drop_first() == digits);
    } else {
        lemma_scan_decimal(size, i64::MAX as nat, Seq::empty());
        assert((seq!['+'] + digits).drop_first() == digits);
        assert(is_digit(digits[0]));
    }
}

/// A number that does not fit is told from a text that is no number: the decimal text of a larger
/// number is too large, and a text of which the first character is neither a digit nor a plus sign
/// is no number.
pub proof fn law_numbers_that_do_not_fit_are_refused(n: nat, s: Seq<char>)
    ensures
        n > u64::MAX ==> parsed_u64(decimal(n)) == Err::<nat, NumberError>(NumberError::TooLarge),
        n > i64::MAX ==> parsed_i64(decimal(n)) is None,
        n > i64::MAX + 1 ==> parsed_i64(seq!['-'] + decimal(n)) is None,
        s.len() == 0 ==> parsed_u64(s) == Err::<nat, NumberError>(NumberError::Empty),
        s.len() > 0 && !('0' <= s[0] <= '9') && s[0] != '+' ==> parsed_u64(s) == Err::<
            nat,
            NumberError,
        >(NumberError::InvalidDigit),
        s.len() > 0 && !('0' <= s[0] <= '9') && s[0] != '+' && s[0] != '-' ==> parsed_i64(s) is None,
{
    lemma_decimal_digits(n);
    assert(is_digit(decimal(n)[0]));
    assert(decimal(n) + Seq::<char>::empty() == decimal(n));
    assert((seq!['-'] + decimal(n)).drop_first() == decimal(n));
    if n > u64::MAX {
        lemma_scan_too_large(n, u64::MAX as nat, Seq::empty());
    }
    if n > i64::MAX {
        lemma_scan_too_large(n, i64::MAX as nat, Seq::empty());
    }
    if n > i64::MAX + 1 {
        lemma_scan_too_large(n, (i64::MAX + 1) as nat, Seq::empty());
    }
}

/// Scanning the decimal text of a number above the limit fails, whatever follows the text.
proof fn lemma_scan_too_large(n: nat, limit: nat, rest: Seq<char>)
    requires
        n > limit,
        limit >= 9,
    ensures
        scan(decimal(n) + rest, 0, limit) == Err::<nat, NumberError>(NumberError::TooLarge),
    decreases n,
{
    let s = decimal(n) + rest;
    let low = digit((n % 10) as int);
    let tail = seq![low] + rest;
    assert(s == decimal(n / 10) + tail);
    if n / 10 > limit {
        lemma_scan_too_large(n / 10, limit, tail);
    } else {
        lemma_scan_decimal(n / 10, limit, tail);
        assert(is_digit(low));
        assert((n / 10) * 10 + digit_value(low) == n);
    }
}

/// The decimal text of a number is that of its tenth and one digit more, and that of a digit is
/// the digit.
pub proof fn law_decimal_grows_by_a_digit(n: nat, d: nat)
    requires
        d < 10,
    ensures
        decimal(d).len() == 1,
        decimal(d)[0] as u32 == 48 + d,
        n > 0 ==> decimal(10 * n + d) == decimal(n) + decimal(d),
        integer_text(-(n as int) - 1) == seq!['-'] + decimal(n + 1),
        integer_text(n as int) == decimal(n),
{
    if n > 0 {
        assert((10 * n + d) / 10 == n);
        assert((10 * n + d) % 10 == d);
        assert(decimal(10 * n + d) == decimal(n).push(digit(d as int)));
    }
}

/// A number is read digit by digit: a leading zero changes nothing, and a text of digits that is
/// continued by another digit is ten times the number and the digit, where that fits.
pub proof fn law_digits_are_read_in_order(s: Seq<char>, d: nat)
    requires
        s.len() > 0,
        d < 10,
        forall|i: int| 0 <= i < s.len() ==> '0' <= #[trigger] s[i] <= '9',
    ensures
        parsed_u64(seq!['0'] + s) == parsed_u64(s),
        parsed_u64(s + decimal(d)) == match parsed_u64(s) {
            Ok(n) => if 10 * n + d <= u64::MAX {
                Ok::<nat, NumberError>(10 * n + d)
            } else {
                Err(NumberError::TooLarge)
            },
            Err(e) => Err(e),
        },
{
    let z = seq!['0'] + s;
    assert(z.drop_first() == s);
    assert('0' <= s[0] <= '9');
    assert((s + decimal(d))[0] == s[0]);
    lemma_scan_one_more(s, 0, u64::MAX as nat, d);
}

proof fn lemma_scan_one_more(s: Seq<char>, acc: nat, limit: nat, d: nat)
    requires
        d < 10,
        forall|i: int| 0 <= i < s.len() ==> '0' <= #[trigger] s[i] <= '9',
    ensures
        scan(s + decimal(d), acc, limit) == match scan(s, acc, limit) {
            Ok(n) => if 10 * n + d <= limit {
                Ok::<nat, NumberError>(10 * n + d)
            } else {
                Err(NumberError::TooLarge)
            },
            Err(e) => Err(e),
        },
    decreases s.len(),
{
    let t = s + decimal(d);
    if s.len() == 0 {
        assert(t == decimal(d));
        assert(t.drop_first().len() == 0);
        assert(is_digit(t[0]));
        assert(digit_value(t[0]) == d);
        let x: nat = acc * 10 + digit_value(t[0]);
        assert(scan(t.drop_first(), x, limit) == Ok::<nat, NumberError>(x));
    } else {
        assert(t[0] == s[0]);
        assert('0' <= s[0] <= '9');
        assert(t.drop_first() == s.drop_first() + decimal(d));
        assert forall|i: int| 0 <= i < s.drop_first().len() implies '0' <= #[trigger] s.drop_first()[i]
            <= '9' by {
            assert(s.drop_first()[i] == s[i + 1]);
        }
        lemma_scan_one_more(s.drop_first(), acc * 10 + digit_value(s[0]), limit, d);
    }
}

/// A character that is no digit ends the reading: the text is no number, unless the digits before
/// it are too large already.
pub proof fn law_other_characters_are_refused(s: Seq<char>, c: char, rest: Seq<char>)
    requires
        s.len() > 0,
        forall|i: int| 0 <= i < s.len() ==> '0' <= #[trigger] s[i] <= '9',
        !('0' <= c <= '9'),
    ensures
        parsed_u64(s.push(c) + rest) == Err::<nat, NumberError>(
            if parsed_u64(s) is Ok {
                NumberError::InvalidDigit
            } else {
                NumberError::TooLarge
            },
        ),
        parsed_i64(s.push(c) + rest) is None,
{
    assert('0' <= s[0] <= '9');
    assert((s.push(c) + rest)[0] == s[0]);
    lemma_scan_refused(s, c, rest, 0, u64::MAX as nat);
    lemma_scan_refused(s, c, rest, 0, i64::MAX as nat);
}

proof fn lemma_scan_refused(s: Seq<char>, c: char, rest: Seq<char>, acc: nat, limit: nat)
    requires
        forall|i: int| 0 <= i < s.len() ==> '0' <= #[trigger] s[i] <= '9',
        !('0' <= c <= '9'),
    ensures
        scan(s.push(c) + rest, acc, limit) == Err::<nat, NumberError>(
            if scan(s, acc, limit) is Ok {
                NumberError::InvalidDigit
            } else {
                NumberError::TooLarge
            },
        ),
    decreases s.len(),
{
    let t = s.push(c) + rest;
    if s.len() == 0 {
        assert(t[0] == c);
    } else {
        assert(t[0] == s[0]);
        assert('0' <= s[0] <= '9');
        assert(t.drop_first() == s.drop_first().push(c) + rest);
        assert forall|i: int| 0 <= i < s.drop_first().len() implies '0' <= #[trigger] s.drop_first()[i]
            <= '9' by {
            assert(s.drop_first()[i] == s[i + 1]);
        }
        lemma_scan_refused(s.drop_first(), c, rest, acc * 10 + digit_value(s[0]), limit);
    }
}

/// A plus sign changes nothing in front of digits, and a minus sign makes the number negative; a
/// sign alone, or in front of anything but a digit, is no number.
pub proof fn law_signs_stand_before_digits(s: Seq<char>)
    ensures
        s.len() > 0 && '0' <= s[0] <= '9' ==> {
            &&& parsed_u64(seq!['+'] + s) == parsed_u64(s)
            &&& parsed_i64(seq!['+'] + s) == parsed_i64(s)
            &&& parsed_i64(s) == match parsed_u64(s) {
                Ok(n) => if n <= i64::MAX {
                    Some(n as int)
                } else {
                    None
                },
                Err(_) => None,
            }
            &&& parsed_i64(seq!['-'] + s) == match parsed_u64(s) {
                Ok(n) => if n <= i64::MAX + 1 {
                    Some(-(n as int))
                } else {
                    None
                },
                Err(_) => None,
            }
        },
        s.len() == 0 || !('0' <= s[0] <= '9') ==> {
            &&& parsed_u64(seq!['+'] + s) == Err::<nat, NumberError>(NumberError::InvalidDigit)
            &&& parsed_i64(seq!['+'] + s) is None
            &&& parsed_i64(seq!['-'] + s) is None
        },
        s.len() == 0 ==> parsed_i64(s) is None,
{
    assert((seq!['+'] + s).drop_first() == s);
    assert((seq!['-'] + s).drop_first() == s);
    lemma_scan_limits(s, 0, i64::MAX as nat, u64::MAX as nat);
    lemma_scan_limits(s, 0, (i64::MAX + 1) as nat, u64::MAX as nat);
}

/// A lower limit lets through the numbers up to it, and no others.
proof fn lemma_scan_limits(s: Seq<char>, acc: nat, low: nat, high: nat)
    requires
        acc <= low <= high,
    ensures
        match scan(s, acc, high) {
            Ok(n) => n >= acc && if n <= low {
                scan(s, acc, low) == Ok::<nat, NumberError>(n)
            } else {
                scan(s, acc, low) is Err
            },
            Err(_) => scan(s, acc, low) is Err,
        },
    decreases s.len(),
{
    if s.len() > 0 && is_digit(s[0]) && acc * 10 + digit_value(s[0]) <= high {
        let next: nat = acc * 10 + digit_value(s[0]);
        if next <= low {
            lemma_scan_limits(s.drop_first(), next, low, high);
        } else {
            lemma_scan_limits(s.drop_first(), next, next, high);
        }
    }
}

}
