//! Reading port numbers.

use vstd::prelude::*;

use crate::text::chars_of;

verus! {

/// What is wrong with the text of a port.
#[derive(Debug, Clone, Copy, PartialEq, Eq, Structural)]
pub enum PortError {
    /// There is no text.
    Empty,
    /// A character is not a decimal digit.
    InvalidDigit,
    /// The number does not fit.
    PosOverflow,
}

/// A decimal digit.
pub open spec fn is_digit(c: char) -> bool {
    '0' <= c && c <= '9'
}

/// The value of a decimal digit.
pub open spec fn digit_value(c: char) -> int {
    c as int - '0' as int
}

/// The number that a run of decimal digits stands for, read from left to right and
/// at most `max`. The first character at which reading fails decides on the error.
pub open spec fn digits_value(s: Seq<char>, max: int) -> Result<int, PortError>
    decreases s.len(),
{
    if s.len() == 0 {
        Ok(0)
    } else {
        match digits_value(s.drop_last(), max) {
            Err(e) => Err(e),
            Ok(v) => if !is_digit(s.last()) {
                Err(PortError::InvalidDigit)
            } else if v * 10 + digit_value(s.last()) > max {
                Err(PortError::PosOverflow)
            } else {
                Ok(v * 10 + digit_value(s.last()))
            },
        }
    }
}

/// The number, at most `max`, that `s` writes in decimal digits and nothing else.
pub open spec fn decimal(s: Seq<char>, max: int) -> Option<int> {
    match digits_value(s, max) {
        Ok(v) => if s.len() > 0 {
            Some(v)
        } else {
            None
        },
        Err(_) => None,
    }
}

/// The port that a text stands for: decimal digits, with or without a plus sign in
/// front of them.
pub open spec fn port_value(s: Seq<char>) -> Result<int, PortError> {
    if s.len() == 0 {
        Err(PortError::Empty)
    } else if s == seq!['+'] {
        Err(PortError::InvalidDigit)
    } else if s[0] == '+' {
        digits_value(s.drop_first(), 65535)
    } else {
        digits_value(s, 65535)
    }
}

/// A number that was read lies between 0 and `max`, and all its characters are digits.
pub proof fn lemma_digits_value(s: Seq<char>, max: int)
    requires
        0 <= max,
    ensures
        digits_value(s, max) matches Ok(v) ==> 0 <= v <= max && (forall|i: int|
            0 <= i < s.len() ==> is_digit(#[trigger] s[i])),
    decreases s.len(),
{
    if s.len() > 0 {
        lemma_digits_value(s.drop_last(), max);
        assert(forall|i: int| 0 <= i < s.len() - 1 ==> s.drop_last()[i] == s[i]);
    }
}

/// The decimal digit of a value below ten.
pub open spec fn digit_char(d: int) -> char {
    ('0' as int + d) as char
}

/// The decimal digits of a number, without leading zeros.
pub open spec fn decimal_text(n: int) -> Seq<char>
    decreases n,
{
    if n < 10 {
        seq![digit_char(n)]
    } else {
        decimal_text(n / 10).push(digit_char(n % 10))
    }
}

/// The decimal digits of a number are read as that number. They begin with a zero only if
/// they are nothing else.
pub proof fn law_decimal_text_is_read(n: int, max: int)
    requires
        0 <= n <= max,
    ensures
        decimal(decimal_text(n), max) == Some(n),
        decimal_text(n).len() > 1 ==> decimal_text(n)[0] != '0',
    decreases n,
{
    let s = decimal_text(n);
    if n < 10 {
        assert(s.drop_last() =~= Seq::<char>::empty());
        assert(digits_value(s.drop_last(), max) == Ok::<int, PortError>(0));
        assert(s.last() == digit_char(n));
        assert(is_digit(s.last()) && digit_value(s.last()) == n);
        assert(digits_value(s, max) == Ok::<int, PortError>(n));
    } else {
        let front = decimal_text(n / 10);
        law_decimal_text_is_read(n / 10, max);
        assert(s.drop_last() =~= front);
        assert(s.last() == digit_char(n % 10));
        assert(is_digit(s.last()) && digit_value(s.last()) == n % 10);
        assert(digits_value(front, max) == Ok::<int, PortError>(n / 10));
        assert(n / 10 * 10 + n % 10 == n);
        assert(digits_value(s, max) == Ok::<int, PortError>(n));
        assert(s[0] == front[0]);
        if front.len() == 1 {
            assert(n / 10 < 10) by {
                if n / 10 >= 10 {
                    assert(decimal_text(n / 10 / 10).len() > 0) by {
                        law_decimal_text_is_read(n / 10 / 10, max);
                    }
                }
            }
        }
    }
}

/// What reading stopped at stays the outcome, whatever follows.
proof fn lemma_digits_error_stays(s: Seq<char>, n: int, max: int)
    requires
        0 <= n <= s.len(),
        digits_value(s.take(n), max) is Err,
    ensures
        digits_value(s, max) == digits_value(s.take(n), max),
    decreases s.len() - n,
{
    if n == s.len() {
        assert(s.take(n) == s);
    } else {
        assert(s.take(n + 1).drop_last() == s.take(n));
        lemma_digits_error_stays(s, n + 1, max);
    }
}

/// Reads a port as `u16` is read from text: an optional plus sign, then decimal
/// digits only.
pub fn parse_port(text: &str) -> (r: Result<u16, PortError>)
    ensures
        match r {
            Ok(p) => port_value(text@) == Ok::<int, PortError>(p as int),
            Err(e) => port_value(text@) == Err::<int, PortError>(e),
        },
{
    let chars = chars_of(text);
    if chars.len() == 0 {
        return Err(PortError::Empty);
    }
    let mut start: usize = 0;
    if chars[0] == '+' {
        if chars.len() == 1 {
            assert(text@ == seq!['+']);
            return Err(PortError::InvalidDigit);
        }
        start = 1;
    }
    let ghost digits = text@.skip(start as int);
    proof {
        assert(text@ != seq!['+']) by {
            if text@ == seq!['+'] {
                assert(text@.len() == 1 && text@[0] == '+');
            }
        }
        assert(digits == if text@[0] == '+' {
            text@.drop_first()
        } else {
            text@
        });
        assert(digits.take(0) == Seq::<char>::empty());
    }
    let mut value: u32 = 0;
    let mut i: usize = start;
    while i < chars.len()
        invariant
            start <= i <= chars.len(),
            chars@ == text@,
            digits == text@.skip(start as int),
            port_value(text@) == digits_value(digits, 65535),
            digits_value(digits.take(i - start), 65535) == Ok::<int, PortError>(value as int),
            value <= 65535,
        decreases chars.len() - i,
    {
        let c = chars[i];
        let ghost n = i - start;
        proof {
            assert(digits.take(n + 1).drop_last() == digits.take(n));
            assert(digits.take(n + 1).last() == c);
        }
        if !('0' <= c && c <= '9') {
            proof {
                lemma_digits_error_stays(digits, n + 1, 65535);
            }
            return Err(PortError::InvalidDigit);
        }
        let digit: u32 = c as u32 - '0' as u32;
        if value * 10 + digit > 65535 {
            proof {
                lemma_digits_error_stays(digits, n + 1, 65535);
            }
            return Err(PortError::PosOverflow);
        }
        value = value * 10 + digit;
        i += 1;
    }
    assert(digits.take(chars.len() - start) == digits);
    Ok(value as u16)
}

/// A number grows by one decimal place with each digit that follows. A character that is
/// no digit, or a digit beyond `max`, spoils it, and nothing that follows mends it.
pub proof fn law_digits_are_read_one_by_one(s: Seq<char>, c: char, max: int)
    requires
        9 <= max,
    ensures
        decimal(Seq::empty(), max) is None,
        s.len() == 0 ==> decimal(s.push(c), max) == if '0' <= c && c <= '9' {
            Some(c as int - '0' as int)
        } else {
            None
        },
        s.len() > 0 ==> decimal(s.push(c), max) == match decimal(s, max) {
            Some(v) => if '0' <= c && c <= '9' && 10 * v + (c as int - '0' as int) <= max {
                Some(10 * v + (c as int - '0' as int))
            } else {
                None
            },
            None => None,
        },
{
    assert(s.push(c).drop_last() == s);
}

/// A port grows by one decimal place with each digit that follows, with or without a plus
/// sign in front. The first character at which this fails decides on the error: one that is
/// no digit, or a digit that makes the number too large.
pub proof fn law_port_is_read_digit_by_digit(s: Seq<char>, c: char)
    ensures
        port_value(Seq::empty()) == Err::<int, PortError>(PortError::Empty),
        s.len() == 0 || (s.len() == 1 && s[0] == '+') ==> port_value(s.push(c)) == if '0' <= c
            && c <= '9' {
            Ok::<int, PortError>(c as int - '0' as int)
        } else {
            Err(PortError::InvalidDigit)
        },
        s.len() > 0 && !(s.len() == 1 && s[0] == '+') ==> port_value(s.push(c)) == match port_value(
            s,
        ) {
            Ok(v) => if !('0' <= c && c <= '9') {
                Err::<int, PortError>(PortError::InvalidDigit)
            } else if 10 * v + (c as int - '0' as int) > 65535 {
                Err(PortError::PosOverflow)
            } else {
                Ok(10 * v + (c as int - '0' as int))
            },
            Err(e) => Err(e),
        },
{
    let t = s.push(c);
    assert(t.drop_last() == s);
    assert(t != seq!['+'] || (s.len() == 0 && c == '+')) by {
        if t == seq!['+'] {
            assert(t.len() == 1 && t[0] == '+');
        }
    }
    if s.len() == 0 {
        if c == '+' {
            assert(t =~= seq!['+']);
        }
        assert(digits_value(s, 65535) == Ok::<int, PortError>(0));
    } else if s.len() == 1 && s[0] == '+' {
        assert(s =~= seq!['+']);
        assert(t.drop_first().drop_last() =~= Seq::<char>::empty());
        assert(t.drop_first().last() == c);
        assert(digits_value(Seq::<char>::empty(), 65535) == Ok::<int, PortError>(0));
    } else {
        assert(s != seq!['+']) by {
            if s == seq!['+'] {
                assert(s.len() == 1 && s[0] == '+');
            }
        }
        assert(t[0] == s[0]);
        assert(t.drop_first().drop_last() =~= s.drop_first());
        assert(t.drop_first().last() == c || s.len() == 0);
    }
}

/// The decimal digits of every port are read as that port, and so are they behind a plus
/// sign.
pub proof fn law_every_port_is_read(port: u16)
    ensures
        port_value(decimal_text(port as int)) == Ok::<int, PortError>(port as int),
        port_value(seq!['+'] + decimal_text(port as int)) == Ok::<int, PortError>(port as int),
{
    let s = decimal_text(port as int);
    law_decimal_text_is_read(port as int, 65535);
    lemma_digits_value(s, 65535);
    assert(is_digit(s[0]));
    assert(s != seq!['+']) by {
        if s == seq!['+'] {
            assert(s[0] == '+');
        }
    }
    let t = seq!['+'] + s;
    assert(t.drop_first() =~= s);
    assert(t.len() > 1);
    assert(t[0] == '+');
}

/// A number that is read from digits without leading zeros has those digits.
pub proof fn law_digits_are_the_decimal_text(s: Seq<char>, n: int, max: int)
    requires
        9 <= max,
        decimal(s, max) == Some(n),
        s.len() > 1 ==> s[0] != '0',
    ensures
        s == decimal_text(n),
    decreases s.len(),
{
    lemma_digits_value(s, max);
    let front = s.drop_last();
    lemma_digits_value(front, max);
    let d = digit_value(s.last());
    assert(is_digit(s.last()));
    assert(digit_char(d) == s.last());
    if s.len() == 1 {
        assert(digits_value(front, max) == Ok::<int, PortError>(0));
        assert(s =~= seq![digit_char(n)]);
    } else {
        let v = digits_value(front, max)->Ok_0;
        assert(front[0] == s[0]);
        law_digits_are_the_decimal_text(front, v, max);
        assert(v > 0) by {
            if v == 0 {
                assert(front == seq![digit_char(0)]);
                assert(front[0] == '0');
            }
        }
        assert(n == v * 10 + d);
        assert(n / 10 == v && n % 10 == d);
        assert(s =~= front.push(s.last()));
    }
}

} // verus!
