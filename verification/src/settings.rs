//! Numbers the service is configured with: the claim time-to-live and the
//! listening port, read as `str::parse` reads integers.
use vstd::prelude::*;
use crate::reply::{error_reply, is_error_reply, Reply};
use crate::text::chars_of;

verus! {

/// `c` is an ASCII decimal digit.
pub open spec fn is_digit(c: char) -> bool {
    '0' <= c && c <= '9'
}

/// Every character of `s` is a decimal digit.
pub open spec fn all_digits(s: Seq<char>) -> bool {
    forall|i: int| 0 <= i < s.len() ==> is_digit(#[trigger] s[i])
}

/// The number written by the decimal digits `s`.
pub open spec fn digits_value(s: Seq<char>) -> int
    decreases s.len(),
{
    if s.len() == 0 {
        0
    } else {
        10 * digits_value(s.drop_last()) + ((s.last() as u32) - 48)
    }
}

/// How `str::parse` reads an integer type whose values are `min..=max`: an
/// optional `+` (or `-` when the type is signed) followed by at least one
/// decimal digit and nothing else, whose value lies in the type's range.
pub open spec fn parse_int(s: Seq<char>, min: int, max: int) -> Option<int> {
    if s.len() == 0 {
        None
    } else {
        let neg = s[0] == '-' && min < 0;
        let digits = if s[0] == '+' || neg { s.drop_first() } else { s };
        if digits.len() == 0 || !all_digits(digits) {
            None
        } else {
            let v = if neg { -digits_value(digits) } else { digits_value(digits) };
            if min <= v && v <= max { Some(v) } else { None }
        }
    }
}

/// Adding digits never makes a number smaller.
pub proof fn lemma_digits_value_grows(s: Seq<char>, i: int)
    requires
        all_digits(s),
        0 <= i <= s.len(),
    ensures
        digits_value(s.take(i)) <= digits_value(s),
        0 <= digits_value(s),
    decreases s.len(),
{
    if s.len() > 0 {
        assert(all_digits(s.drop_last()));
        if i == s.len() {
            assert(s.take(i) == s);
            lemma_digits_value_grows(s.drop_last(), 0);
        } else {
            assert(s.take(i) == s.drop_last().take(i));
            lemma_digits_value_grows(s.drop_last(), i);
        }
    } else {
        assert(s.take(i) == s);
    }
}

/// Reads an integer of the range `min..=max` from `s`.
fn parse_bounded(s: &Vec<char>, min: i128, max: i128) -> (r: Option<i128>)
    requires
        -0x1_0000_0000_0000_0000 <= min <= 0 <= max <= 0x1_0000_0000_0000_0000,
    ensures
        r matches Some(v) ==> parse_int(s@, min as int, max as int) == Some(v as int),
        r is None ==> parse_int(s@, min as int, max as int) is None,
{
    let n = s.len();
    if n == 0 {
        return None;
    }
    let neg = s[0] == '-' && min < 0;
    let start: usize = if s[0] == '+' || neg { 1 } else { 0 };
    let ghost digits = if s@[0] == '+' || neg { s@.drop_first() } else { s@ };
    assert(digits == s@.skip(start as int));
    if start == n {
        return None;
    }
    let cap: i128 = 0x1_0000_0000_0000_0000;
    let mut acc: i128 = 0;
    let mut i: usize = start;
    assert(digits.take(0) == Seq::<char>::empty());
    while i < n
        invariant
            start <= i <= n == s@.len(),
            n > 0,
            cap == 0x1_0000_0000_0000_0000,
            -0x1_0000_0000_0000_0000 <= min <= 0 <= max <= 0x1_0000_0000_0000_0000,
            digits == s@.skip(start as int),
            digits == (if s@[0] == '+' || (s@[0] == '-' && min < 0) { s@.drop_first() } else { s@ }),
            0 <= acc <= cap,
            forall|j: int| start <= j < i ==> is_digit(#[trigger] s@[j]),
            acc == digits_value(digits.take(i - start)),
        decreases n - i,
    {
        let c = s[i];
        assert(digits[i - start] == c);
        if !('0' <= c && c <= '9') {
            assert(!is_digit(digits[i - start]));
            assert(!all_digits(digits));
            return None;
        }
        let d: i128 = (c as u32 - 48) as i128;
        assert(digits.take(i + 1 - start).drop_last() == digits.take(i - start));
        assert(digits.take(i + 1 - start).last() == c);
        assert(0 <= acc * 10 <= cap * 10) by (nonlinear_arith)
            requires
                0 <= acc <= cap,
        ;
        let next = acc * 10 + d;
        if next > cap {
            proof {
                assert forall|j: int| 0 <= j < i + 1 - start implies is_digit(#[trigger] digits.take(i + 1 - start)[j]) by {
                    assert(digits.take(i + 1 - start)[j] == s@[start + j]);
                }
                if all_digits(digits) {
                    lemma_digits_value_grows(digits, i + 1 - start);
                }
            }
            return None;
        }
        acc = next;
        i = i + 1;
    }
    assert(digits.take(n - start) == digits);
    assert(all_digits(digits)) by {
        assert forall|j: int| 0 <= j < digits.len() implies is_digit(#[trigger] digits[j]) by {
            assert(digits[j] == s@[start + j]);
        }
    }
    let v = if neg { -acc } else { acc };
    if min <= v && v <= max { Some(v) } else { None }
}

/// Reads an `i64` as `str::parse::<i64>` does.
pub fn parse_i64(s: &str) -> (r: Option<i64>)
    ensures
        r matches Some(v) ==> parse_int(s@, i64::MIN as int, i64::MAX as int) == Some(v as int),
        r is None ==> parse_int(s@, i64::MIN as int, i64::MAX as int) is None,
{
    let chars = chars_of(s);
    match parse_bounded(&chars, i64::MIN as i128, i64::MAX as i128) {
        Some(v) => Some(v as i64),
        None => None,
    }
}

/// Reads a `u16` as `str::parse::<u16>` does.
pub fn parse_u16(s: &str) -> (r: Option<u16>)
    ensures
        r matches Some(v) ==> parse_int(s@, 0, u16::MAX as int) == Some(v as int),
        r is None ==> parse_int(s@, 0, u16::MAX as int) is None,
{
    let chars = chars_of(s);
    match parse_bounded(&chars, 0, u16::MAX as i128) {
        Some(v) => Some(v as u16),
        None => None,
    }
}

/// The claim time-to-live used when a request names none.
pub open spec fn default_ttl_of(raw: Option<Seq<char>>) -> int {
    match raw {
        Some(s) => match parse_int(s, i64::MIN as int, i64::MAX as int) {
            Some(v) => if v > 0 { v } else { 300 },
            None => 300,
        },
        None => 300,
    }
}

/// The default claim time-to-live, in seconds, from its configured text: a
/// positive `i64`, or 300 when the text is missing, unreadable or not positive.
pub fn default_ttl_seconds(raw: Option<String>) -> (ttl: i64)
    ensures
        ttl == default_ttl_of(match raw { Some(s) => Some(s@), None => None }),
        ttl > 0,
{
    match raw {
        Some(s) => match parse_i64(s.as_str()) {
            Some(v) => if v > 0 { v } else { 300 },
            None => 300,
        },
        None => 300,
    }
}

/// The listening port from its configured text: a `u16`, or 3000 when the
/// text is missing or unreadable.
pub fn listen_port(raw: Option<String>) -> (port: u16)
    ensures
        port == match raw {
            Some(s) => match parse_int(s@, 0, u16::MAX as int) {
                Some(v) => v,
                None => 3000,
            },
            None => 3000,
        },
{
    match raw {
        Some(s) => match parse_u16(s.as_str()) {
            Some(v) => v,
            None => 3000,
        },
        None => 3000,
    }
}

/// The time-to-live a request asks for, or the default; `None` when it is not
/// positive.
pub open spec fn resolved_ttl(requested: Option<i64>, default_ttl_seconds: i64) -> Option<i64> {
    let ttl = match requested {
        Some(t) => t,
        None => default_ttl_seconds,
    };
    if ttl > 0 { Some(ttl) } else { None }
}

/// The message of the reply to a time-to-live that is not positive.
pub open spec fn ttl_error_message() -> Seq<char> {
    "ttl_seconds must be greater than 0"@
}

/// The time-to-live for a claim: the requested one, or the default when none
/// is requested; a value that is not positive is refused with 400.
pub fn resolve_ttl_seconds(requested: Option<i64>, default_ttl_seconds: i64) -> (r: Result<i64, Reply>)
    ensures
        match resolved_ttl(requested, default_ttl_seconds) {
            Some(t) => r == Ok::<i64, Reply>(t),
            None => r matches Err(reply) && is_error_reply(reply, 400, ttl_error_message()),
        },
{
    let ttl_seconds = match requested {
        Some(t) => t,
        None => default_ttl_seconds,
    };
    if ttl_seconds <= 0 {
        return Err(error_reply(400, "ttl_seconds must be greater than 0"));
    }
    Ok(ttl_seconds)
}

/// The time-to-live of a claim is the one requested, or the default when
/// none is requested, and it is accepted exactly when it is positive.
pub proof fn lemma_ttl_is_requested_or_default(requested: Option<i64>, default_ttl_seconds: i64)
    ensures
        requested matches Some(t) ==> (resolved_ttl(requested, default_ttl_seconds) == if t > 0 { Some(t) } else { None::<i64> }),
        requested is None ==> (resolved_ttl(requested, default_ttl_seconds) == if default_ttl_seconds > 0 {
            Some(default_ttl_seconds)
        } else {
            None::<i64>
        }),
{
}

/// A text of decimal digits, with or without a leading `+`, reads as the
/// number it writes when that number fits; with a leading `-` it reads as
/// its negation for a signed type.
pub proof fn lemma_decimal_text_reads_as_its_value(digits: Seq<char>, min: int, max: int)
    requires
        digits.len() > 0,
        all_digits(digits),
        min <= 0 <= max,
    ensures
        parse_int(digits, min, max) == if digits_value(digits) <= max { Some(digits_value(digits)) } else { None::<int> },
        parse_int(seq!['+'] + digits, min, max) == if digits_value(digits) <= max { Some(digits_value(digits)) } else { None::<int> },
        min < 0 ==> parse_int(seq!['-'] + digits, min, max) == if min <= -digits_value(digits) {
            Some(-digits_value(digits))
        } else {
            None::<int>
        },
{
    lemma_digits_value_grows(digits, 0);
    assert(digits[0] != '+' && digits[0] != '-') by {
        assert(is_digit(digits[0]));
    }
    assert((seq!['+'] + digits).drop_first() == digits);
    assert((seq!['-'] + digits).drop_first() == digits);
}

/// The value of a digit text grows by its last digit: `"12" + "3"` reads as
/// `10 * 12 + 3`.
pub proof fn lemma_digits_value_appends(digits: Seq<char>, d: char)
    requires
        is_digit(d),
    ensures
        digits_value(digits.push(d)) == 10 * digits_value(digits) + (d as u32 - 48),
{
    assert(digits.push(d).drop_last() == digits);
}

} // verus!
