//! Standard (RFC 4648) base64 encoding with `=` padding, used to keep the raw
//! body of every captured request.
use vstd::prelude::*;
use crate::text::string_from_chars;

verus! {

/// The alphabet: `A-Z`, `a-z`, `0-9`, `+`, `/` for the values 0 to 63.
pub open spec fn b64_digit(v: u8) -> char {
    if v < 26 {
        ((v + 65) as u8) as char
    } else if v < 52 {
        ((v + 71) as u8) as char
    } else if v < 62 {
        ((v - 4) as u8) as char
    } else if v == 62 {
        '+'
    } else {
        '/'
    }
}

/// The four 6-bit values that encode three bytes.
pub open spec fn split_group(b0: u8, b1: u8, b2: u8) -> (u8, u8, u8, u8) {
    (b0 >> 2, ((b0 & 3) << 4) | (b1 >> 4), ((b1 & 15) << 2) | (b2 >> 6), b2 & 63)
}

/// The base64 text of `d`: each group of three bytes becomes four digits;
/// a final group of one or two bytes is padded with `=` to four characters.
pub open spec fn base64_encode(d: Seq<u8>) -> Seq<char>
    decreases d.len(),
{
    if d.len() == 0 {
        seq![]
    } else if d.len() == 1 {
        let g = split_group(d[0], 0, 0);
        seq![b64_digit(g.0), b64_digit(g.1), '=', '=']
    } else if d.len() == 2 {
        let g = split_group(d[0], d[1], 0);
        seq![b64_digit(g.0), b64_digit(g.1), b64_digit(g.2), '=']
    } else {
        let g = split_group(d[0], d[1], d[2]);
        seq![b64_digit(g.0), b64_digit(g.1), b64_digit(g.2), b64_digit(g.3)] + base64_encode(d.skip(3))
    }
}

/// The value of a base64 digit, if `c` is one.
pub open spec fn digit_value(c: char) -> Option<u8> {
    if 'A' <= c && c <= 'Z' {
        Some(((c as u32) - 65) as u8)
    } else if 'a' <= c && c <= 'z' {
        Some(((c as u32) - 71) as u8)
    } else if '0' <= c && c <= '9' {
        Some(((c as u32) + 4) as u8)
    } else if c == '+' {
        Some(62)
    } else if c == '/' {
        Some(63)
    } else {
        None
    }
}

/// The three bytes that four 6-bit values stand for.
pub open spec fn join_group(a: u8, b: u8, c: u8, d: u8) -> (u8, u8, u8) {
    (((a << 2) | (b >> 4)) as u8, ((b << 4) | (c >> 2)) as u8, ((c << 6) | d) as u8)
}

/// Decoding of padded base64 text; `None` when the text is not in the form
/// `base64_encode` produces groups in.
pub open spec fn base64_decode(s: Seq<char>) -> Option<Seq<u8>>
    decreases s.len(),
{
    if s.len() == 0 {
        Some(seq![])
    } else if s.len() < 4 {
        None
    } else if s.len() == 4 && s[2] == '=' && s[3] == '=' {
        match (digit_value(s[0]), digit_value(s[1])) {
            (Some(a), Some(b)) => Some(seq![join_group(a, b, 0, 0).0]),
            _ => None,
        }
    } else if s.len() == 4 && s[3] == '=' {
        match (digit_value(s[0]), digit_value(s[1]), digit_value(s[2])) {
            (Some(a), Some(b), Some(c)) => {
                let g = join_group(a, b, c, 0);
                Some(seq![g.0, g.1])
            },
            _ => None,
        }
    } else {
        match (digit_value(s[0]), digit_value(s[1]), digit_value(s[2]), digit_value(s[3])) {
            (Some(a), Some(b), Some(c), Some(e)) => match base64_decode(s.skip(4)) {
                Some(rest) => {
                    let g = join_group(a, b, c, e);
                    Some(seq![g.0, g.1, g.2] + rest)
                },
                None => None,
            },
            _ => None,
        }
    }
}

/// The digit for a 6-bit value.
fn digit_char(v: u8) -> (c: char)
    requires
        v < 64,
    ensures
        c == b64_digit(v),
{
    if v < 26 {
        (v + 65) as char
    } else if v < 52 {
        (v + 71) as char
    } else if v < 62 {
        (v - 4) as char
    } else if v == 62 {
        '+'
    } else {
        '/'
    }
}

proof fn lemma_split_group_bounds(b0: u8, b1: u8, b2: u8)
    ensures
        split_group(b0, b1, b2).0 < 64,
        split_group(b0, b1, b2).1 < 64,
        split_group(b0, b1, b2).2 < 64,
        split_group(b0, b1, b2).3 < 64,
{
    assert(b0 >> 2 < 64 && ((b0 & 3) << 4) | (b1 >> 4) < 64 && ((b1 & 15) << 2) | (b2 >> 6) < 64
        && b2 & 63 < 64) by (bit_vector);
}

/// Encodes `data` as standard base64 with `=` padding.
pub fn encode_base64(data: &[u8]) -> (out: String)
    ensures
        out@ == base64_encode(data@),
{
    let mut digits: Vec<char> = Vec::new();
    let mut i: usize = 0;
    assert(data@.skip(0) == data@);
    while data.len() - i >= 3
        invariant
            i <= data.len(),
            base64_encode(data@) == digits@ + base64_encode(data@.skip(i as int)),
        decreases data.len() - i,
    {
        let b0 = data[i];
        let b1 = data[i + 1];
        let b2 = data[i + 2];
        proof {
            lemma_split_group_bounds(b0, b1, b2);
        }
        let ghost before = digits@;
        let ghost rest = data@.skip(i as int);
        assert(rest[0] == b0 && rest[1] == b1 && rest[2] == b2);
        assert(rest.skip(3) == data@.skip(i + 3));
        digits.push(digit_char(b0 >> 2));
        digits.push(digit_char(((b0 & 3) << 4) | (b1 >> 4)));
        digits.push(digit_char(((b1 & 15) << 2) | (b2 >> 6)));
        digits.push(digit_char(b2 & 63));
        let ghost g = split_group(b0, b1, b2);
        assert(digits@ == before + seq![b64_digit(g.0), b64_digit(g.1), b64_digit(g.2), b64_digit(g.3)]);
        i = i + 3;
    }
    let rem = data.len() - i;
    let ghost before = digits@;
    let ghost rest = data@.skip(i as int);
    if rem == 1 {
        let b0 = data[i];
        proof {
            lemma_split_group_bounds(b0, 0, 0);
        }
        assert(rest[0] == b0);
        assert((b0 & 3) << 4 == ((b0 & 3) << 4) | (0u8 >> 4)) by (bit_vector);
        digits.push(digit_char(b0 >> 2));
        digits.push(digit_char((b0 & 3) << 4));
        digits.push('=');
        digits.push('=');
        assert(digits@ == before + base64_encode(rest));
    } else if rem == 2 {
        let b0 = data[i];
        let b1 = data[i + 1];
        proof {
            lemma_split_group_bounds(b0, b1, 0);
        }
        assert(rest[0] == b0 && rest[1] == b1);
        assert((b1 & 15) << 2 == ((b1 & 15) << 2) | (0u8 >> 6)) by (bit_vector);
        digits.push(digit_char(b0 >> 2));
        digits.push(digit_char(((b0 & 3) << 4) | (b1 >> 4)));
        digits.push(digit_char((b1 & 15) << 2));
        digits.push('=');
        assert(digits@ == before + base64_encode(rest));
    } else {
        assert(rest.len() == 0);
        assert(digits@ == before + base64_encode(rest));
    }
    string_from_chars(&digits)
}

/// A base64 digit reads back as the value it was written for, and is never
/// the padding character.
pub proof fn lemma_digit_round_trip(v: u8)
    requires
        v < 64,
    ensures
        digit_value(b64_digit(v)) == Some(v),
        b64_digit(v) != '=',
{
}

/// Joining the four 6-bit values of a group gives back its three bytes.
pub proof fn lemma_group_round_trip(b0: u8, b1: u8, b2: u8)
    ensures
        ({
            let g = split_group(b0, b1, b2);
            &&& join_group(g.0, g.1, g.2, g.3) == (b0, b1, b2)
            &&& join_group(split_group(b0, 0, 0).0, split_group(b0, 0, 0).1, 0, 0).0 == b0
            &&& join_group(split_group(b0, b1, 0).0, split_group(b0, b1, 0).1, split_group(b0, b1, 0).2, 0).0 == b0
            &&& join_group(split_group(b0, b1, 0).0, split_group(b0, b1, 0).1, split_group(b0, b1, 0).2, 0).1 == b1
        }),
{
    assert(((((b0 >> 2) << 2) | ((((b0 & 3) << 4) | (b1 >> 4)) >> 4)) as u8) == b0
        && (((((b0 & 3) << 4) | (b1 >> 4)) << 4) | ((((b1 & 15) << 2) | (b2 >> 6)) >> 2)) as u8 == b1
        && (((((b1 & 15) << 2) | (b2 >> 6)) << 6) | (b2 & 63)) as u8 == b2) by (bit_vector);
    assert(((((b0 >> 2) << 2) | ((((b0 & 3) << 4) | (0u8 >> 4)) >> 4)) as u8) == b0) by (bit_vector);
    assert(((((b0 >> 2) << 2) | ((((b0 & 3) << 4) | (b1 >> 4)) >> 4)) as u8) == b0
        && (((((b0 & 3) << 4) | (b1 >> 4)) << 4) | ((((b1 & 15) << 2) | (0u8 >> 6)) >> 2)) as u8 == b1)
        by (bit_vector);
}

/// Decoding the base64 text of any byte sequence gives that sequence back:
/// the stored text keeps the raw body exactly.
pub proof fn lemma_base64_round_trip(d: Seq<u8>)
    ensures
        base64_decode(base64_encode(d)) == Some(d),
    decreases d.len(),
{
    if d.len() == 0 {
    } else if d.len() == 1 {
        let g = split_group(d[0], 0, 0);
        lemma_split_group_bounds(d[0], 0, 0);
        lemma_digit_round_trip(g.0);
        lemma_digit_round_trip(g.1);
        lemma_group_round_trip(d[0], 0, 0);
        assert(seq![d[0]] == d);
    } else if d.len() == 2 {
        let g = split_group(d[0], d[1], 0);
        lemma_split_group_bounds(d[0], d[1], 0);
        lemma_digit_round_trip(g.0);
        lemma_digit_round_trip(g.1);
        lemma_digit_round_trip(g.2);
        lemma_group_round_trip(d[0], d[1], 0);
        assert(seq![d[0], d[1]] == d);
    } else {
        let g = split_group(d[0], d[1], d[2]);
        lemma_split_group_bounds(d[0], d[1], d[2]);
        lemma_digit_round_trip(g.0);
        lemma_digit_round_trip(g.1);
        lemma_digit_round_trip(g.2);
        lemma_digit_round_trip(g.3);
        lemma_group_round_trip(d[0], d[1], d[2]);
        lemma_base64_round_trip(d.skip(3));
        let head = seq![b64_digit(g.0), b64_digit(g.1), b64_digit(g.2), b64_digit(g.3)];
        let s = base64_encode(d);
        assert(s == head + base64_encode(d.skip(3)));
        assert(s.skip(4) == base64_encode(d.skip(3)));
        assert(s[3] == b64_digit(g.3));
        assert(seq![d[0], d[1], d[2]] + d.skip(3) == d);
    }
}

/// The base64 text of `d` has four characters for every started group of
/// three bytes.
pub proof fn lemma_base64_length(d: Seq<u8>)
    ensures
        base64_encode(d).len() == 4 * ((d.len() + 2) / 3),
    decreases d.len(),
{
    if d.len() >= 3 {
        lemma_base64_length(d.skip(3));
    }
}

/// The digits are the RFC 4648 alphabet in order: the values 0 to 25 are
/// `A` to `Z`, 26 to 51 are `a` to `z`, 52 to 61 are `0` to `9`, 62 is `+`
/// and 63 is `/`.
pub proof fn lemma_base64_alphabet(v: u8)
    requires
        v < 64,
    ensures
        v < 26 ==> b64_digit(v) as u32 == 'A' as u32 + v,
        26 <= v < 52 ==> b64_digit(v) as u32 == 'a' as u32 + (v - 26),
        52 <= v < 62 ==> b64_digit(v) as u32 == '0' as u32 + (v - 52),
        v == 62 ==> b64_digit(v) == '+',
        v == 63 ==> b64_digit(v) == '/',
{
}

/// The text is padded with `=` only at its end: none when the length is a
/// multiple of three, `==` after one leftover byte and `=` after two.
pub proof fn lemma_base64_padding(d: Seq<u8>)
    ensures
        ({
            let s = base64_encode(d);
            &&& d.len() % 3 == 0 ==> forall|i: int| 0 <= i < s.len() ==> #[trigger] s[i] != '='
            &&& d.len() % 3 == 1 ==> s[s.len() - 1] == '=' && s[s.len() - 2] == '=' && forall|i: int| 0 <= i < s.len() - 2 ==> #[trigger] s[i] != '='
            &&& d.len() % 3 == 2 ==> s[s.len() - 1] == '=' && forall|i: int| 0 <= i < s.len() - 1 ==> #[trigger] s[i] != '='
        }),
    decreases d.len(),
{
    let s = base64_encode(d);
    if d.len() == 0 {
    } else if d.len() == 1 {
        let g = split_group(d[0], 0, 0);
        lemma_split_group_bounds(d[0], 0, 0);
        lemma_digit_round_trip(g.0);
        lemma_digit_round_trip(g.1);
    } else if d.len() == 2 {
        let g = split_group(d[0], d[1], 0);
        lemma_split_group_bounds(d[0], d[1], 0);
        lemma_digit_round_trip(g.0);
        lemma_digit_round_trip(g.1);
        lemma_digit_round_trip(g.2);
    } else {
        let g = split_group(d[0], d[1], d[2]);
        lemma_split_group_bounds(d[0], d[1], d[2]);
        lemma_digit_round_trip(g.0);
        lemma_digit_round_trip(g.1);
        lemma_digit_round_trip(g.2);
        lemma_digit_round_trip(g.3);
        lemma_base64_padding(d.skip(3));
        lemma_base64_length(d.skip(3));
        let head = seq![b64_digit(g.0), b64_digit(g.1), b64_digit(g.2), b64_digit(g.3)];
        let rest = base64_encode(d.skip(3));
        assert(s == head + rest);
        assert(d.skip(3).len() % 3 == d.len() % 3);
        assert forall|i: int| 0 <= i < 4 implies #[trigger] s[i] != '=' by {
            assert(s[i] == head[i]);
        }
        assert forall|i: int| 4 <= i < s.len() implies #[trigger] s[i] == rest[i - 4] by {}
    }
}

} // verus!
