//! The AT text protocol: building requests and reading responses.
//!
//! A request is the text `AT`, a two-letter command, the value's
//! hexadecimal text for a set, and a carriage return. A set succeeds when
//! the device answers `OK` and a carriage return; a query answers with the
//! value's hexadecimal text and a carriage return.

use vstd::prelude::*;
use vstd::arithmetic::div_mod::lemma_fundamental_div_mod;

use crate::XbeeError;

verus! {

/// The carriage return that terminates every request and response.
pub const CR: u8 = 13;

/// Byte of one hexadecimal digit, lowercase.
pub open spec fn hex_digit_byte(v: int) -> u8
    recommends
        0 <= v < 16,
{
    if v < 10 {
        (48 + v) as u8
    } else {
        (87 + v) as u8
    }
}

/// Hexadecimal digits of `v`, most significant first; empty for zero.
pub open spec fn hex_digits(v: int) -> Seq<u8>
    recommends
        v >= 0,
    decreases v,
{
    if v <= 0 {
        Seq::empty()
    } else {
        hex_digits(v / 16).push(hex_digit_byte(v % 16))
    }
}

/// The hexadecimal text of `v`: its digits, or a single zero digit.
pub open spec fn hex_text(v: u16) -> Seq<u8> {
    if v == 0 {
        seq![48u8]
    } else {
        hex_digits(v as int)
    }
}

/// Value of one hexadecimal digit byte, either case; anything else is
/// marked by a negative result.
pub open spec fn hex_digit_value(c: u8) -> int {
    if 48 <= c <= 57 {
        c - 48
    } else if 97 <= c <= 102 {
        c - 87
    } else if 65 <= c <= 70 {
        c - 55
    } else {
        -1
    }
}

/// Whether `c` is a hexadecimal digit in either case.
pub open spec fn is_hex_digit(c: u8) -> bool {
    hex_digit_value(c) >= 0
}

/// Whether every byte of `s` is a hexadecimal digit.
pub open spec fn all_hex_digits(s: Seq<u8>) -> bool {
    forall|k: int| 0 <= k < s.len() ==> is_hex_digit(#[trigger] s[k])
}

/// The number written by `s` read as hexadecimal digits.
pub open spec fn hex_value(s: Seq<u8>) -> int
    recommends
        all_hex_digits(s),
    decreases s.len(),
{
    if s.len() == 0 {
        0
    } else {
        hex_value(s.drop_last()) * 16 + hex_digit_value(s.last())
    }
}

/// What parsing text as a hexadecimal `u16` yields: the value when the
/// text is nonempty, all digits, and in range; nothing otherwise.
pub open spec fn parse_hex_u16(s: Seq<u8>) -> Option<u16> {
    if s.len() > 0 && all_hex_digits(s) && hex_value(s) <= u16::MAX {
        Some(hex_value(s) as u16)
    } else {
        None
    }
}

/// The bytes of one AT request: `AT`, the two command letters, the
/// value's hexadecimal text when one is given, and a carriage return.
pub open spec fn at_request(c0: u8, c1: u8, value: Option<u16>) -> Seq<u8> {
    seq![('A' as u8), ('T' as u8), c0, c1] + (match value {
        Some(v) => hex_text(v),
        None => Seq::<u8>::empty(),
    }) + seq![CR]
}

/// The guard sequence that asks the device for command mode.
pub open spec fn guard_sequence() -> Seq<u8> {
    seq![('+' as u8), ('+' as u8), ('+' as u8)]
}

/// The text with which the device acknowledges a set or the guard
/// sequence.
pub open spec fn ok_response() -> Seq<u8> {
    seq![('O' as u8), ('K' as u8), CR]
}

/// A response with its trailing byte (the carriage return) removed; an
/// empty response stays empty.
pub open spec fn response_body(resp: Seq<u8>) -> Seq<u8> {
    if resp.len() == 0 {
        resp
    } else {
        resp.drop_last()
    }
}

/// What a query makes of a response: the body before the carriage return
/// parsed as hexadecimal, or a parse error.
pub open spec fn query_result(resp: Seq<u8>) -> Result<u16, XbeeError> {
    match parse_hex_u16(response_body(resp)) {
        Some(v) => Ok(v),
        None => Err(XbeeError::ParseError),
    }
}

/// A nonempty run of hexadecimal digits names a nonnegative number.
proof fn lemma_hex_value_nonneg(s: Seq<u8>)
    requires
        all_hex_digits(s),
    ensures
        hex_value(s) >= 0,
    decreases s.len(),
{
    if s.len() > 0 {
        assert(all_hex_digits(s.drop_last()));
        lemma_hex_value_nonneg(s.drop_last());
    }
}

/// Reading further digits never shrinks the number already read.
proof fn lemma_hex_value_prefix_le(s: Seq<u8>, i: int)
    requires
        all_hex_digits(s),
        0 <= i <= s.len(),
    ensures
        hex_value(s.take(i)) <= hex_value(s),
    decreases s.len() - i,
{
    if i < s.len() {
        assert(s.take(i + 1).drop_last() =~= s.take(i));
        assert(s.take(i + 1).last() == s[i]);
        assert(all_hex_digits(s.take(i)));
        lemma_hex_value_nonneg(s.take(i));
        assert(hex_value(s.take(i + 1)) == hex_value(s.take(i)) * 16 + hex_digit_value(s[i]));
        assert(hex_value(s.take(i)) <= hex_value(s.take(i + 1)));
        lemma_hex_value_prefix_le(s, i + 1);
        assert(s.take(s.len() as int) =~= s);
    } else {
        assert(s.take(i) =~= s);
    }
}

/// Appends the hexadecimal digits of `v` to `out`, most significant
/// first.
fn push_hex_digits(v: u16, out: &mut Vec<u8>)
    ensures
        final(out)@ == old(out)@ + hex_digits(v as int),
    decreases v,
{
    if v == 0 {
        assert(out@ =~= old(out)@ + hex_digits(0));
        return ;
    }
    push_hex_digits(v / 16, out);
    let d = v % 16;
    let digit: u8 = if d < 10 {
        (48 + d) as u8
    } else {
        (87 + (d - 10) + 10) as u8
    };
    assert(digit == hex_digit_byte(d as int));
    out.push(digit);
    assert(out@ =~= old(out)@ + hex_digits(v as int));
}

/// Encodes one AT request from the command letters and an optional value.
pub fn encode_at_request(c0: u8, c1: u8, value: Option<u16>) -> (req: Vec<u8>)
    ensures
        req@ == at_request(c0, c1, value),
{
    let mut req: Vec<u8> = Vec::new();
    req.push('A' as u8);
    req.push('T' as u8);
    req.push(c0);
    req.push(c1);
    match value {
        Some(v) => {
            if v == 0 {
                req.push(48);
            } else {
                push_hex_digits(v, &mut req);
            }
        },
        None => {},
    }
    req.push(CR);
    assert(req@ =~= at_request(c0, c1, value));
    req
}

/// The guard sequence as bytes ready to write.
pub fn guard_bytes() -> (guard: Vec<u8>)
    ensures
        guard@ == guard_sequence(),
{
    let mut guard: Vec<u8> = Vec::new();
    guard.push('+' as u8);
    guard.push('+' as u8);
    guard.push('+' as u8);
    assert(guard@ =~= guard_sequence());
    guard
}

/// Whether a response is exactly the acknowledgement text.
pub fn is_ok_response(resp: &[u8]) -> (r: bool)
    ensures
        r == (resp@ == ok_response()),
{
    if resp.len() != 3 {
        return false;
    }
    let r = resp[0] == 'O' as u8 && resp[1] == 'K' as u8 && resp[2] == CR;
    proof {
        if r {
            assert(resp@ =~= ok_response());
        }
    }
    r
}

/// Parses text as a hexadecimal `u16`.
pub fn hex_to_u16(s: &[u8]) -> (r: Option<u16>)
    ensures
        r == parse_hex_u16(s@),
{
    if s.len() == 0 {
        return None;
    }
    let mut value: u32 = 0;
    let mut i: usize = 0;
    while i < s.len()
        invariant
            0 <= i <= s@.len(),
            all_hex_digits(s@.take(i as int)),
            value == hex_value(s@.take(i as int)),
            value <= u16::MAX,
        decreases s@.len() - i,
    {
        let c = s[i];
        let digit: u32 = if 48 <= c && c <= 57 {
            (c - 48) as u32
        } else if 97 <= c && c <= 102 {
            (c - 87) as u32
        } else if 65 <= c && c <= 70 {
            (c - 55) as u32
        } else {
            assert(!is_hex_digit(s@[i as int]));
            return None;
        };
        assert(digit == hex_digit_value(s@[i as int]));
        proof {
            assert(s@.take(i + 1).drop_last() =~= s@.take(i as int));
            assert(s@.take(i + 1).last() == s@[i as int]);
        }
        let next = value * 16 + digit;
        if next > u16::MAX as u32 {
            proof {
                if all_hex_digits(s@) {
                    lemma_hex_value_prefix_le(s@, i + 1);
                }
            }
            return None;
        }
        value = next;
        i += 1;
    }
    assert(s@.take(s@.len() as int) =~= s@);
    Some(value as u16)
}

/// Reads a query response: everything before the trailing carriage
/// return, parsed as a hexadecimal `u16`.
pub fn parse_query_response(resp: &[u8]) -> (r: Result<u16, XbeeError>)
    ensures
        r == query_result(resp@),
{
    if resp.len() == 0 {
        match hex_to_u16(resp) {
            Some(v) => Ok(v),
            None => Err(XbeeError::ParseError),
        }
    } else {
        let body = vstd::slice::slice_subrange(resp, 0, resp.len() - 1);
        assert(body@ =~= response_body(resp@));
        match hex_to_u16(body) {
            Some(v) => Ok(v),
            None => Err(XbeeError::ParseError),
        }
    }
}

/// The digits written for `v` read back as the number `v` again.
proof fn lemma_hex_digits_value(v: int)
    requires
        v >= 0,
    ensures
        all_hex_digits(hex_digits(v)),
        hex_value(hex_digits(v)) == v,
        v > 0 ==> hex_digits(v).len() > 0,
    decreases v,
{
    if v > 0 {
        lemma_hex_digits_value(v / 16);
        let s = hex_digits(v);
        assert(s.drop_last() =~= hex_digits(v / 16));
        assert(s.last() == hex_digit_byte(v % 16));
        assert(hex_digit_value(hex_digit_byte(v % 16)) == v % 16);
        lemma_fundamental_div_mod(v, 16);
    }
}

/// Writing a value as hexadecimal text and parsing the text back yields
/// the value again.
pub proof fn lemma_hex_round_trip(v: u16)
    ensures
        parse_hex_u16(hex_text(v)) == Some(v),
{
    if v == 0 {
        let s = hex_text(0);
        assert(s.len() == 1 && s.last() == 48u8);
        assert(s.drop_last() =~= Seq::<u8>::empty());
        assert(hex_value(Seq::<u8>::empty()) == 0);
        assert(hex_value(s) == hex_value(s.drop_last()) * 16 + hex_digit_value(s.last()));
        assert(all_hex_digits(s));
    } else {
        lemma_hex_digits_value(v as int);
    }
}

} // verus!
