//! The rules that read NMEA fields: checksum validation, times, dates and
//! coordinates.
use vstd::prelude::*;
use vstd::string::StringSliceAdditionalSpecFns;
use vstd::utf8::{
    decode_utf8, decode_utf8_split, encode_utf8, is_char_boundary_iff_not_is_continuation_byte,
    valid_utf8, valid_utf8_concat,
};

use crate::error::{message_for, ErrorKind, ParseError};
use crate::number::{
    all_hex, hex_digits_value, hex_u8_from_str, hex_value, int_from_str, is_f64_literal,
    parse_hex_u8, parse_signed_bytes, parse_unsigned_bytes, FloatLiteral, FromField,
};
use crate::str_parser::{StrFlowRule, StrGlobalRule};
use crate::text::{
    find_byte_from, find_from, lemma_after_ascii, lemma_ascii_boundary, lemma_find_from,
    lemma_str_valid, sbytes, substr, suffix,
};
use crate::time::{
    date_valid, frac_nanos, frac_nanos_exec, time_valid, Date, UtcDateTime, UtcTime,
};

verus! {

broadcast use vstd::utf8::group_utf8_lib;

/// The bytes that delimit NMEA fields.
pub const COMMA: u8 = 44;

pub const STAR: u8 = 42;

pub const NEW_LINE: u8 = 10;

/// `char::is_whitespace`: the characters with the Unicode `White_Space` property.
pub open spec fn is_whitespace_char(c: char) -> bool {
    let u = c as u32;
    (0x09 <= u <= 0x0d) || u == 0x20 || u == 0x85 || u == 0xa0 || u == 0x1680 || (0x2000 <= u
        <= 0x200a) || u == 0x2028 || u == 0x2029 || u == 0x202f || u == 0x205f || u == 0x3000
}

/// The characters of `s` without its trailing whitespace.
pub open spec fn trim_end_chars(s: Seq<char>) -> Seq<char>
    decreases s.len(),
{
    if s.len() > 0 && is_whitespace_char(s.last()) {
        trim_end_chars(s.drop_last())
    } else {
        s
    }
}

/// Calls `str::trim_end`, which removes the trailing characters that
/// `char::is_whitespace` holds for (Unicode `White_Space`).
#[verifier::external_body]
fn trim_end<'a>(s: &'a str) -> (r: &'a str)
    ensures
        r@ == trim_end_chars(s@),
{
    s.trim_end()
}

/// The bytes of a string without its trailing whitespace.
pub open spec fn trimmed(b: Seq<u8>) -> Seq<u8> {
    encode_utf8(trim_end_chars(decode_utf8(b)))
}

/// The exclusive or of all bytes of `s`.
pub open spec fn xor_all(s: Seq<u8>) -> u8
    decreases s.len(),
{
    if s.len() == 0 {
        0
    } else {
        xor_all(s.drop_last()) ^ s.last()
    }
}

/// Whether `t` is an NMEA sentence with a correct checksum: it starts with
/// `$`, has a `*`, two hexadecimal digits follow the first `*`, and they give
/// the exclusive or of the bytes between `$` and `*`. The first check that
/// fails says what is wrong.
pub open spec fn checksum_check(t: Seq<u8>) -> Result<(), ErrorKind> {
    if t.len() == 0 || t[0] != 36 {
        Err(ErrorKind::MissingDollar)
    } else {
        match find_from(t, 42, 0) {
            None => Err(ErrorKind::MissingChecksumDelimiter),
            Some(star) => {
                let data = t.subrange(1, star);
                let cs = t.skip(star + 1);
                if cs.len() != 2 {
                    Err(ErrorKind::ChecksumLength(cs.len() as usize))
                } else {
                    match hex_u8_from_str(cs) {
                        None => Err(ErrorKind::InvalidHexChecksum),
                        Some(expected) => if xor_all(data) != expected {
                            Err(ErrorKind::ChecksumMismatch { calculated: xor_all(data), expected })
                        } else {
                            Ok(())
                        },
                    }
                }
            },
        }
    }
}

/// The upper-case hexadecimal digit for `d`, as a byte.
pub open spec fn hex_digit_byte(d: nat) -> u8 {
    if d < 10 {
        (48 + d) as u8
    } else {
        (55 + d) as u8
    }
}

/// The two upper-case hexadecimal digits of `v`.
pub open spec fn hex2_bytes(v: u8) -> Seq<u8> {
    seq![hex_digit_byte(v as nat / 16), hex_digit_byte(v as nat % 16)]
}

/// A sentence made of `$`, the data, `*` and the checksum's two digits.
pub open spec fn framed(data: Seq<u8>, checksum: u8) -> Seq<u8> {
    seq![36u8] + data + seq![42u8] + hex2_bytes(checksum)
}

/// Two hexadecimal digits read back as the byte they were written from.
pub proof fn lemma_hex2_read(v: u8)
    ensures
        hex_u8_from_str(hex2_bytes(v)) == Some(v),
{
    let h = hex2_bytes(v);
    assert(hex_value(h[0]) == Some((v as nat / 16)));
    assert(hex_value(h[1]) == Some((v as nat % 16)));
    assert(all_hex(h));
    let h1 = h.drop_last();
    assert(h1.drop_last() =~= Seq::<u8>::empty());
    assert(hex_digits_value(h1.drop_last()) == 0);
    assert(h1.last() == h[0]);
    assert(hex_digits_value(h1) == v as nat / 16);
    assert(h.last() == h[1]);
    assert(hex_digits_value(h) == v as nat);
}

/// Where the `*` of a framed sentence is, and what lies on either side of it.
proof fn lemma_framed_parts(data: Seq<u8>, checksum: u8)
    requires
        forall|i: int| 0 <= i < data.len() ==> data[i] != 42,
    ensures
        find_from(framed(data, checksum), 42, 0) == Some(data.len() + 1 as int),
        framed(data, checksum).subrange(1, data.len() + 1 as int) == data,
        framed(data, checksum).skip(data.len() + 2 as int) == hex2_bytes(checksum),
{
    let t = framed(data, checksum);
    assert forall|j: int| 0 <= j < data.len() + 1 implies t[j] != 42 by {
        if j > 0 {
            assert(t[j] == data[j - 1]);
        }
    }
    crate::text::lemma_find_unique(t, 42, 0, data.len() + 1 as int);
    assert(t.subrange(1, data.len() + 1 as int) =~= data);
    assert(t.skip(data.len() + 2 as int) =~= hex2_bytes(checksum));
}

/// A sentence whose checksum is the exclusive or of its data passes the
/// check, when the data holds no `*`.
pub proof fn law_checksum_accepts(data: Seq<u8>)
    requires
        forall|i: int| 0 <= i < data.len() ==> data[i] != 42,
    ensures
        checksum_check(framed(data, xor_all(data))) == Ok::<(), ErrorKind>(()),
{
    lemma_framed_parts(data, xor_all(data));
    lemma_hex2_read(xor_all(data));
}

/// A sentence whose checksum is any other byte fails the check as a
/// mismatch that names both the computed and the written checksum.
pub proof fn law_checksum_mismatch(data: Seq<u8>, checksum: u8)
    requires
        forall|i: int| 0 <= i < data.len() ==> data[i] != 42,
        checksum != xor_all(data),
    ensures
        checksum_check(framed(data, checksum)) == Err::<(), ErrorKind>(
            ErrorKind::ChecksumMismatch { calculated: xor_all(data), expected: checksum },
        ),
{
    lemma_framed_parts(data, checksum);
    lemma_hex2_read(checksum);
}

/// One ASCII byte is valid UTF-8 and decodes to its own character.
proof fn lemma_ascii_byte(b: u8)
    requires
        b < 128,
    ensures
        valid_utf8(seq![b]),
        decode_utf8(seq![b]) == seq![b as char],
{
    let s = seq![b];
    assert(b & 0x7f == b) by (bit_vector)
        requires
            b < 128,
    ;
    assert(s.subrange(1, 1) =~= Seq::<u8>::empty());
    assert(decode_utf8(Seq::<u8>::empty()) =~= Seq::<char>::empty());
    assert(valid_utf8(Seq::<u8>::empty()));
    assert(valid_utf8(s)) by {
        reveal_with_fuel(valid_utf8, 2);
    }
    assert(decode_utf8(s) =~= seq![b as char]);
}

/// Text that ends in an ASCII character other than whitespace is its own
/// trimmed text, also when a line ending (`\r\n`) follows it.
pub proof fn lemma_trim_ascii_end(t: Seq<u8>)
    requires
        valid_utf8(t),
        t.len() > 0,
        t.last() < 128,
        !is_whitespace_char(t.last() as char),
    ensures
        trimmed(t) == t,
        trimmed(t + seq![13u8, 10u8]) == t,
{
    let n = t.len() as int;
    is_char_boundary_iff_not_is_continuation_byte(t, n - 1);
    decode_utf8_split(t, n - 1);
    assert(t.subrange(n - 1, n) =~= seq![t.last()]);
    lemma_ascii_byte(t.last());
    let d = decode_utf8(t);
    assert(d.last() == t.last() as char);
    assert(trim_end_chars(d) == d);
    let crlf = seq![13u8, 10u8];
    lemma_ascii_byte(13);
    lemma_ascii_byte(10);
    assert(crlf =~= seq![13u8] + seq![10u8]);
    valid_utf8_concat(seq![13u8], seq![10u8]);
    is_char_boundary_iff_not_is_continuation_byte(crlf, 1);
    decode_utf8_split(crlf, 1);
    assert(crlf.subrange(0, 1) =~= seq![13u8]);
    assert(crlf.subrange(1, 2) =~= seq![10u8]);
    assert(decode_utf8(crlf) =~= seq![13u8 as char, 10u8 as char]);
    let u = t + crlf;
    valid_utf8_concat(t, crlf);
    is_char_boundary_iff_not_is_continuation_byte(u, n);
    decode_utf8_split(u, n);
    assert(u.subrange(0, n) =~= t);
    assert(u.subrange(n, u.len() as int) =~= crlf);
    let e = decode_utf8(u);
    assert(e =~= d + seq![13u8 as char, 10u8 as char]);
    assert(e.drop_last() =~= d + seq![13u8 as char]);
    assert((d + seq![13u8 as char]).drop_last() =~= d);
    assert(trim_end_chars(e) == trim_end_chars(d + seq![13u8 as char]));
    assert(trim_end_chars(d + seq![13u8 as char]) == trim_end_chars(d));
}

/// The pieces of a framed sentence around its data are ASCII.
proof fn lemma_framed_valid(data: Seq<u8>, checksum: u8)
    requires
        valid_utf8(data),
    ensures
        valid_utf8(framed(data, checksum)),
        framed(data, checksum).last() < 128,
        !is_whitespace_char(framed(data, checksum).last() as char),
{
    let h = hex2_bytes(checksum);
    lemma_ascii_byte(36);
    lemma_ascii_byte(42);
    lemma_ascii_byte(h[0]);
    lemma_ascii_byte(h[1]);
    assert(h =~= seq![h[0]] + seq![h[1]]);
    valid_utf8_concat(seq![h[0]], seq![h[1]]);
    valid_utf8_concat(seq![36u8], data);
    valid_utf8_concat(seq![36u8] + data, seq![42u8]);
    valid_utf8_concat(seq![36u8] + data + seq![42u8], h);
    assert(framed(data, checksum).last() == h[1]);
}

/// [`NmeaValidate`] accepts a sentence whose checksum is the exclusive or
/// of its data (UTF-8 without `*`), with or without a line ending after it.
pub proof fn law_validate_accepts(data: Seq<u8>)
    requires
        valid_utf8(data),
        forall|i: int| 0 <= i < data.len() ==> data[i] != 42,
    ensures
        checksum_check(trimmed(framed(data, xor_all(data)))) == Ok::<(), ErrorKind>(()),
        checksum_check(trimmed(framed(data, xor_all(data)) + seq![13u8, 10u8])) == Ok::<
            (),
            ErrorKind,
        >(()),
{
    lemma_framed_valid(data, xor_all(data));
    lemma_trim_ascii_end(framed(data, xor_all(data)));
    law_checksum_accepts(data);
}

/// [`NmeaValidate`] refuses a sentence with any other checksum as a
/// mismatch, with or without a line ending after it.
pub proof fn law_validate_mismatch(data: Seq<u8>, checksum: u8)
    requires
        valid_utf8(data),
        forall|i: int| 0 <= i < data.len() ==> data[i] != 42,
        checksum != xor_all(data),
    ensures
        checksum_check(trimmed(framed(data, checksum))) == Err::<(), ErrorKind>(
            ErrorKind::ChecksumMismatch { calculated: xor_all(data), expected: checksum },
        ),
        checksum_check(trimmed(framed(data, checksum) + seq![13u8, 10u8])) == Err::<(), ErrorKind>(
            ErrorKind::ChecksumMismatch { calculated: xor_all(data), expected: checksum },
        ),
{
    lemma_framed_valid(data, checksum);
    lemma_trim_ascii_end(framed(data, checksum));
    law_checksum_mismatch(data, checksum);
}

/// `out` reports the result `expected` of a check, with its message.
pub open spec fn reports(out: Result<(), ParseError>, expected: Result<(), ErrorKind>) -> bool {
    match expected {
        Ok(()) => out is Ok,
        Err(k) => out matches Err(e) && e.kind == k && e.message@ == message_for(k),
    }
}

/// The exclusive or of all bytes of `s`.
pub fn xor_bytes(s: &[u8]) -> (r: u8)
    ensures
        r == xor_all(s@),
{
    let mut acc: u8 = 0;
    let mut i: usize = 0;
    while i < s.len()
        invariant
            i <= s@.len(),
            acc == xor_all(s@.take(i as int)),
        decreases s.len() - i,
    {
        assert(s@.take(i + 1).drop_last() =~= s@.take(i as int));
        acc = acc ^ s[i];
        i = i + 1;
    }
    assert(s@.take(i as int) =~= s@);
    acc
}

/// Checks the bytes of a sentence that has already had its trailing
/// whitespace removed.
pub(crate) fn check_sentence(b: &[u8]) -> (r: Result<(), ParseError>)
    ensures
        reports(r, checksum_check(b@)),
{
    if b.len() == 0 || b[0] != 36 {
        return Err(ParseError::missing_dollar());
    }
    let star = match find_byte_from(b, 42, 0) {
        None => {
            return Err(ParseError::missing_checksum_delimiter());
        },
        Some(s) => s,
    };
    proof {
        lemma_find_from(b@, 42, 0);
        assert(find_from(b@, 42, 0) == Some(star as int));
    }
    assert(star >= 1);
    let data = vstd::slice::slice_subrange(b, 1, star);
    let cs = vstd::slice::slice_subrange(b, star + 1, b.len());
    assert(cs@ =~= b@.skip(star + 1));
    if cs.len() != 2 {
        return Err(ParseError::checksum_length(cs.len()));
    }
    let expected = match parse_hex_u8(cs) {
        None => {
            return Err(ParseError::invalid_hex_checksum());
        },
        Some(e) => e,
    };
    let calculated = xor_bytes(data);
    if calculated != expected {
        return Err(ParseError::checksum_mismatch(calculated, expected));
    }
    Ok(())
}

/// Checks that a sentence starts with `$` and that its checksum is correct,
/// ignoring trailing whitespace.
pub struct NmeaValidate();

impl<'a> StrGlobalRule<'a> for NmeaValidate {
    type Output = Result<(), ParseError>;

    open spec fn spec_output(&self, input: Seq<u8>, out: Result<(), ParseError>) -> bool {
        reports(out, checksum_check(trimmed(input)))
    }

    fn apply(&self, input: &'a str) -> (r: Result<(), ParseError>) {
        let t = trim_end(input);
        assert(sbytes(t) == trimmed(sbytes(input)));
        check_sentence(t.as_bytes())
    }
}

/// Checks that a sentence starts with `$` and that its checksum is correct,
/// taking the sentence as it is.
pub struct ValidateNmea();

impl<'a> StrGlobalRule<'a> for ValidateNmea {
    type Output = Result<(), ParseError>;

    open spec fn spec_output(&self, input: Seq<u8>, out: Result<(), ParseError>) -> bool {
        reports(out, checksum_check(input))
    }

    fn apply(&self, input: &'a str) -> (r: Result<(), ParseError>) {
        check_sentence(input.as_bytes())
    }
}

/// Where the line that starts at `p` and whose `\n` is at `i` ends: a `\r`
/// before the `\n` is not part of the line (as `str::lines` has it).
pub open spec fn line_end(b: Seq<u8>, p: int, i: int) -> int {
    if i > p && b[i - 1] == 13 {
        i - 1
    } else {
        i
    }
}

/// Checks each line of `b` from `p` on as a sentence (with
/// [`NmeaValidate`]), lines being split as `str::lines` splits them: the
/// error of the first line that fails, or else the number of lines.
pub open spec fn lines_check(b: Seq<u8>, p: int) -> Result<nat, ErrorKind>
    decreases b.len() - p,
{
    if p < 0 || p >= b.len() {
        Ok(0)
    } else {
        proof {
            lemma_find_from(b, NEW_LINE, p);
        }
        let f = find_from(b, NEW_LINE, p);
        let e = match f {
            Some(i) => line_end(b, p, i),
            None => b.len() as int,
        };
        match checksum_check(trimmed(b.subrange(p, e))) {
            Err(k) => Err(k),
            Ok(_) => match f {
                Some(i) => match lines_check(b, i + 1) {
                    Err(k) => Err(k),
                    Ok(n) => Ok(n + 1),
                },
                None => Ok(1),
            },
        }
    }
}

/// Checks every line of `s` as a sentence and counts the lines.
pub fn validate_lines(s: &str) -> (r: Result<usize, ParseError>)
    ensures
        match lines_check(sbytes(s), 0) {
            Err(k) => r matches Err(e) && e.kind == k && e.message@ == message_for(k),
            Ok(n) => r matches Ok(c) && c == n,
        },
{
    let b = s.as_bytes();
    let ghost bs = sbytes(s);
    let mut pos: usize = 0;
    let mut count: usize = 0;
    while pos < b.len()
        invariant
            b@ == bs,
            bs == sbytes(s),
            pos <= b.len(),
            count <= pos,
            pos == 0 || pos == bs.len() || bs[pos - 1] == NEW_LINE,
            lines_check(bs, 0) == match lines_check(bs, pos as int) {
                Err(k) => Err(k),
                Ok(n) => Ok((n + count) as nat),
            },
        decreases b.len() - pos,
    {
        proof {
            lemma_find_from(bs, NEW_LINE, pos as int);
            lemma_str_valid(s);
            if pos > 0 {
                lemma_after_ascii(bs, pos as int);
            }
        }
        let f = find_byte_from(b, NEW_LINE, pos);
        let (e, next) = match f {
            Some(i) => {
                if i > pos && b[i - 1] == 13 {
                    (i - 1, i + 1)
                } else {
                    (i, i + 1)
                }
            },
            None => (b.len(), b.len()),
        };
        proof {
            if e < bs.len() {
                lemma_ascii_boundary(bs, e as int);
            }
        }
        let line = substr(s, pos, e);
        NmeaValidate().apply(line)?;
        count = count + 1;
        pos = next;
    }
    Ok(count)
}

/// The two bytes of `s` at `a`, when it has them (`str::get(a..a + 2)`).
pub open spec fn two_at(s: Seq<u8>, a: int) -> Option<Seq<u8>> {
    if a + 2 <= s.len() {
        Some(s.subrange(a, a + 2))
    } else {
        None
    }
}

/// `u32` read from an optional text.
pub open spec fn opt_u32(s: Option<Seq<u8>>) -> Option<nat> {
    match s {
        Some(x) => match int_from_str(x, false, 0, 4294967295) {
            Some(v) => Some(v as nat),
            None => None,
        },
        None => None,
    }
}

/// The time of day that an NMEA time field `hhmmss[.fff]` gives, when chrono
/// accepts it.
pub open spec fn utc_value(res: Seq<u8>) -> Option<UtcTime> {
    if res.len() == 0 {
        None
    } else {
        let (main, nanos) = match find_from(res, 46, 0) {
            Some(d) => (res.take(d), frac_nanos(res.skip(d + 1))),
            None => (res, 0nat),
        };
        match (opt_u32(two_at(main, 0)), opt_u32(two_at(main, 2)), opt_u32(two_at(main, 4))) {
            (Some(h), Some(m), Some(s)) => if time_valid(h, m, s, nanos) {
                Some(UtcTime { hour: h as u32, minute: m as u32, second: s as u32, nano: nanos as u32 })
            } else {
                None
            },
            _ => None,
        }
    }
}

/// Reads two bytes at `a` as a `u32`, as `str::get(a..a + 2)` then
/// `str::parse` do.
pub(crate) fn u32_at(s: &[u8], a: usize) -> (r: Option<u32>)
    requires
        a <= 4,
    ensures
        r matches Some(v) ==> opt_u32(two_at(s@, a as int)) == Some(v as nat),
        r is None ==> opt_u32(two_at(s@, a as int)) is None,
{
    if a + 2 > s.len() {
        return None;
    }
    let x = vstd::slice::slice_subrange(s, a, a + 2);
    match parse_unsigned_bytes(x, 4294967295) {
        Some(v) => Some(v as u32),
        None => None,
    }
}

/// The time of day in an NMEA time field.
fn utc_value_exec(res: &[u8]) -> (r: Option<UtcTime>)
    ensures
        r == utc_value(res@),
{
    if res.len() == 0 {
        return None;
    }
    let (main, nanos): (&[u8], u32) = match find_byte_from(res, 46, 0) {
        Some(d) => {
            proof {
                lemma_find_from(res@, 46, 0);
                assert(find_from(res@, 46, 0) == Some(d as int));
            }
            let m = vstd::slice::slice_subrange(res, 0, d);
            let f = vstd::slice::slice_subrange(res, d + 1, res.len());
            assert(m@ =~= res@.take(d as int));
            assert(f@ =~= res@.skip(d + 1));
            (m, frac_nanos_exec(f))
        },
        None => (res, 0),
    };
    let h = u32_at(main, 0);
    let m = u32_at(main, 2);
    let s = u32_at(main, 4);
    match (h, m, s) {
        (Some(h), Some(m), Some(s)) => UtcTime::from_hms_nano(h, m, s, nanos),
        _ => None,
    }
}

/// Reads an NMEA UTC time, `hhmmss[.sss]`, up to the next comma, which stays
/// in the rest. Yields that time of day, when chrono accepts it, on the
/// current UTC date, read from the clock. Consumes nothing when there is no
/// comma.
pub struct NmeaUtc();

/// The position of the first comma, or nothing.
pub open spec fn first_comma(input: Seq<u8>) -> Option<int> {
    find_from(input, 44, 0)
}

impl<'a> StrFlowRule<'a> for NmeaUtc {
    type Output = UtcDateTime;

    open spec fn spec_wf(&self) -> bool {
        true
    }

    open spec fn spec_matches(&self, input: Seq<u8>) -> bool {
        match first_comma(input) {
            Some(c) => utc_value(input.take(c)) is Some,
            None => false,
        }
    }

    open spec fn spec_consumed(&self, input: Seq<u8>) -> int {
        match first_comma(input) {
            Some(c) => c,
            None => 0,
        }
    }

    /// The time of day is the field's; the date is the current one, which
    /// only the clock knows.
    open spec fn spec_output(&self, input: Seq<u8>, out: UtcDateTime) -> bool {
        &&& Some(out.time) == utc_value(input.take(self.spec_consumed(input)))
        &&& out.date.valid()
    }

    fn apply(&self, input: &'a str) -> (r: (Option<UtcDateTime>, &'a str)) {
        let b = input.as_bytes();
        match find_byte_from(b, 44, 0) {
            None => {
                assert(sbytes(input).skip(0) =~= sbytes(input));
                (None, input)
            },
            Some(c) => {
                proof {
                    lemma_find_from(b@, 44, 0);
                    assert(find_from(b@, 44, 0) == Some(c as int));
                }
                let res = vstd::slice::slice_subrange(b, 0, c);
                assert(res@ =~= b@.take(c as int));
                let time = match utc_value_exec(res) {
                    Some(t) => Some(UtcDateTime::today_at(t)),
                    None => None,
                };
                (time, suffix(input, c))
            },
        }
    }
}

/// The date that an NMEA date field `ddmmyy` gives (years 2000 onwards),
/// when chrono accepts it.
pub open spec fn date_value(res: Seq<u8>) -> Option<Date> {
    let day = opt_u32(two_at(res, 0));
    let month = opt_u32(two_at(res, 2));
    let year = match two_at(res, 4) {
        Some(y) => int_from_str(y, true, -2147483648, 2147483647),
        None => None,
    };
    match (day, month, year) {
        (Some(d), Some(m), Some(y)) => if date_valid(y + 2000, m, d) {
            Some(Date { year: (y + 2000) as i32, month: m as u32, day: d as u32 })
        } else {
            None
        },
        _ => None,
    }
}

/// Reads an NMEA date, `ddmmyy`, up to the next comma, which stays in the
/// rest. Yields the date when chrono accepts it. Consumes nothing when there
/// is no comma.
pub struct NmeaDate();

impl<'a> StrFlowRule<'a> for NmeaDate {
    type Output = Date;

    open spec fn spec_wf(&self) -> bool {
        true
    }

    open spec fn spec_matches(&self, input: Seq<u8>) -> bool {
        match first_comma(input) {
            Some(c) => date_value(input.take(c)) is Some,
            None => false,
        }
    }

    open spec fn spec_consumed(&self, input: Seq<u8>) -> int {
        match first_comma(input) {
            Some(c) => c,
            None => 0,
        }
    }

    open spec fn spec_output(&self, input: Seq<u8>, out: Date) -> bool {
        Some(out) == date_value(input.take(self.spec_consumed(input)))
    }

    fn apply(&self, input: &'a str) -> (r: (Option<Date>, &'a str)) {
        let b = input.as_bytes();
        match find_byte_from(b, 44, 0) {
            None => {
                assert(sbytes(input).skip(0) =~= sbytes(input));
                (None, input)
            },
            Some(c) => {
                proof {
                    lemma_find_from(b@, 44, 0);
                    assert(find_from(b@, 44, 0) == Some(c as int));
                }
                let res = vstd::slice::slice_subrange(b, 0, c);
                assert(res@ =~= b@.take(c as int));
                let day = u32_at(res, 0);
                let month = u32_at(res, 2);
                let year: Option<i64> = if res.len() >= 6 {
                    let y = vstd::slice::slice_subrange(res, 4, 6);
                    parse_signed_bytes(y, -2147483648, 2147483647)
                } else {
                    None
                };
                let v = match (day, month, year) {
                    (Some(d), Some(m), Some(y)) => {
                        // a two-byte year is between -9 and 99
                        proof {
                            let ys = res@.subrange(4, 6);
                            crate::number::lemma_small_int(ys);
                        }
                        Date::from_ymd((y + 2000) as i32, m, d)
                    },
                    _ => None,
                };
                (v, suffix(input, c))
            },
        }
    }
}

/// A coordinate as NMEA writes it: `[d]ddmm.mmm`, degrees and minutes run
/// together, and its hemisphere. Its decimal degrees are
/// `floor(v / 100) + (v - 100 * floor(v / 100)) / 60` for the value `v` of
/// `ddmm`, negated when `negative`.
#[derive(Debug, Clone)]
pub struct PackedCoordinate {
    pub ddmm: FloatLiteral,
    /// The hemisphere is west or south.
    pub negative: bool,
}

/// An angle in degrees and its hemisphere.
#[derive(Debug, Clone)]
pub struct SignedDegrees {
    pub degrees: FloatLiteral,
    /// The hemisphere is west or south.
    pub negative: bool,
}

/// The positions of the first two commas, when there are two.
pub open spec fn two_commas(input: Seq<u8>) -> Option<(int, int)> {
    match first_comma(input) {
        Some(c1) => match find_from(input, 44, c1 + 1) {
            Some(c2) => Some((c1, c2)),
            None => None,
        },
        None => None,
    }
}

/// Hemisphere letters: `Some(false)` for `E` or `N`, `Some(true)` for `W` or
/// `S`.
pub open spec fn hemisphere(s: Seq<u8>) -> Option<bool> {
    if s == seq![69u8] || s == seq![78u8] {
        Some(false)
    } else if s == seq![87u8] || s == seq![83u8] {
        Some(true)
    } else {
        None
    }
}

fn hemisphere_exec(s: &[u8]) -> (r: Option<bool>)
    ensures
        r == hemisphere(s@),
{
    if s.len() != 1 {
        assert(s@ != seq![69u8] && s@ != seq![78u8] && s@ != seq![87u8] && s@ != seq![83u8]);
        return None;
    }
    let c = s[0];
    assert(s@ =~= seq![c]);
    if c == 69 || c == 78 {
        Some(false)
    } else if c == 87 || c == 83 {
        Some(true)
    } else {
        assert(s@ != seq![69u8] && s@ != seq![78u8] && s@ != seq![87u8] && s@ != seq![83u8]);
        None
    }
}

/// Splits `input` at its first two commas: the number before the first, and
/// the hemisphere between them.
fn number_and_hemisphere<'a>(input: &'a str) -> (r: Option<(&'a str, Option<bool>, usize)>)
    ensures
        match two_commas(sbytes(input)) {
            None => r is None,
            Some((c1, c2)) => r matches Some((num, h, c)) && c == c2 && c2 < sbytes(input).len()
                && sbytes(input)[c2] == 44 && sbytes(num)
                == sbytes(input).take(c1) && h == hemisphere(sbytes(input).subrange(c1 + 1, c2)),
        },
{
    let b = input.as_bytes();
    let c1 = match find_byte_from(b, 44, 0) {
        None => {
            return None;
        },
        Some(c) => c,
    };
    proof {
        lemma_find_from(b@, 44, 0);
        assert(find_from(b@, 44, 0) == Some(c1 as int));
    }
    assert(c1 < b.len());
    let c2 = match find_byte_from(b, 44, c1 + 1) {
        None => {
            return None;
        },
        Some(c) => c,
    };
    proof {
        lemma_find_from(b@, 44, (c1 + 1) as int);
        assert(find_from(b@, 44, (c1 + 1) as int) == Some(c2 as int));
    }
    assert(c2 < b.len());
    let num = substr(input, 0, c1);
    let sign = vstd::slice::slice_subrange(b, c1 + 1, c2);
    Some((num, hemisphere_exec(sign), c2))
}

/// Reads an NMEA coordinate, `dddmm.mmm,<hemisphere>`, up to the comma after
/// the hemisphere, which stays in the rest. Yields the coordinate when the
/// number is one `f64::from_str` accepts and the hemisphere is `E`, `N`, `W`
/// or `S`. Consumes nothing when there are not two commas.
pub struct NmeaCoord();

impl<'a> StrFlowRule<'a> for NmeaCoord {
    type Output = PackedCoordinate;

    open spec fn spec_wf(&self) -> bool {
        true
    }

    open spec fn spec_matches(&self, input: Seq<u8>) -> bool {
        match two_commas(input) {
            Some((c1, c2)) => is_f64_literal(input.take(c1)) && hemisphere(
                input.subrange(c1 + 1, c2),
            ) is Some,
            None => false,
        }
    }

    open spec fn spec_consumed(&self, input: Seq<u8>) -> int {
        match two_commas(input) {
            Some((c1, c2)) => c2,
            None => 0,
        }
    }

    open spec fn spec_output(&self, input: Seq<u8>, out: PackedCoordinate) -> bool {
        match two_commas(input) {
            Some((c1, c2)) => out.ddmm@ == input.take(c1) && Some(out.negative) == hemisphere(
                input.subrange(c1 + 1, c2),
            ),
            None => false,
        }
    }

    fn apply(&self, input: &'a str) -> (r: (Option<PackedCoordinate>, &'a str)) {
        match number_and_hemisphere(input) {
            None => {
                assert(sbytes(input).skip(0) =~= sbytes(input));
                (None, input)
            },
            Some((num, h, c2)) => {
                let rest = suffix(input, c2);
                match (FloatLiteral::from_field(num), h) {
                    (Some(v), Some(negative)) => (
                        Some(PackedCoordinate { ddmm: v, negative }),
                        rest,
                    ),
                    _ => (None, rest),
                }
            },
        }
    }
}

/// Reads a signed angle, `ddd.d,<hemisphere>`, up to the comma after the
/// hemisphere, which stays in the rest. Yields the angle when the number is
/// one `f64::from_str` accepts and the hemisphere is `E`, `N`, `W` or `S`.
/// Consumes nothing when there are not two commas.
pub struct NmeaDegree();

impl<'a> StrFlowRule<'a> for NmeaDegree {
    type Output = SignedDegrees;

    open spec fn spec_wf(&self) -> bool {
        true
    }

    open spec fn spec_matches(&self, input: Seq<u8>) -> bool {
        match two_commas(input) {
            Some((c1, c2)) => is_f64_literal(input.take(c1)) && hemisphere(
                input.subrange(c1 + 1, c2),
            ) is Some,
            None => false,
        }
    }

    open spec fn spec_consumed(&self, input: Seq<u8>) -> int {
        match two_commas(input) {
            Some((c1, c2)) => c2,
            None => 0,
        }
    }

    open spec fn spec_output(&self, input: Seq<u8>, out: SignedDegrees) -> bool {
        match two_commas(input) {
            Some((c1, c2)) => out.degrees@ == input.take(c1) && Some(out.negative) == hemisphere(
                input.subrange(c1 + 1, c2),
            ),
            None => false,
        }
    }

    fn apply(&self, input: &'a str) -> (r: (Option<SignedDegrees>, &'a str)) {
        match number_and_hemisphere(input) {
            None => {
                assert(sbytes(input).skip(0) =~= sbytes(input));
                (None, input)
            },
            Some((num, h, c2)) => {
                let rest = suffix(input, c2);
                match (FloatLiteral::from_field(num), h) {
                    (Some(v), Some(negative)) => (
                        Some(SignedDegrees { degrees: v, negative }),
                        rest,
                    ),
                    _ => (None, rest),
                }
            },
        }
    }
}

} // verus!
