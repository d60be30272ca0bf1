//! Parsing of the numbers that NMEA fields hold: what `str::parse` accepts
//! for the integer types, hexadecimal checksums, and floating-point literals.
use vstd::prelude::*;
use vstd::string::StringSliceAdditionalSpecFns;

use crate::text::{find2_from, find_byte2_from, find_byte_from, find_from, sbytes, string_bytes};

verus! {

pub open spec fn is_digit(b: u8) -> bool {
    48 <= b <= 57
}

pub open spec fn all_digits(s: Seq<u8>) -> bool {
    forall|i: int| 0 <= i < s.len() ==> is_digit(#[trigger] s[i])
}

/// The value of a string of decimal digits.
pub open spec fn digits_value(s: Seq<u8>) -> nat
    decreases s.len(),
{
    if s.len() == 0 {
        0
    } else {
        digits_value(s.drop_last()) * 10 + (s.last() - 48) as nat
    }
}

/// The sign byte that a literal may start with.
pub open spec fn is_plus(b: u8) -> bool {
    b == 43
}

pub open spec fn is_minus(b: u8) -> bool {
    b == 45
}

/// What `str::parse` gives for an integer type whose values are `min..=max`:
/// an optional sign (`-` only where the type is signed), then one or more
/// decimal digits whose value lies in the range.
pub open spec fn int_from_str(s: Seq<u8>, signed: bool, min: int, max: int) -> Option<int> {
    let plus = s.len() > 0 && is_plus(s[0]);
    let minus = signed && s.len() > 0 && is_minus(s[0]);
    let digits = if plus || minus {
        s.skip(1)
    } else {
        s
    };
    if digits.len() == 0 || !all_digits(digits) {
        None
    } else {
        let v: int = if minus {
            -(digits_value(digits) as int)
        } else {
            digits_value(digits) as int
        };
        if min <= v && v <= max {
            Some(v)
        } else {
            None
        }
    }
}

/// A digit string's value is at least that of each of its prefixes.
pub proof fn lemma_digits_value_prefix(s: Seq<u8>, i: int)
    requires
        0 <= i <= s.len(),
    ensures
        digits_value(s.take(i)) <= digits_value(s),
    decreases s.len() - i,
{
    if i < s.len() {
        lemma_digits_value_prefix(s.drop_last(), if i < s.len() {
            i
        } else {
            i - 1
        });
        assert(s.drop_last().take(i) =~= s.take(i));
    } else {
        assert(s.take(i) =~= s);
    }
}

/// Reads the decimal digits of `s` from offset `start` to its end, giving
/// their value when there is at least one, all are digits, and the value is
/// at most `limit`.
fn digits_upto(s: &[u8], start: usize, limit: u64) -> (r: Option<u64>)
    requires
        start <= s@.len(),
    ensures
        r matches Some(v) ==> {
            let d = s@.skip(start as int);
            &&& d.len() > 0
            &&& all_digits(d)
            &&& digits_value(d) == v
            &&& v <= limit
        },
        r is None ==> {
            let d = s@.skip(start as int);
            d.len() == 0 || !all_digits(d) || digits_value(d) > limit
        },
{
    if start == s.len() {
        return None;
    }
    let ghost d = s@.skip(start as int);
    let mut v: u64 = 0;
    let mut i = start;
    while i < s.len()
        invariant
            start <= i <= s@.len(),
            d == s@.skip(start as int),
            v <= limit,
            all_digits(s@.subrange(start as int, i as int)),
            digits_value(s@.subrange(start as int, i as int)) == v,
        decreases s.len() - i,
    {
        let c = s[i];
        if c < 48 || c > 57 {
            assert(!is_digit(d[i - start]));
            return None;
        }
        let nv: u128 = (v as u128) * 10 + ((c - 48) as u128);
        let ghost sub = s@.subrange(start as int, i + 1);
        assert(sub.drop_last() =~= s@.subrange(start as int, i as int));
        assert(digits_value(sub) == nv);
        if nv > limit as u128 {
            proof {
                if all_digits(d) {
                    assert(d.take(i + 1 - start) =~= sub);
                    lemma_digits_value_prefix(d, i + 1 - start);
                }
            }
            return None;
        }
        v = nv as u64;
        i = i + 1;
    }
    assert(s@.subrange(start as int, i as int) =~= d);
    Some(v)
}

/// `str::parse` for an unsigned integer type whose largest value is `max`.
pub fn parse_unsigned(s: &str, max: u64) -> (r: Option<u64>)
    ensures
        r matches Some(v) ==> int_from_str(sbytes(s), false, 0, max as int) == Some(v as int),
        r is None ==> int_from_str(sbytes(s), false, 0, max as int) is None,
{
    parse_unsigned_bytes(s.as_bytes(), max)
}

/// `str::parse` for an unsigned integer type, on the bytes of the text.
pub fn parse_unsigned_bytes(b: &[u8], max: u64) -> (r: Option<u64>)
    ensures
        r matches Some(v) ==> int_from_str(b@, false, 0, max as int) == Some(v as int),
        r is None ==> int_from_str(b@, false, 0, max as int) is None,
{
    let start: usize = if b.len() > 0 && b[0] == 43 {
        1
    } else {
        0
    };
    assert(b@.skip(start as int) =~= (if start == 1 {
        b@.skip(1)
    } else {
        b@
    }));
    digits_upto(b, start, max)
}

/// `str::parse` for a signed integer type whose values are `min..=max`.
pub fn parse_signed(s: &str, min: i64, max: i64) -> (r: Option<i64>)
    requires
        min < 0 < max,
    ensures
        r matches Some(v) ==> int_from_str(sbytes(s), true, min as int, max as int) == Some(
            v as int,
        ),
        r is None ==> int_from_str(sbytes(s), true, min as int, max as int) is None,
{
    parse_signed_bytes(s.as_bytes(), min, max)
}

/// `str::parse` for a signed integer type, on the bytes of the text.
pub fn parse_signed_bytes(b: &[u8], min: i64, max: i64) -> (r: Option<i64>)
    requires
        min < 0 < max,
    ensures
        r matches Some(v) ==> int_from_str(b@, true, min as int, max as int) == Some(v as int),
        r is None ==> int_from_str(b@, true, min as int, max as int) is None,
{
    let neg = b.len() > 0 && b[0] == 45;
    let start: usize = if b.len() > 0 && (b[0] == 43 || b[0] == 45) {
        1
    } else {
        0
    };
    assert(b@.skip(start as int) =~= (if start == 1 {
        b@.skip(1)
    } else {
        b@
    }));
    // the magnitude allowed on each side of zero
    let limit: u64 = if neg {
        (0i128 - min as i128) as u64
    } else {
        max as u64
    };
    match digits_upto(b, start, limit) {
        Some(m) => {
            if neg {
                Some((0i128 - m as i128) as i64)
            } else {
                Some(m as i64)
            }
        },
        None => None,
    }
}

/// The value of a hexadecimal digit, if `b` is one.
pub open spec fn hex_value(b: u8) -> Option<nat> {
    if 48 <= b <= 57 {
        Some((b - 48) as nat)
    } else if 65 <= b <= 70 {
        Some((b - 55) as nat)
    } else if 97 <= b <= 102 {
        Some((b - 87) as nat)
    } else {
        None
    }
}

pub open spec fn all_hex(s: Seq<u8>) -> bool {
    forall|i: int| 0 <= i < s.len() ==> (#[trigger] hex_value(s[i])) is Some
}

pub open spec fn hex_digits_value(s: Seq<u8>) -> nat
    decreases s.len(),
{
    if s.len() == 0 {
        0
    } else {
        hex_digits_value(s.drop_last()) * 16 + hex_value(s.last()).unwrap_or(0)
    }
}

/// What `u8::from_str_radix(s, 16)` gives: an optional `+`, then one or more
/// hexadecimal digits of either case whose value fits in a byte.
pub open spec fn hex_u8_from_str(s: Seq<u8>) -> Option<u8> {
    let digits = if s.len() > 0 && is_plus(s[0]) {
        s.skip(1)
    } else {
        s
    };
    if digits.len() == 0 || !all_hex(digits) || hex_digits_value(digits) > 255 {
        None
    } else {
        Some(hex_digits_value(digits) as u8)
    }
}

pub proof fn lemma_hex_value_prefix(s: Seq<u8>, i: int)
    requires
        0 <= i <= s.len(),
    ensures
        hex_digits_value(s.take(i)) <= hex_digits_value(s),
    decreases s.len() - i,
{
    if i < s.len() {
        lemma_hex_value_prefix(s.drop_last(), i);
        assert(s.drop_last().take(i) =~= s.take(i));
    } else {
        assert(s.take(i) =~= s);
    }
}

fn hex_digit(c: u8) -> (r: Option<u8>)
    ensures
        r matches Some(v) ==> hex_value(c) == Some(v as nat),
        r is None ==> hex_value(c) is None,
{
    if 48 <= c && c <= 57 {
        Some(c - 48)
    } else if 65 <= c && c <= 70 {
        Some(c - 55)
    } else if 97 <= c && c <= 102 {
        Some(c - 87)
    } else {
        None
    }
}

/// `u8::from_str_radix(s, 16)`.
pub fn parse_hex_u8(s: &[u8]) -> (r: Option<u8>)
    ensures
        r == hex_u8_from_str(s@),
{
    let start: usize = if s.len() > 0 && s[0] == 43 {
        1
    } else {
        0
    };
    let ghost d = s@.skip(start as int);
    assert(d =~= (if start == 1 {
        s@.skip(1)
    } else {
        s@
    }));
    if start == s.len() {
        return None;
    }
    let mut v: u32 = 0;
    let mut i = start;
    while i < s.len()
        invariant
            start <= i <= s@.len(),
            d == s@.skip(start as int),
            d == (if s@.len() > 0 && is_plus(s@[0]) {
                s@.skip(1)
            } else {
                s@
            }),
            v <= 255,
            all_hex(s@.subrange(start as int, i as int)),
            hex_digits_value(s@.subrange(start as int, i as int)) == v,
        decreases s.len() - i,
    {
        let ghost sub = s@.subrange(start as int, i + 1);
        match hex_digit(s[i]) {
            None => {
                assert(hex_value(d[i - start]) is None);
                return None;
            },
            Some(h) => {
                assert(sub.drop_last() =~= s@.subrange(start as int, i as int));
                let nv: u32 = v * 16 + h as u32;
                assert(hex_digits_value(sub) == nv);
                if nv > 255 {
                    proof {
                        if all_hex(d) {
                            assert(d.take(i + 1 - start) =~= sub);
                            lemma_hex_value_prefix(d, i + 1 - start);
                        }
                    }
                    return None;
                }
                v = nv;
            },
        }
        i = i + 1;
    }
    assert(s@.subrange(start as int, i as int) =~= d);
    Some(v as u8)
}

/// ASCII lower case of a byte.
pub open spec fn lower(b: u8) -> u8 {
    if 65 <= b <= 90 {
        (b + 32) as u8
    } else {
        b
    }
}

/// `s` spells the lower-case word `lit`, in any mix of cases.
pub open spec fn eq_ignore_case(s: Seq<u8>, lit: Seq<u8>) -> bool {
    s.len() == lit.len() && forall|i: int| 0 <= i < s.len() ==> lower(#[trigger] s[i]) == lit[i]
}

/// "inf"
pub open spec fn word_inf() -> Seq<u8> {
    seq![105u8, 110u8, 102u8]
}

/// "infinity"
pub open spec fn word_infinity() -> Seq<u8> {
    seq![105u8, 110u8, 102u8, 105u8, 110u8, 105u8, 116u8, 121u8]
}

/// "nan"
pub open spec fn word_nan() -> Seq<u8> {
    seq![110u8, 97u8, 110u8]
}

/// `Exp` without its `e`: an optional sign, then one or more digits.
pub open spec fn is_exponent_text(s: Seq<u8>) -> bool {
    let d = if s.len() > 0 && (is_plus(s[0]) || is_minus(s[0])) {
        s.skip(1)
    } else {
        s
    };
    d.len() > 0 && all_digits(d)
}

/// `Digit+ | Digit+ '.' Digit* | Digit* '.' Digit+`
pub open spec fn is_mantissa_text(s: Seq<u8>) -> bool {
    match find_from(s, 46, 0) {
        None => s.len() > 0 && all_digits(s),
        Some(d) => all_digits(s.take(d)) && all_digits(s.skip(d + 1)) && (d > 0 || s.len() > d
            + 1),
    }
}

/// `Number ::= Mantissa Exp?`, where `Exp` starts with `e` or `E`.
pub open spec fn is_number_text(s: Seq<u8>) -> bool {
    match find2_from(s, 101, 69, 0) {
        None => is_mantissa_text(s),
        Some(e) => is_mantissa_text(s.take(e)) && is_exponent_text(s.skip(e + 1)),
    }
}

/// The strings that `f64::from_str` accepts, as its documentation gives the
/// grammar (case-insensitively):
/// `Sign? ( 'inf' | 'infinity' | 'nan' | Number )`.
pub open spec fn is_f64_literal(s: Seq<u8>) -> bool {
    let body = if s.len() > 0 && (is_plus(s[0]) || is_minus(s[0])) {
        s.skip(1)
    } else {
        s
    };
    eq_ignore_case(body, word_inf()) || eq_ignore_case(body, word_infinity()) || eq_ignore_case(
        body,
        word_nan(),
    ) || is_number_text(body)
}

fn lower_exec(b: u8) -> (r: u8)
    ensures
        r == lower(b),
{
    if 65 <= b && b <= 90 {
        b + 32
    } else {
        b
    }
}

fn eq_ignore_case_exec(s: &[u8], lit: &[u8]) -> (r: bool)
    ensures
        r == eq_ignore_case(s@, lit@),
{
    if s.len() != lit.len() {
        return false;
    }
    let mut i: usize = 0;
    while i < s.len()
        invariant
            s@.len() == lit@.len(),
            0 <= i <= s@.len(),
            forall|j: int| 0 <= j < i ==> lower(#[trigger] s@[j]) == lit@[j],
        decreases s.len() - i,
    {
        if lower_exec(s[i]) != lit[i] {
            return false;
        }
        i = i + 1;
    }
    true
}

pub(crate) fn all_digits_exec(s: &[u8]) -> (r: bool)
    ensures
        r == all_digits(s@),
{
    let mut i: usize = 0;
    while i < s.len()
        invariant
            0 <= i <= s@.len(),
            forall|j: int| 0 <= j < i ==> is_digit(#[trigger] s@[j]),
        decreases s.len() - i,
    {
        if s[i] < 48 || s[i] > 57 {
            assert(!is_digit(s@[i as int]));
            return false;
        }
        i = i + 1;
    }
    true
}

pub(crate) fn is_exponent_exec(s: &[u8]) -> (r: bool)
    ensures
        r == is_exponent_text(s@),
{
    let start: usize = if s.len() > 0 && (s[0] == 43 || s[0] == 45) {
        1
    } else {
        0
    };
    let d = vstd::slice::slice_subrange(s, start, s.len());
    assert(d@ =~= (if start == 1 {
        s@.skip(1)
    } else {
        s@
    }));
    d.len() > 0 && all_digits_exec(d)
}

fn is_mantissa_exec(s: &[u8]) -> (r: bool)
    ensures
        r == is_mantissa_text(s@),
{
    match find_byte_from(s, 46, 0) {
        None => s.len() > 0 && all_digits_exec(s),
        Some(d) => {
            proof {
                crate::text::lemma_find_from(s@, 46, 0);
                assert(find_from(s@, 46, 0) == Some(d as int));
            }
            assert(d < s.len());
            let a = vstd::slice::slice_subrange(s, 0, d);
            let b = vstd::slice::slice_subrange(s, d + 1, s.len());
            assert(a@ =~= s@.take(d as int));
            assert(b@ =~= s@.skip(d + 1));
            all_digits_exec(a) && all_digits_exec(b) && (d > 0 || s.len() > d + 1)
        },
    }
}

fn is_number_exec(s: &[u8]) -> (r: bool)
    ensures
        r == is_number_text(s@),
{
    match find_byte2_from(s, 101, 69, 0) {
        None => is_mantissa_exec(s),
        Some(e) => {
            proof {
                crate::text::lemma_find2_from(s@, 101, 69, 0);
                assert(find2_from(s@, 101, 69, 0) == Some(e as int));
            }
            assert(e < s.len());
            let m = vstd::slice::slice_subrange(s, 0, e);
            let x = vstd::slice::slice_subrange(s, e + 1, s.len());
            assert(m@ =~= s@.take(e as int));
            assert(x@ =~= s@.skip(e + 1));
            is_mantissa_exec(m) && is_exponent_exec(x)
        },
    }
}

/// Whether `f64::from_str` accepts `s`.
pub fn is_f64_literal_exec(s: &[u8]) -> (r: bool)
    ensures
        r == is_f64_literal(s@),
{
    let start: usize = if s.len() > 0 && (s[0] == 43 || s[0] == 45) {
        1
    } else {
        0
    };
    let body = vstd::slice::slice_subrange(s, start, s.len());
    assert(body@ =~= (if start == 1 {
        s@.skip(1)
    } else {
        s@
    }));
    let inf: [u8; 3] = [105, 110, 102];
    let infinity: [u8; 8] = [105, 110, 102, 105, 110, 105, 116, 121];
    let nan: [u8; 3] = [110, 97, 110];
    assert(inf@ =~= word_inf());
    assert(infinity@ =~= word_infinity());
    assert(nan@ =~= word_nan());
    eq_ignore_case_exec(body, inf.as_slice()) || eq_ignore_case_exec(body, infinity.as_slice())
        || eq_ignore_case_exec(body, nan.as_slice()) || is_number_exec(body)
}

/// The text of a field that `f64::from_str` accepts. The library keeps the
/// text; the value it denotes is the one `f64::from_str` gives for it.
#[derive(Debug, Clone)]
pub struct FloatLiteral {
    text: String,
}

impl View for FloatLiteral {
    type V = Seq<u8>;

    closed spec fn view(&self) -> Seq<u8> {
        string_bytes(self.text)
    }
}

impl FloatLiteral {
    /// The literal's text.
    pub fn as_str(&self) -> (r: &str)
        ensures
            sbytes(r) == self@,
    {
        self.text.as_str()
    }
}

/// A type that a field's text is read into, as `str::parse` reads it.
pub trait FromField: Sized {
    /// `r` is what reading the field text `s` gives.
    spec fn field_rel(s: Seq<u8>, r: Option<Self>) -> bool;

    /// A text that gives a value does not also give nothing.
    proof fn lemma_value_or_nothing(s: Seq<u8>, v: Self)
        requires
            Self::field_rel(s, Some(v)),
        ensures
            !Self::field_rel(s, None),
    ;

    fn from_field(s: &str) -> (r: Option<Self>)
        ensures
            Self::field_rel(sbytes(s), r),
    ;
}

impl FromField for FloatLiteral {
    open spec fn field_rel(s: Seq<u8>, r: Option<Self>) -> bool {
        match r {
            Some(f) => is_f64_literal(s) && f@ == s,
            None => !is_f64_literal(s),
        }
    }

    proof fn lemma_value_or_nothing(s: Seq<u8>, v: Self) {
    }

    fn from_field(s: &str) -> (r: Option<Self>) {
        if is_f64_literal_exec(s.as_bytes()) {
            Some(FloatLiteral { text: s.to_owned() })
        } else {
            None
        }
    }
}

impl FromField for u8 {
    open spec fn field_rel(s: Seq<u8>, r: Option<Self>) -> bool {
        r == match int_from_str(s, false, 0, 255) {
            Some(v) => Some(v as u8),
            None => None,
        }
    }

    proof fn lemma_value_or_nothing(s: Seq<u8>, v: Self) {
    }

    fn from_field(s: &str) -> (r: Option<Self>) {
        match parse_unsigned(s, 255) {
            Some(v) => Some(v as u8),
            None => None,
        }
    }
}

impl FromField for u16 {
    open spec fn field_rel(s: Seq<u8>, r: Option<Self>) -> bool {
        r == match int_from_str(s, false, 0, 65535) {
            Some(v) => Some(v as u16),
            None => None,
        }
    }

    proof fn lemma_value_or_nothing(s: Seq<u8>, v: Self) {
    }

    fn from_field(s: &str) -> (r: Option<Self>) {
        match parse_unsigned(s, 65535) {
            Some(v) => Some(v as u16),
            None => None,
        }
    }
}

impl FromField for u32 {
    open spec fn field_rel(s: Seq<u8>, r: Option<Self>) -> bool {
        r == match int_from_str(s, false, 0, 4294967295) {
            Some(v) => Some(v as u32),
            None => None,
        }
    }

    proof fn lemma_value_or_nothing(s: Seq<u8>, v: Self) {
    }

    fn from_field(s: &str) -> (r: Option<Self>) {
        match parse_unsigned(s, 4294967295) {
            Some(v) => Some(v as u32),
            None => None,
        }
    }
}

impl FromField for usize {
    open spec fn field_rel(s: Seq<u8>, r: Option<Self>) -> bool {
        r == match int_from_str(s, false, 0, usize::MAX as int) {
            Some(v) => Some(v as usize),
            None => None,
        }
    }

    proof fn lemma_value_or_nothing(s: Seq<u8>, v: Self) {
    }

    fn from_field(s: &str) -> (r: Option<Self>) {
        match parse_unsigned(s, usize::MAX as u64) {
            Some(v) => Some(v as usize),
            None => None,
        }
    }
}

impl FromField for i8 {
    open spec fn field_rel(s: Seq<u8>, r: Option<Self>) -> bool {
        r == match int_from_str(s, true, -128, 127) {
            Some(v) => Some(v as i8),
            None => None,
        }
    }

    proof fn lemma_value_or_nothing(s: Seq<u8>, v: Self) {
    }

    fn from_field(s: &str) -> (r: Option<Self>) {
        match parse_signed(s, -128, 127) {
            Some(v) => Some(v as i8),
            None => None,
        }
    }
}

impl FromField for i32 {
    open spec fn field_rel(s: Seq<u8>, r: Option<Self>) -> bool {
        r == match int_from_str(s, true, -2147483648, 2147483647) {
            Some(v) => Some(v as i32),
            None => None,
        }
    }

    proof fn lemma_value_or_nothing(s: Seq<u8>, v: Self) {
    }

    fn from_field(s: &str) -> (r: Option<Self>) {
        match parse_signed(s, -2147483648, 2147483647) {
            Some(v) => Some(v as i32),
            None => None,
        }
    }
}

/// A two-byte integer lies between -9 and 99.
pub proof fn lemma_small_int(s: Seq<u8>)
    requires
        s.len() == 2,
    ensures
        int_from_str(s, true, -2147483648, 2147483647) matches Some(v) ==> -9 <= v <= 99,
{
    let plus = is_plus(s[0]);
    let minus = is_minus(s[0]);
    if plus || minus {
        let d = s.skip(1);
        if d.len() > 0 && all_digits(d) {
            assert(d.drop_last().len() == 0);
            assert(is_digit(d[0]));
            assert(d.last() == d[0]);
            assert(digits_value(d.drop_last()) == 0);
            assert(digits_value(d) <= 9);
        }
    } else if all_digits(s) {
        assert(is_digit(s[0]) && is_digit(s[1]));
        assert(s.drop_last().drop_last().len() == 0);
        assert(s.drop_last().last() == s[0]);
        assert(digits_value(s.drop_last().drop_last()) == 0);
        assert(digits_value(s.drop_last()) <= 9);
    }
}

} // verus!
