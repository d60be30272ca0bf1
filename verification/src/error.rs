//! The errors that parsing reports.
use vstd::prelude::*;
use vstd::string::StringExecFns;

verus! {

/// What went wrong.
#[derive(Debug, Clone, Copy, PartialEq, Eq, Structural)]
pub enum ErrorKind {
    /// A rule that had to match did not.
    TakeFailed,
    /// The sentence does not start with `$`.
    MissingDollar,
    /// The sentence has no `*` before its checksum.
    MissingChecksumDelimiter,
    /// The checksum after `*` is not two bytes long; the length it has.
    ChecksumLength(usize),
    /// The checksum is not a hexadecimal byte.
    InvalidHexChecksum,
    /// The checksum does not match the sentence.
    ChecksumMismatch { calculated: u8, expected: u8 },
    /// The sentence is too short to name its type.
    InvalidSentence,
    /// The sentence type is not one this library reads.
    UnknownIdentifier,
    /// The talker is not one this library knows.
    UnknownTalker,
    /// A field holds a value that its type does not have.
    UnknownValue,
    /// A character set was given a string of the wrong length.
    CharSetLength { expected: usize, got: usize },
    /// No variant of an enumeration is named by the text.
    VariantNotFound,
    /// A field's text is not a value of the field's type.
    InvalidField,
    /// The sentence is empty where its type should be.
    EmptySentence,
    /// A text is not a floating-point number.
    InvalidFloat,
    /// A text is not an integer.
    InvalidInteger,
    /// A hemisphere letter is not one of the two the field takes.
    UnknownHemisphere,
}

/// An error, with a message for people.
#[derive(Debug, Clone)]
pub struct ParseError {
    pub kind: ErrorKind,
    pub message: String,
}

/// The decimal digit for `d`.
pub open spec fn digit_char(d: nat) -> char {
    (48 + d) as char
}

/// The decimal text of `n`, as `format!("{}", n)` writes it.
pub open spec fn decimal_text(n: nat) -> Seq<char>
    decreases n,
{
    if n < 10 {
        seq![digit_char(n)]
    } else {
        decimal_text(n / 10).push(digit_char(n % 10))
    }
}

/// The upper-case hexadecimal digit for `d`.
pub open spec fn hex_char(d: nat) -> char {
    if d < 10 {
        (48 + d) as char
    } else {
        (55 + d) as char
    }
}

/// `b` in two upper-case hexadecimal digits, as `format!("{:02X}", b)` writes it.
pub open spec fn hex2_text(b: u8) -> Seq<char> {
    seq![hex_char(b as nat / 16), hex_char(b as nat % 16)]
}

fn digit_str(d: u8) -> (r: &'static str)
    requires
        d < 16,
    ensures
        r@ == seq![hex_char(d as nat)],
{
    match d {
        0 => {
            proof {
                reveal_strlit("0");
            }
            "0"
        },
        1 => {
            proof {
                reveal_strlit("1");
            }
            "1"
        },
        2 => {
            proof {
                reveal_strlit("2");
            }
            "2"
        },
        3 => {
            proof {
                reveal_strlit("3");
            }
            "3"
        },
        4 => {
            proof {
                reveal_strlit("4");
            }
            "4"
        },
        5 => {
            proof {
                reveal_strlit("5");
            }
            "5"
        },
        6 => {
            proof {
                reveal_strlit("6");
            }
            "6"
        },
        7 => {
            proof {
                reveal_strlit("7");
            }
            "7"
        },
        8 => {
            proof {
                reveal_strlit("8");
            }
            "8"
        },
        9 => {
            proof {
                reveal_strlit("9");
            }
            "9"
        },
        10 => {
            proof {
                reveal_strlit("A");
            }
            "A"
        },
        11 => {
            proof {
                reveal_strlit("B");
            }
            "B"
        },
        12 => {
            proof {
                reveal_strlit("C");
            }
            "C"
        },
        13 => {
            proof {
                reveal_strlit("D");
            }
            "D"
        },
        14 => {
            proof {
                reveal_strlit("E");
            }
            "E"
        },
        _ => {
            proof {
                reveal_strlit("F");
            }
            "F"
        },
    }
}

/// Appends the decimal text of `n` to `s`.
pub fn push_decimal(s: &mut String, n: usize)
    ensures
        final(s)@ == old(s)@ + decimal_text(n as nat),
    decreases n,
{
    if n < 10 {
        s.append(digit_str(n as u8));
    } else {
        push_decimal(s, n / 10);
        s.append(digit_str((n % 10) as u8));
    }
}

/// Appends `b` in two upper-case hexadecimal digits to `s`.
pub fn push_hex2(s: &mut String, b: u8)
    ensures
        final(s)@ == old(s)@ + hex2_text(b),
{
    let ghost s0 = s@;
    s.append(digit_str(b / 16));
    s.append(digit_str(b % 16));
    assert(s@ =~= s0 + hex2_text(b));
}

/// The message that goes with an error of kind `k`, for the kinds whose
/// message depends on nothing else.
pub open spec fn message_for(k: ErrorKind) -> Seq<char> {
    match k {
        ErrorKind::TakeFailed => "take fail"@,
        ErrorKind::MissingDollar => "sentence doesn't start with `$`"@,
        ErrorKind::MissingChecksumDelimiter => "Missing checksum delimiter `*`"@,
        ErrorKind::ChecksumLength(n) => "require checksum_str length 2, get "@ + decimal_text(
            n as nat,
        ),
        ErrorKind::InvalidHexChecksum => "Invalid hex checksum"@,
        ErrorKind::ChecksumMismatch { calculated, expected } => "Checksum mismatch: calculated "@
            + hex2_text(calculated) + ", expected "@ + hex2_text(expected),
        ErrorKind::VariantNotFound => "Matching variant not found"@,
        ErrorKind::EmptySentence => "Empty string."@,
        ErrorKind::InvalidFloat => "invalid float literal"@,
        ErrorKind::InvalidInteger => "invalid digit found in string"@,
        _ => Seq::empty(),
    }
}

impl ParseError {
    /// A rule that had to match did not: "take fail".
    pub fn take_failed() -> (r: Self)
        ensures
            r.kind == ErrorKind::TakeFailed,
            r.message@ == "take fail"@,
    {
        ParseError { kind: ErrorKind::TakeFailed, message: String::from_str("take fail") }
    }

    /// No variant is named by the text: "Matching variant not found".
    pub fn variant_not_found() -> (r: Self)
        ensures
            r.kind == ErrorKind::VariantNotFound,
            r.message@ == "Matching variant not found"@,
    {
        ParseError {
            kind: ErrorKind::VariantNotFound,
            message: String::from_str("Matching variant not found"),
        }
    }

    /// The sentence's type is empty: "Empty string.".
    pub fn empty_sentence() -> (r: Self)
        ensures
            r.kind == ErrorKind::EmptySentence,
            r.message@ == "Empty string."@,
    {
        ParseError { kind: ErrorKind::EmptySentence, message: String::from_str("Empty string.") }
    }

    /// A text is not a floating-point number: "invalid float literal".
    pub fn invalid_float() -> (r: Self)
        ensures
            r.kind == ErrorKind::InvalidFloat,
            r.message@ == "invalid float literal"@,
    {
        ParseError { kind: ErrorKind::InvalidFloat, message: String::from_str("invalid float literal") }
    }

    /// A text is not an integer: "invalid digit found in string".
    pub fn invalid_integer() -> (r: Self)
        ensures
            r.kind == ErrorKind::InvalidInteger,
            r.message@ == "invalid digit found in string"@,
    {
        ParseError {
            kind: ErrorKind::InvalidInteger,
            message: String::from_str("invalid digit found in string"),
        }
    }

    /// An error of `kind` whose message is `prefix`, then `value`, then `suffix`.
    pub fn with_text_around(kind: ErrorKind, prefix: &str, value: &str, suffix: &str) -> (r: Self)
        ensures
            r.kind == kind,
            r.message@ == prefix@ + value@ + suffix@,
    {
        let mut m = String::from_str(prefix);
        m.append(value);
        m.append(suffix);
        ParseError { kind, message: m }
    }

    pub fn missing_dollar() -> (r: Self)
        ensures
            r.kind == ErrorKind::MissingDollar,
            r.message@ == "sentence doesn't start with `$`"@,
    {
        ParseError {
            kind: ErrorKind::MissingDollar,
            message: String::from_str("sentence doesn't start with `$`"),
        }
    }

    pub fn missing_checksum_delimiter() -> (r: Self)
        ensures
            r.kind == ErrorKind::MissingChecksumDelimiter,
            r.message@ == "Missing checksum delimiter `*`"@,
    {
        ParseError {
            kind: ErrorKind::MissingChecksumDelimiter,
            message: String::from_str("Missing checksum delimiter `*`"),
        }
    }

    pub fn checksum_length(len: usize) -> (r: Self)
        ensures
            r.kind == ErrorKind::ChecksumLength(len),
            r.message@ == "require checksum_str length 2, get "@ + decimal_text(len as nat),
    {
        let mut m = String::from_str("require checksum_str length 2, get ");
        push_decimal(&mut m, len);
        ParseError { kind: ErrorKind::ChecksumLength(len), message: m }
    }

    pub fn invalid_hex_checksum() -> (r: Self)
        ensures
            r.kind == ErrorKind::InvalidHexChecksum,
            r.message@ == "Invalid hex checksum"@,
    {
        ParseError {
            kind: ErrorKind::InvalidHexChecksum,
            message: String::from_str("Invalid hex checksum"),
        }
    }

    pub fn checksum_mismatch(calculated: u8, expected: u8) -> (r: Self)
        ensures
            r.kind == (ErrorKind::ChecksumMismatch { calculated, expected }),
            r.message@ == "Checksum mismatch: calculated "@ + hex2_text(calculated)
                + ", expected "@ + hex2_text(expected),
    {
        let mut m = String::from_str("Checksum mismatch: calculated ");
        push_hex2(&mut m, calculated);
        m.append(", expected ");
        push_hex2(&mut m, expected);
        ParseError { kind: ErrorKind::ChecksumMismatch { calculated, expected }, message: m }
    }

    /// An error of `kind` whose message is `prefix` followed by `value`.
    pub fn with_text(kind: ErrorKind, prefix: &str, value: &str) -> (r: Self)
        ensures
            r.kind == kind,
            r.message@ == prefix@ + value@,
    {
        let mut m = String::from_str(prefix);
        m.append(value);
        ParseError { kind, message: m }
    }

    pub fn char_set_length(too_long: bool, expected: usize, got: usize) -> (r: Self)
        ensures
            r.kind == (ErrorKind::CharSetLength { expected, got }),
            r.message@ == (if too_long {
                "String too long for CharSet, expected "@
            } else {
                "String length does not match CharSet size, expected "@
            }) + decimal_text(expected as nat) + " but got "@ + decimal_text(got as nat),
    {
        let mut m = if too_long {
            String::from_str("String too long for CharSet, expected ")
        } else {
            String::from_str("String length does not match CharSet size, expected ")
        };
        push_decimal(&mut m, expected);
        m.append(" but got ");
        push_decimal(&mut m, got);
        ParseError { kind: ErrorKind::CharSetLength { expected, got }, message: m }
    }
}

} // verus!
