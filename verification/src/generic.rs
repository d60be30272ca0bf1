//! Sentences read as lists of comma-separated fields; the sentence types and
//! navigation systems that name them; and the parsed data of any type.
use vstd::prelude::*;
use vstd::string::{StrSliceExecFns, StringExecFns};
use vstd::utf8::decode_utf8;

use crate::data::Talker;
use crate::{fields, nmea_data};
use crate::error::{ErrorKind, ParseError};
use crate::number::{is_f64_literal, FloatLiteral, FromField};
use crate::rules::{
    check_sentence, checksum_check, framed, law_checksum_accepts, law_checksum_mismatch, opt_u32,
    two_at, u32_at, xor_all, COMMA, STAR,
};
use crate::str_parser::StrParserContext;
use crate::time::{
    frac_nanos, frac_nanos_exec, is_fraction_text, is_fraction_text_exec, law_short_fraction,
    time_valid, utc_now, UtcDateTime, UtcTime,
};
use crate::text::{
    at_boundary, find2_from, find_byte_from, find_from, is_boundary, lemma_after_ascii, lemma_ascii_boundary,
    lemma_find_from, lemma_str_valid, sbytes, str_eq, string_bytes, substr,
};

verus! {

broadcast use vstd::utf8::group_utf8_lib;

/// The pieces of `s` from `p` on between occurrences of `d`, as `str::split`
/// gives them: always at least one.
pub open spec fn split_on(s: Seq<u8>, d: u8, p: int) -> Seq<Seq<u8>>
    decreases s.len() - p,
{
    if p < 0 || p > s.len() {
        Seq::empty()
    } else {
        proof {
            lemma_find_from(s, d, p);
        }
        match find_from(s, d, p) {
            Some(i) => seq![s.subrange(p, i)] + split_on(s, d, i + 1),
            None => seq![s.subrange(p, s.len() as int)],
        }
    }
}

/// The part of a sentence before its first `*`, or all of it.
pub open spec fn before_star(s: Seq<u8>) -> Seq<u8> {
    match find_from(s, STAR, 0) {
        Some(i) => s.take(i),
        None => s,
    }
}

/// The bytes of each string of a list.
pub open spec fn texts(v: Seq<&str>) -> Seq<Seq<u8>> {
    v.map_values(|p: &str| sbytes(p))
}

/// The fields of a sentence: the part before its first `*`, split at each
/// `,`.
pub fn get_sentence_parts(sentence: &str) -> (r: Vec<&str>)
    ensures
        texts(r@) == split_on(before_star(sbytes(sentence)), COMMA, 0),
{
    let b = sentence.as_bytes();
    proof {
        lemma_find_from(sbytes(sentence), STAR, 0);
        lemma_str_valid(sentence);
    }
    let end = match find_byte_from(b, STAR, 0) {
        Some(i) => {
            proof {
                lemma_ascii_boundary(sbytes(sentence), i as int);
            }
            i
        },
        None => b.len(),
    };
    let head = substr(sentence, 0, end);
    let hb = head.as_bytes();
    let ghost h = sbytes(head);
    assert(h =~= before_star(sbytes(sentence)));
    let mut parts: Vec<&str> = Vec::new();
    let mut p: usize = 0;
    assert(texts(parts@) + split_on(h, COMMA, 0) =~= split_on(h, COMMA, 0));
    loop
        invariant_except_break
            hb@ == h,
            h == sbytes(head),
            p <= h.len(),
            p == 0 || h[p - 1] == COMMA,
            split_on(h, COMMA, 0) == texts(parts@) + split_on(h, COMMA, p as int),
        ensures
            texts(parts@) == split_on(h, COMMA, 0),
        decreases h.len() - p,
    {
        proof {
            lemma_find_from(h, COMMA, p as int);
            lemma_str_valid(head);
            if p > 0 {
                lemma_after_ascii(h, p as int);
            }
        }
        let ghost before = parts@;
        match find_byte_from(hb, COMMA, p) {
            Some(i) => {
                proof {
                    lemma_ascii_boundary(h, i as int);
                }
                assert(i < hb.len());
                let piece = substr(head, p, i);
                parts.push(piece);
                proof {
                    assert(texts(parts@) =~= texts(before) + seq![sbytes(piece)]);
                    assert(texts(before) + (seq![h.subrange(p as int, i as int)] + split_on(
                        h,
                        COMMA,
                        i + 1,
                    )) =~= texts(parts@) + split_on(h, COMMA, i + 1));
                }
                p = i + 1;
            },
            None => {
                let piece = substr(head, p, hb.len());
                parts.push(piece);
                proof {
                    assert(texts(parts@) =~= texts(before) + seq![sbytes(piece)]);
                }
                break ;
            },
        }
    }
    parts
}

/// The pieces of a list joined with `d` between each two.
pub open spec fn joined(parts: Seq<Seq<u8>>, d: u8) -> Seq<u8>
    decreases parts.len(),
{
    if parts.len() == 0 {
        Seq::empty()
    } else if parts.len() == 1 {
        parts[0]
    } else {
        parts[0] + seq![d] + joined(parts.skip(1), d)
    }
}

/// Splitting from `p` on: the pieces joined with `d` give back what follows
/// `p`, and no piece holds `d`.
proof fn lemma_split_join(s: Seq<u8>, d: u8, p: int)
    requires
        0 <= p <= s.len(),
    ensures
        split_on(s, d, p).len() >= 1,
        joined(split_on(s, d, p), d) == s.skip(p),
        forall|k: int|
            0 <= k < split_on(s, d, p).len() ==> !(#[trigger] split_on(s, d, p)[k]).contains(d),
    decreases s.len() - p,
{
    lemma_find_from(s, d, p);
    let parts = split_on(s, d, p);
    match find_from(s, d, p) {
        Some(i) => {
            lemma_split_join(s, d, i + 1);
            let rest = split_on(s, d, i + 1);
            assert(parts.skip(1) =~= rest);
            assert(s.subrange(p, i) + seq![d] + s.skip(i + 1) =~= s.skip(p));
            assert forall|k: int| 0 <= k < parts.len() implies !(#[trigger] parts[k]).contains(
                d,
            ) by {
                if k == 0 {
                    assert forall|j: int| 0 <= j < parts[0].len() implies parts[0][j] != d by {
                        assert(parts[0][j] == s[p + j]);
                    }
                } else {
                    assert(parts[k] == rest[k - 1]);
                }
            }
        },
        None => {
            assert(s.subrange(p, s.len() as int) =~= s.skip(p));
            assert forall|j: int| 0 <= j < parts[0].len() implies parts[0][j] != d by {
                assert(parts[0][j] == s[p + j]);
            }
        },
    }
}

/// The fields of a sentence, joined with commas, give back the sentence up
/// to its first `*`; there is always at least one field, and no field holds
/// a comma.
pub proof fn law_fields_join(sentence: Seq<u8>)
    ensures
        split_on(before_star(sentence), COMMA, 0).len() >= 1,
        joined(split_on(before_star(sentence), COMMA, 0), COMMA) == before_star(sentence),
        forall|k: int|
            0 <= k < split_on(before_star(sentence), COMMA, 0).len() ==> !(#[trigger] split_on(
                before_star(sentence),
                COMMA,
                0,
            )[k]).contains(COMMA),
{
    lemma_split_join(before_star(sentence), COMMA, 0);
    assert(before_star(sentence).skip(0) =~= before_star(sentence));
}

/// The type of a sentence, by the three bytes after its talker.
#[derive(Debug, Clone, Copy, PartialEq, Eq, Hash, Structural)]
pub enum NmeaDataType {
    DHV,
    GGA,
    GLL,
    GSA,
    VTG,
    ZDA,
    Other,
}

impl NmeaDataType {
    /// The type that a three-byte code names; any other code is `Other`.
    pub open spec fn spec_code(s: Seq<u8>) -> Self {
        if s == seq![68u8, 72u8, 86u8] {
            NmeaDataType::DHV
        } else if s == seq![71u8, 71u8, 65u8] {
            NmeaDataType::GGA
        } else if s == seq![71u8, 76u8, 76u8] {
            NmeaDataType::GLL
        } else if s == seq![71u8, 83u8, 65u8] {
            NmeaDataType::GSA
        } else if s == seq![86u8, 84u8, 71u8] {
            NmeaDataType::VTG
        } else if s == seq![90u8, 68u8, 65u8] {
            NmeaDataType::ZDA
        } else {
            NmeaDataType::Other
        }
    }

    /// Reads the type from bytes 3 to 5 of a sentence. A sentence shorter
    /// than six bytes is an error.
    pub fn from_str(sentence: &str) -> (r: Result<Self, ParseError>)
        requires
            sbytes(sentence).len() >= 6 ==> at_boundary(sbytes(sentence), 3) && at_boundary(
                sbytes(sentence),
                6,
            ),
        ensures
            sbytes(sentence).len() < 6 ==> (r matches Err(e) && e.kind
                == ErrorKind::InvalidSentence && e.message@ == "Invalid sentense: "@ + sentence@),
            sbytes(sentence).len() >= 6 ==> r == Ok::<Self, ParseError>(
                Self::spec_code(sbytes(sentence).subrange(3, 6)),
            ),
    {
        if sentence.as_bytes().len() < 6 {
            return Err(
                ParseError::with_text(ErrorKind::InvalidSentence, "Invalid sentense: ", sentence),
            );
        }
        let code = substr(sentence, 3, 6);
        let b = code.as_bytes();
        if crate::data::is3(b, 68, 72, 86) {
            Ok(NmeaDataType::DHV)
        } else if crate::data::is3(b, 71, 71, 65) {
            Ok(NmeaDataType::GGA)
        } else if crate::data::is3(b, 71, 76, 76) {
            Ok(NmeaDataType::GLL)
        } else if crate::data::is3(b, 71, 83, 65) {
            Ok(NmeaDataType::GSA)
        } else if crate::data::is3(b, 86, 84, 71) {
            Ok(NmeaDataType::VTG)
        } else if crate::data::is3(b, 90, 68, 65) {
            Ok(NmeaDataType::ZDA)
        } else {
            Ok(NmeaDataType::Other)
        }
    }
}

/// Whether a GLL position is valid.
#[derive(Debug, Clone, Copy, PartialEq, Eq, Structural)]
pub enum GllDataValid {
    Valid,
    Invalid,
}

impl GllDataValid {
    /// The value that the text `s` names.
    pub open spec fn spec_from(s: Seq<u8>) -> Option<Self> {
        if s == seq![65u8] {
            Some(GllDataValid::Valid)
        } else if s == seq![86u8] {
            Some(GllDataValid::Invalid)
        } else {
            None
        }
    }

    /// Reads `A` (valid) or `V` (invalid); any other text is an error.
    pub fn from_str(s: &str) -> (r: Result<Self, ParseError>)
        ensures
            r matches Ok(v) ==> Self::spec_from(sbytes(s)) == Some(v),
            r is Err ==> Self::spec_from(sbytes(s)) is None,
            r matches Err(e) ==> e.kind == ErrorKind::UnknownValue && e.message@
                == "Unknown GllDataValid "@ + s@,
    {
        let b = s.as_bytes();
        if crate::data::is1(b, 65) {
            Ok(GllDataValid::Valid)
        } else if crate::data::is1(b, 86) {
            Ok(GllDataValid::Invalid)
        } else {
            Err(ParseError::with_text(ErrorKind::UnknownValue, "Unknown GllDataValid ", s))
        }
    }
}

impl FromField for GllDataValid {
    open spec fn field_rel(s: Seq<u8>, r: Option<Self>) -> bool {
        r == Self::spec_from(s)
    }

    proof fn lemma_value_or_nothing(s: Seq<u8>, v: Self) {
    }

    fn from_field(s: &str) -> (r: Option<Self>) {
        match Self::from_str(s) {
            Ok(v) => Some(v),
            Err(_) => None,
        }
    }
}

/// The navigation system that sent a sentence.
#[derive(Debug, Clone, Copy, PartialEq, Eq, Structural)]
pub enum NavigationSystem {
    /// BeiDou (China)
    BD,
    /// GLONASS, according to IEIC 61162-1
    GL,
    /// Combination of multiple satellite systems (NMEA 1083)
    GN,
    /// Global Positioning System receiver
    GP,
}

impl NavigationSystem {
    /// The system's two-letter code.
    pub open spec fn code(self) -> Seq<char> {
        match self {
            NavigationSystem::BD => "BD"@,
            NavigationSystem::GL => "GL"@,
            NavigationSystem::GN => "GN"@,
            NavigationSystem::GP => "GP"@,
        }
    }

    /// The system's full name.
    pub open spec fn long_name(self) -> Seq<char> {
        match self {
            NavigationSystem::BD => "BeiDou (China)"@,
            NavigationSystem::GL => "GLONASS, according to IEIC 61162-1"@,
            NavigationSystem::GN => "Combination of multiple satellite systems (NMEA 1083)"@,
            NavigationSystem::GP => "Global Positioning System receiver"@,
        }
    }

    /// The system whose code or full name is `s`.
    pub open spec fn spec_from(s: Seq<char>) -> Option<Self> {
        if s == NavigationSystem::BD.long_name() || s == NavigationSystem::BD.code() {
            Some(NavigationSystem::BD)
        } else if s == NavigationSystem::GL.long_name() || s == NavigationSystem::GL.code() {
            Some(NavigationSystem::GL)
        } else if s == NavigationSystem::GN.long_name() || s == NavigationSystem::GN.code() {
            Some(NavigationSystem::GN)
        } else if s == NavigationSystem::GP.long_name() || s == NavigationSystem::GP.code() {
            Some(NavigationSystem::GP)
        } else {
            None
        }
    }

    /// Reads a system from its code or its full name, exactly as written.
    pub fn from_str(s: &str) -> (r: Result<Self, ParseError>)
        ensures
            r matches Ok(v) ==> Self::spec_from(s@) == Some(v),
            r is Err ==> Self::spec_from(s@) is None,
            r matches Err(e) ==> e.kind == ErrorKind::VariantNotFound && e.message@
                == "Matching variant not found"@,
    {
        if str_eq(s, "BeiDou (China)") || str_eq(s, "BD") {
            Ok(NavigationSystem::BD)
        } else if str_eq(s, "GLONASS, according to IEIC 61162-1") || str_eq(s, "GL") {
            Ok(NavigationSystem::GL)
        } else if str_eq(s, "Combination of multiple satellite systems (NMEA 1083)") || str_eq(
            s,
            "GN",
        ) {
            Ok(NavigationSystem::GN)
        } else if str_eq(s, "Global Positioning System receiver") || str_eq(s, "GP") {
            Ok(NavigationSystem::GP)
        } else {
            Err(ParseError::variant_not_found())
        }
    }

    /// The system's full name.
    pub fn as_ref(&self) -> (r: &'static str)
        ensures
            r@ == self.long_name(),
    {
        match self {
            NavigationSystem::BD => "BeiDou (China)",
            NavigationSystem::GL => "GLONASS, according to IEIC 61162-1",
            NavigationSystem::GN => "Combination of multiple satellite systems (NMEA 1083)",
            NavigationSystem::GP => "Global Positioning System receiver",
        }
    }

    /// The talker that sends this system's sentences.
    pub open spec fn spec_talker(self) -> Talker {
        match self {
            NavigationSystem::BD => Talker::BD,
            NavigationSystem::GL => Talker::GL,
            NavigationSystem::GN => Talker::GN,
            NavigationSystem::GP => Talker::GP,
        }
    }

    /// The talker that sends this system's sentences.
    pub fn talker(&self) -> (r: Talker)
        ensures
            r == self.spec_talker(),
    {
        match self {
            NavigationSystem::BD => Talker::BD,
            NavigationSystem::GL => Talker::GL,
            NavigationSystem::GN => Talker::GN,
            NavigationSystem::GP => Talker::GP,
        }
    }

    /// Reading a system's code or full name gives the system back.
    pub proof fn law_names_round_trip(x: NavigationSystem)
        ensures
            Self::spec_from(x.code()) == Some(x),
            Self::spec_from(x.long_name()) == Some(x),
    {
        reveal_strlit("BD");
        reveal_strlit("GL");
        reveal_strlit("GN");
        reveal_strlit("GP");
        reveal_strlit("BeiDou (China)");
        reveal_strlit("GLONASS, according to IEIC 61162-1");
        reveal_strlit("Combination of multiple satellite systems (NMEA 1083)");
        reveal_strlit("Global Positioning System receiver");
        let bd = NavigationSystem::BD;
        let gl = NavigationSystem::GL;
        let gn = NavigationSystem::GN;
        let gp = NavigationSystem::GP;
        assert(bd.code()[0] != gl.code()[0] && bd.code()[0] != gn.code()[0] && bd.code()[0]
            != gp.code()[0]);
        assert(gl.code()[1] != gn.code()[1] && gl.code()[1] != gp.code()[1] && gn.code()[1]
            != gp.code()[1]);
        assert(bd.long_name().len() == 14 && gl.long_name().len() == 34 && gn.long_name().len()
            == 53 && gp.long_name().len() == 34);
        assert(gl.long_name()[1] != gp.long_name()[1]);
    }
}

/// The kind of an NMEA 0183 sentence, by the text after its talker.
#[derive(Debug, Clone, PartialEq)]
pub enum Nmea0183 {
    GGA,
    GLL,
    Other(String),
}

impl Nmea0183 {
    /// The characters of a sentence's first field after its first three.
    pub open spec fn kind_text(b: Seq<u8>) -> Seq<char> {
        let first = decode_utf8(
            match find_from(b, COMMA, 0) {
                Some(i) => b.take(i),
                None => b,
            },
        );
        if first.len() >= 3 {
            first.skip(3)
        } else {
            Seq::empty()
        }
    }

    /// Reads the kind of a sentence from its first field, past `$` and the
    /// talker: `GGA`, or any other text as itself; an empty one is an error.
    pub fn try_from(sentence: &str) -> (r: Result<Self, ParseError>)
        ensures
            Self::kind_text(sbytes(sentence)) == "GGA"@ ==> r == Ok::<Self, ParseError>(
                Nmea0183::GGA,
            ),
            Self::kind_text(sbytes(sentence)).len() == 0 ==> (r matches Err(e) && e.kind
                == ErrorKind::EmptySentence && e.message@ == "Empty string."@),
            Self::kind_text(sbytes(sentence)) != "GGA"@ && Self::kind_text(sbytes(sentence)).len()
                > 0 ==> (r matches Ok(Nmea0183::Other(t)) && t@ == Self::kind_text(
                sbytes(sentence),
            )),
    {
        let b = sentence.as_bytes();
        proof {
            lemma_find_from(sbytes(sentence), COMMA, 0);
            lemma_str_valid(sentence);
        }
        let end = match find_byte_from(b, COMMA, 0) {
            Some(i) => {
                proof {
                    lemma_ascii_boundary(sbytes(sentence), i as int);
                }
                i
            },
            None => b.len(),
        };
        let first = substr(sentence, 0, end);
        assert(sbytes(first) =~= match find_from(sbytes(sentence), COMMA, 0) {
            Some(i) => sbytes(sentence).take(i),
            None => sbytes(sentence),
        });
        let n = first.unicode_len();
        let rest = if n >= 3 {
            first.substring_char(3, n)
        } else {
            proof {
                reveal_strlit("");
            }
            ""
        };
        assert(rest@ == Self::kind_text(sbytes(sentence)));
        proof {
            reveal_strlit("GGA");
        }
        if str_eq(rest, "GGA") {
            Ok(Nmea0183::GGA)
        } else if rest.unicode_len() == 0 {
            Err(ParseError::empty_sentence())
        } else {
            Ok(Nmea0183::Other(String::from_str(rest)))
        }
    }
}

/// What `str::to_uppercase` gives for a text: each character replaced by its
/// Unicode upper-case mapping.
pub uninterp spec fn uppercase(s: Seq<char>) -> Seq<char>;

/// Calls `str::to_uppercase`; its result is named [`uppercase`] of the
/// text, which it depends on alone.
#[verifier::external_body]
fn to_upper(s: &str) -> (r: String)
    ensures
        r@ == uppercase(s@),
{
    s.to_uppercase()
}

/// A latitude or longitude split into its whole degrees and its minutes,
/// and whether it lies south or west.
#[derive(Debug, Clone)]
pub struct SplitCoordinate {
    pub degrees: FloatLiteral,
    pub minutes: FloatLiteral,
    pub negative: bool,
}

/// Whether an upper-case latitude hemisphere is south: `N` is north and `S`
/// south; any other text is an error.
pub fn latitude_sign(upper: &str) -> (r: Result<bool, ParseError>)
    ensures
        upper@ == "N"@ ==> r == Ok::<bool, ParseError>(false),
        upper@ == "S"@ ==> r == Ok::<bool, ParseError>(true),
        upper@ != "N"@ && upper@ != "S"@ ==> (r matches Err(e) && e.kind
            == ErrorKind::UnknownHemisphere && e.message@ == "Unknown hemi: "@ + upper@ + "."@),
{
    proof {
        reveal_strlit("N");
        reveal_strlit("S");
        assert("N"@[0] != "S"@[0]);
    }
    if str_eq(upper, "N") {
        Ok(false)
    } else if str_eq(upper, "S") {
        Ok(true)
    } else {
        Err(ParseError::with_text_around(ErrorKind::UnknownHemisphere, "Unknown hemi: ", upper, "."))
    }
}

/// Whether an upper-case longitude hemisphere is west: `E` is east and `W`
/// west; any other text is an error.
pub fn longitude_sign(upper: &str) -> (r: Result<bool, ParseError>)
    ensures
        upper@ == "E"@ ==> r == Ok::<bool, ParseError>(false),
        upper@ == "W"@ ==> r == Ok::<bool, ParseError>(true),
        upper@ != "E"@ && upper@ != "W"@ ==> (r matches Err(e) && e.kind
            == ErrorKind::UnknownHemisphere && e.message@ == "Unknown hemisphere: "@ + upper@),
{
    proof {
        reveal_strlit("E");
        reveal_strlit("W");
        assert("E"@[0] != "W"@[0]);
    }
    if str_eq(upper, "E") {
        Ok(false)
    } else if str_eq(upper, "W") {
        Ok(true)
    } else {
        Err(ParseError::with_text(ErrorKind::UnknownHemisphere, "Unknown hemisphere: ", upper))
    }
}

/// `r` is what an upper-case latitude hemisphere `up` gives with these
/// degrees and minutes.
pub open spec fn latitude_sign_rel(
    up: Seq<char>,
    deg: Seq<u8>,
    min: Seq<u8>,
    r: Result<Option<SplitCoordinate>, ParseError>,
) -> bool {
    if up == "N"@ || up == "S"@ {
        r matches Ok(Some(c)) && c.degrees@ == deg && c.minutes@ == min && c.negative == (up
            == "S"@)
    } else {
        r matches Err(e) && e.kind == ErrorKind::UnknownHemisphere && e.message@ == "Unknown hemi: "@
            + up + "."@
    }
}

/// `r` is what an upper-case longitude hemisphere `up` gives with these
/// degrees and minutes.
pub open spec fn longitude_sign_rel(
    up: Seq<char>,
    deg: Seq<u8>,
    min: Seq<u8>,
    r: Result<Option<SplitCoordinate>, ParseError>,
) -> bool {
    if up == "E"@ || up == "W"@ {
        r matches Ok(Some(c)) && c.degrees@ == deg && c.minutes@ == min && c.negative == (up
            == "W"@)
    } else {
        r matches Err(e) && e.kind == ErrorKind::UnknownHemisphere && e.message@
            == "Unknown hemisphere: "@ + up
    }
}

/// The whole part and the fraction of a time field, split at its first
/// `.`; without a `.`, the fraction is `0`.
pub open spec fn utc_split(t: Seq<u8>) -> (Seq<u8>, Seq<u8>) {
    match find_from(t, 46, 0) {
        Some(d) => (t.take(d), t.skip(d + 1)),
        None => (t, seq![48u8]),
    }
}

/// The hour, minute, second and nanoseconds a time field `hhmmss[.f]`
/// gives, or the error of the first piece that is no number.
pub open spec fn utc_fields(t: Seq<u8>) -> Result<(nat, nat, nat, nat), ErrorKind> {
    let (main, frac) = utc_split(t);
    match (opt_u32(two_at(main, 0)), opt_u32(two_at(main, 2)), opt_u32(two_at(main, 4))) {
        (Some(h), Some(m), Some(s)) => if is_fraction_text(frac) {
            Ok((h, m, s, frac_nanos(frac)))
        } else {
            Err(ErrorKind::InvalidFloat)
        },
        _ => Err(ErrorKind::InvalidInteger),
    }
}

/// The time field `t` can be read: its whole part has at least six bytes,
/// cut at character boundaries into two-byte numbers, and when all its
/// numbers are read they make a time that chrono accepts.
pub open spec fn utc_readable(t: Seq<u8>) -> bool {
    let main = utc_split(t).0;
    &&& main.len() >= 6
    &&& at_boundary(main, 2)
    &&& at_boundary(main, 4)
    &&& at_boundary(main, 6)
    &&& utc_fields(t) matches Ok(x) ==> time_valid(x.0, x.1, x.2, x.3)
}

/// Whether a time field can be read, as [`utc_readable`] says.
pub fn utc_readable_exec(field: &str) -> (r: bool)
    ensures
        r == utc_readable(sbytes(field)),
{
    let t = field.as_bytes();
    proof {
        lemma_find_from(t@, 46, 0);
    }
    let (main, frac_ok, nanos): (&[u8], bool, u32) = match find_byte_from(t, 46, 0) {
        Some(d) => {
            assert(d < t.len());
            let m = vstd::slice::slice_subrange(t, 0, d);
            let f = vstd::slice::slice_subrange(t, d + 1, t.len());
            assert(m@ =~= t@.take(d as int));
            assert(f@ =~= t@.skip(d + 1));
            (m, is_fraction_text_exec(f), frac_nanos_exec(f))
        },
        None => {
            proof {
                let z = seq![48u8];
                law_short_fraction(z);
                assert(z.drop_last() =~= Seq::<u8>::empty());
                assert(z.last() == 48);
                assert(crate::number::digits_value(z.drop_last()) == 0);
                assert(crate::number::digits_value(z) == 0);
                let p8 = crate::time::pow10((9 - z.len()) as nat);
                assert(0 * p8 == 0) by (nonlinear_arith);
                crate::text::lemma_find2_from(z, 101, 69, 0);
                assert(is_fraction_text(z));
            }
            (t, true, 0)
        },
    };
    if main.len() < 6 {
        return false;
    }
    if !((main[2] < 128 || main[2] >= 192) && (main[4] < 128 || main[4] >= 192) && (main.len() == 6
        || main[6] < 128 || main[6] >= 192)) {
        return false;
    }
    match (u32_at(main, 0), u32_at(main, 2), u32_at(main, 4)) {
        (Some(h), Some(m), Some(s)) => {
            if !frac_ok {
                return true;
            }
            UtcTime::from_hms_nano(h, m, s, nanos).is_some()
        },
        _ => true,
    }
}

/// Reads a readable time field into a time of day.
fn read_utc_field(field: &str) -> (r: Result<UtcTime, ParseError>)
    requires
        utc_readable(sbytes(field)),
    ensures
        match utc_fields(sbytes(field)) {
            Err(k) => r matches Err(e) && e.kind == k && e.message@ == crate::error::message_for(k),
            Ok(x) => r == Ok::<UtcTime, ParseError>(
                UtcTime { hour: x.0 as u32, minute: x.1 as u32, second: x.2 as u32, nano: x.3 as u32 },
            ),
        },
{
    let t = field.as_bytes();
    proof {
        lemma_find_from(t@, 46, 0);
    }
    let (main, nanos): (&[u8], u32) = match find_byte_from(t, 46, 0) {
        Some(d) => {
            assert(d < t.len());
            let m = vstd::slice::slice_subrange(t, 0, d);
            let f = vstd::slice::slice_subrange(t, d + 1, t.len());
            assert(m@ =~= t@.take(d as int));
            assert(f@ =~= t@.skip(d + 1));
            if !is_fraction_text_exec(f) {
                if u32_at(m, 0).is_none() || u32_at(m, 2).is_none() || u32_at(m, 4).is_none() {
                    return Err(ParseError::invalid_integer());
                }
                return Err(ParseError::invalid_float());
            }
            (m, frac_nanos_exec(f))
        },
        None => {
            proof {
                let z = seq![48u8];
                law_short_fraction(z);
                assert(z.drop_last() =~= Seq::<u8>::empty());
                assert(z.last() == 48);
                assert(crate::number::digits_value(z.drop_last()) == 0);
                assert(crate::number::digits_value(z) == 0);
                assert(z.len() == 1);
                let p8 = crate::time::pow10((9 - z.len()) as nat);
                assert(0 * p8 == 0) by (nonlinear_arith);
                assert(frac_nanos(z) == 0);
                crate::text::lemma_find2_from(z, 101, 69, 0);
                assert(find2_from(z, 101, 69, 0) is None);
                assert(is_fraction_text(z));
            }
            (t, 0)
        },
    };
    let h = match u32_at(main, 0) {
        Some(v) => v,
        None => {
            return Err(ParseError::invalid_integer());
        },
    };
    let m = match u32_at(main, 2) {
        Some(v) => v,
        None => {
            return Err(ParseError::invalid_integer());
        },
    };
    let s = match u32_at(main, 4) {
        Some(v) => v,
        None => {
            return Err(ParseError::invalid_integer());
        },
    };
    match UtcTime::from_hms_nano(h, m, s, nanos) {
        Some(time) => Ok(time),
        None => {
            proof {
                assert(false);
            }
            Err(ParseError::invalid_integer())
        },
    }
}

/// Reading a sentence as a list of comma-separated fields.
pub struct NmeaParser {}

impl NmeaParser {
    /// What [`NmeaParser::is_valid`] computes: the sentence passes the
    /// checksum check, that is, it starts with `$` and the two hexadecimal
    /// digits after its first `*` give the exclusive or of the bytes between.
    pub open spec fn spec_is_valid(b: Seq<u8>) -> bool {
        checksum_check(b) is Ok
    }

    /// Checks a sentence's checksum, as [`NmeaParser::spec_is_valid`] says.
    pub fn is_valid(sentence: &str) -> (r: bool)
        ensures
            r == Self::spec_is_valid(sbytes(sentence)),
    {
        check_sentence(sentence.as_bytes()).is_ok()
    }

    /// A sentence made of `$`, data without a `*`, `*` and two checksum
    /// digits is valid exactly when the checksum is the exclusive or of the
    /// data.
    pub proof fn law_is_valid_framed(data: Seq<u8>, checksum: u8)
        requires
            forall|i: int| 0 <= i < data.len() ==> data[i] != STAR,
        ensures
            Self::spec_is_valid(framed(data, checksum)) <==> checksum == xor_all(data),
    {
        if checksum == xor_all(data) {
            law_checksum_accepts(data);
        } else {
            law_checksum_mismatch(data, checksum);
        }
    }

    /// Reads field `index` of `parts`: nothing when there is no such field or
    /// it is empty; otherwise its value, or an error when the text is not a
    /// value of the type.
    pub fn parse_primitive<T: FromField>(parts: &[&str], index: usize) -> (r: Result<
        Option<T>,
        ParseError,
    >)
        ensures
            index >= parts@.len() ==> r matches Ok(None),
            index < parts@.len() && sbytes(parts@[index as int]).len() == 0 ==> r matches Ok(None),
            index < parts@.len() && sbytes(parts@[index as int]).len() > 0 ==> {
                &&& r matches Ok(Some(v)) ==> T::field_rel(sbytes(parts@[index as int]), Some(v))
                &&& r is Err ==> T::field_rel(sbytes(parts@[index as int]), None)
                &&& r matches Err(e) ==> e.kind == ErrorKind::InvalidField && e.message@
                    == "Invalid field: "@ + parts@[index as int]@
                &&& !(r matches Ok(None))
            },
    {
        if index >= parts.len() {
            return Ok(None);
        }
        let s = parts[index];
        if s.as_bytes().len() == 0 {
            return Ok(None);
        }
        match T::from_field(s) {
            Some(v) => Ok(Some(v)),
            None => Err(ParseError::with_text(ErrorKind::InvalidField, "Invalid field: ", s)),
        }
    }

    /// Reads the latitude field `num_index` and the hemisphere field
    /// `hemi_index`: nothing when either field is missing; an error when the
    /// number has fewer than 4 bytes; else the first 2 bytes as
    /// degrees and the rest as minutes, both numbers, and the hemisphere, read
    /// in upper case (`N` or `S`).
    pub fn parse_latitude(parts: &[&str], num_index: usize, hemi_index: usize) -> (r: Result<
        Option<SplitCoordinate>,
        ParseError,
    >)
        requires
            num_index < parts@.len() && hemi_index < parts@.len() && sbytes(
                parts@[num_index as int],
            ).len() >= 4 ==> at_boundary(sbytes(parts@[num_index as int]), 2),
        ensures
            num_index >= parts@.len() || hemi_index >= parts@.len() ==> r matches Ok(None),
            num_index < parts@.len() && hemi_index < parts@.len() ==> {
                let n = sbytes(parts@[num_index as int]);
                let deg = n.take(2);
                let min = n.skip(2);
                if n.len() < 4 {
                    r matches Err(e) && e.kind == ErrorKind::InvalidField && e.message@
                        == "Invalid latitude Format: "@ + parts@[num_index as int]@ + "."@
                } else if !is_f64_literal(deg) || !is_f64_literal(min) {
                    r matches Err(e) && e.kind == ErrorKind::InvalidFloat && e.message@
                        == "invalid float literal"@
                } else {
                    latitude_sign_rel(uppercase(parts@[hemi_index as int]@), deg, min, r)
                }
            },
    {
        if num_index >= parts.len() || hemi_index >= parts.len() {
            return Ok(None);
        }
        let num = parts[num_index];
        let hemi = parts[hemi_index];
        if num.as_bytes().len() < 4 {
            return Err(
                ParseError::with_text_around(
                    ErrorKind::InvalidField,
                    "Invalid latitude Format: ",
                    num,
                    ".",
                ),
            );
        }
        let degrees = match FloatLiteral::from_field(substr(num, 0, 2)) {
            Some(d) => d,
            None => {
                return Err(ParseError::invalid_float());
            },
        };
        let minutes = match FloatLiteral::from_field(substr(num, 2, num.as_bytes().len())) {
            Some(m) => m,
            None => {
                return Err(ParseError::invalid_float());
            },
        };
        let up = to_upper(hemi);
        let negative = latitude_sign(up.as_str())?;
        Ok(Some(SplitCoordinate { degrees, minutes, negative }))
    }

    /// Reads the longitude field `num_index` and the hemisphere field
    /// `hemi_index`: nothing when either field is missing; an error when the
    /// number has fewer than 5 bytes; else the first 3 bytes as
    /// degrees and the rest as minutes, both numbers, and the hemisphere, read
    /// in upper case (`E` or `W`).
    pub fn parse_longitude(parts: &[&str], num_index: usize, hemi_index: usize) -> (r: Result<
        Option<SplitCoordinate>,
        ParseError,
    >)
        requires
            num_index < parts@.len() && hemi_index < parts@.len() && sbytes(
                parts@[num_index as int],
            ).len() >= 5 ==> at_boundary(sbytes(parts@[num_index as int]), 3),
        ensures
            num_index >= parts@.len() || hemi_index >= parts@.len() ==> r matches Ok(None),
            num_index < parts@.len() && hemi_index < parts@.len() ==> {
                let n = sbytes(parts@[num_index as int]);
                let deg = n.take(3);
                let min = n.skip(3);
                if n.len() < 5 {
                    r matches Err(e) && e.kind == ErrorKind::InvalidField && e.message@
                        == "Invalid longitude format: "@ + parts@[num_index as int]@
                } else if !is_f64_literal(deg) || !is_f64_literal(min) {
                    r matches Err(e) && e.kind == ErrorKind::InvalidFloat && e.message@
                        == "invalid float literal"@
                } else {
                    longitude_sign_rel(uppercase(parts@[hemi_index as int]@), deg, min, r)
                }
            },
    {
        if num_index >= parts.len() || hemi_index >= parts.len() {
            return Ok(None);
        }
        let num = parts[num_index];
        let hemi = parts[hemi_index];
        if num.as_bytes().len() < 5 {
            return Err(ParseError::with_text(ErrorKind::InvalidField, "Invalid longitude format: ", num));
        }
        let degrees = match FloatLiteral::from_field(substr(num, 0, 3)) {
            Some(d) => d,
            None => {
                return Err(ParseError::invalid_float());
            },
        };
        let minutes = match FloatLiteral::from_field(substr(num, 3, num.as_bytes().len())) {
            Some(m) => m,
            None => {
                return Err(ParseError::invalid_float());
            },
        };
        let up = to_upper(hemi);
        let negative = longitude_sign(up.as_str())?;
        Ok(Some(SplitCoordinate { degrees, minutes, negative }))
    }

    /// The time of day that a readable time field gives.
    pub open spec fn time_of(x: (nat, nat, nat, nat)) -> UtcTime {
        UtcTime { hour: x.0 as u32, minute: x.1 as u32, second: x.2 as u32, nano: x.3 as u32 }
    }

    /// Reads the time field `index`: nothing when there is no such field;
    /// else the time of day of `hhmmss[.f]` on the current UTC date, or an
    /// error when a piece is no number.
    pub fn parse_utc(parts: &[&str], index: usize) -> (r: Result<Option<UtcDateTime>, ParseError>)
        requires
            index < parts@.len() ==> utc_readable(sbytes(parts@[index as int])),
        ensures
            index >= parts@.len() ==> r matches Ok(None),
            index < parts@.len() ==> match utc_fields(sbytes(parts@[index as int])) {
                Err(k) => r matches Err(e) && e.kind == k && e.message@ == crate::error::message_for(
                    k,
                ),
                Ok(x) => r matches Ok(Some(dt)) && dt.time == Self::time_of(x) && dt.date.valid(),
            },
    {
        if index >= parts.len() {
            return Ok(None);
        }
        let t = read_utc_field(parts[index])?;
        Ok(Some(UtcDateTime::today_at(t)))
    }

    /// Reads a time field `hhmmss[.f]` as that time of day on the current
    /// UTC date. When its whole part is not six bytes long it gives the
    /// current date and time, read from the clock.
    pub fn parse_hhmmss_fractional(hhmmss: &str) -> (r: Result<UtcDateTime, ParseError>)
        requires
            utc_split(sbytes(hhmmss)).0.len() == 6 ==> utc_readable(sbytes(hhmmss)),
        ensures
            utc_split(sbytes(hhmmss)).0.len() != 6 ==> (r matches Ok(dt) && dt.valid()),
            utc_split(sbytes(hhmmss)).0.len() == 6 ==> match utc_fields(sbytes(hhmmss)) {
                Err(k) => r matches Err(e) && e.kind == k && e.message@ == crate::error::message_for(
                    k,
                ),
                Ok(x) => r matches Ok(dt) && dt.time == Self::time_of(x) && dt.date.valid(),
            },
    {
        let t = hhmmss.as_bytes();
        proof {
            lemma_find_from(t@, 46, 0);
        }
        let main_len = match find_byte_from(t, 46, 0) {
            Some(d) => d,
            None => t.len(),
        };
        if main_len != 6 {
            return Ok(utc_now());
        }
        let time = read_utc_field(hhmmss)?;
        Ok(UtcDateTime::today_at(time))
    }

    /// Reads the navigation system from bytes 1 and 2 of a sentence; a
    /// sentence shorter than six bytes is an error.
    pub fn get_navigation_system(sentence: &str) -> (r: Result<NavigationSystem, ParseError>)
        requires
            sbytes(sentence).len() >= 6 ==> at_boundary(sbytes(sentence), 1) && at_boundary(
                sbytes(sentence),
                3,
            ),
        ensures
            sbytes(sentence).len() < 6 ==> (r matches Err(e) && e.kind
                == ErrorKind::InvalidSentence && e.message@ == "Invalid sentense: "@ + sentence@),
            sbytes(sentence).len() >= 6 ==> {
                let code = decode_utf8(sbytes(sentence).subrange(1, 3));
                &&& r matches Ok(v) ==> NavigationSystem::spec_from(code) == Some(v)
                &&& r is Err ==> NavigationSystem::spec_from(code) is None
                &&& r matches Err(e) ==> e.kind == ErrorKind::VariantNotFound && e.message@
                    == "Matching variant not found"@
            },
    {
        if sentence.as_bytes().len() < 6 {
            return Err(
                ParseError::with_text(ErrorKind::InvalidSentence, "Invalid sentense: ", sentence),
            );
        }
        NavigationSystem::from_str(substr(sentence, 1, 3))
    }
}

/// The data of a sentence of any of the types that are read.
#[derive(Debug, Clone)]
pub enum GenericNmeaData {
    DHV(fields::Dhv),
    GGA(nmea_data::Gga),
    GLL(fields::Gll),
    GSA(fields::Gsa),
    VTG(fields::Vtg),
    ZDA(fields::Zda),
    Other(String),
}

impl GenericNmeaData {
    /// The sentence `b` can be read by its type without a panic: its talker
    /// and its type can be cut out of it, and when the talker names a
    /// navigation system, the sentence's type can read it.
    pub open spec fn readable(b: Seq<u8>) -> bool {
        b.len() >= 6 ==> {
            &&& at_boundary(b, 1)
            &&& at_boundary(b, 3)
            &&& at_boundary(b, 6)
            &&& NavigationSystem::spec_from(decode_utf8(b.subrange(1, 3))) is Some
                ==> Self::type_readable(b)
        }
    }

    /// The parser of the sentence's type can read `b` without a panic.
    pub open spec fn type_readable(b: Seq<u8>) -> bool {
        match NmeaDataType::spec_code(b.subrange(3, 6)) {
            NmeaDataType::DHV => fields::Dhv::readable(b),
            NmeaDataType::GLL => fields::Gll::readable(b),
            NmeaDataType::GSA => fields::Gsa::readable(b),
            NmeaDataType::ZDA => fields::Zda::readable(b),
            _ => true,
        }
    }

    /// Whether the sentence can be read without a panic, as
    /// [`GenericNmeaData::readable`] says.
    pub fn can_parse(sentence: &str) -> (r: bool)
        ensures
            r == Self::readable(sbytes(sentence)),
    {
        if sentence.as_bytes().len() < 6 {
            return true;
        }
        if !is_boundary(sentence, 1) || !is_boundary(sentence, 3) || !is_boundary(sentence, 6) {
            return false;
        }
        if NavigationSystem::from_str(substr(sentence, 1, 3)).is_err() {
            return true;
        }
        match NmeaDataType::from_str(sentence) {
            Ok(NmeaDataType::DHV) => fields::Dhv::can_parse(sentence),
            Ok(NmeaDataType::GLL) => fields::Gll::can_parse(sentence),
            Ok(NmeaDataType::GSA) => fields::Gsa::can_parse(sentence),
            Ok(NmeaDataType::ZDA) => fields::Zda::can_parse(sentence),
            _ => true,
        }
    }

    /// What reading the sentence `b` by its type gives: its type, read from
    /// bytes 3 to 5, and its data, read by that type's parser for the
    /// navigation system named by bytes 1 and 2; a sentence of another type
    /// is kept as it is.
    pub open spec fn spec_parse(b: Seq<u8>, r: Result<(NmeaDataType, GenericNmeaData), ParseError>) -> bool {
        if b.len() < 6 {
            r matches Err(e) && e.kind == ErrorKind::InvalidSentence && e.message@
                == "Invalid sentense: "@ + decode_utf8(b)
        } else {
            match NavigationSystem::spec_from(decode_utf8(b.subrange(1, 3))) {
                None => r matches Err(e) && e.kind == ErrorKind::VariantNotFound && e.message@
                    == "Matching variant not found"@,
                Some(ns) => match NmeaDataType::spec_code(b.subrange(3, 6)) {
                    NmeaDataType::DHV => match r {
                        Ok((key, GenericNmeaData::DHV(d))) => key == NmeaDataType::DHV
                            && fields::Dhv::spec_parse(b, ns, Ok(d)),
                        Err(e) => fields::Dhv::spec_parse(b, ns, Err(e)),
                        _ => false,
                    },
                    NmeaDataType::GGA => match r {
                        Ok((key, GenericNmeaData::GGA(d))) => key == NmeaDataType::GGA
                            && nmea_data::Gga::spec_new(b, 0, ns.spec_talker(), Ok(d)),
                        Err(e) => nmea_data::Gga::spec_new(b, 0, ns.spec_talker(), Err(e)),
                        _ => false,
                    },
                    NmeaDataType::GLL => match r {
                        Ok((key, GenericNmeaData::GLL(d))) => key == NmeaDataType::GLL
                            && fields::Gll::spec_parse(b, ns, Ok(d)),
                        Err(e) => fields::Gll::spec_parse(b, ns, Err(e)),
                        _ => false,
                    },
                    NmeaDataType::GSA => match r {
                        Ok((key, GenericNmeaData::GSA(d))) => key == NmeaDataType::GSA
                            && fields::Gsa::spec_parse(b, ns, Ok(d)),
                        Err(e) => fields::Gsa::spec_parse(b, ns, Err(e)),
                        _ => false,
                    },
                    NmeaDataType::VTG => match r {
                        Ok((key, GenericNmeaData::VTG(d))) => key == NmeaDataType::VTG
                            && fields::Vtg::spec_parse(b, ns, Ok(d)),
                        Err(e) => fields::Vtg::spec_parse(b, ns, Err(e)),
                        _ => false,
                    },
                    NmeaDataType::ZDA => match r {
                        Ok((key, GenericNmeaData::ZDA(d))) => key == NmeaDataType::ZDA
                            && fields::Zda::spec_parse(b, ns, Ok(d)),
                        Err(e) => fields::Zda::spec_parse(b, ns, Err(e)),
                        _ => false,
                    },
                    NmeaDataType::Other => r matches Ok((key, GenericNmeaData::Other(s)))
                        && key == NmeaDataType::Other && string_bytes(s) == b,
                },
            }
        }
    }

    /// Reads a sentence by its type.
    pub fn parse(sentence: &str) -> (r: Result<(NmeaDataType, GenericNmeaData), ParseError>)
        requires
            Self::readable(sbytes(sentence)),
        ensures
            Self::spec_parse(sbytes(sentence), r),
    {
        let key = NmeaDataType::from_str(sentence)?;
        let ns = NavigationSystem::from_str(substr(sentence, 1, 3))?;
        let data = match key {
            NmeaDataType::DHV => GenericNmeaData::DHV(fields::Dhv::parse_sentence(sentence, ns)?),
            NmeaDataType::GGA => {
                let mut ctx = StrParserContext::new();
                GenericNmeaData::GGA(nmea_data::Gga::new(ctx.init(sentence.to_string()), ns.talker())?)
            },
            NmeaDataType::GLL => GenericNmeaData::GLL(fields::Gll::parse_sentence(sentence, ns)?),
            NmeaDataType::GSA => GenericNmeaData::GSA(fields::Gsa::parse_sentense(sentence, ns)?),
            NmeaDataType::VTG => GenericNmeaData::VTG(fields::Vtg::parse_sentense(sentence, ns)?),
            NmeaDataType::ZDA => GenericNmeaData::ZDA(fields::Zda::parse_sentense(sentence, ns)?),
            NmeaDataType::Other => GenericNmeaData::Other(sentence.to_string()),
        };
        Ok((key, data))
    }
}

} // verus!
