//! NMEA sentences: the talkers and sentence types, the values their fields
//! hold, and the parsers of each sentence.
use vstd::prelude::*;
use vstd::string::StringExecFns;
use vstd::utf8::{decode_utf8, encode_utf8, is_ascii_chars};

use crate::error::{decimal_text, ErrorKind, ParseError};
use crate::number::FromField;
use crate::rules::{checksum_check, trimmed};
use crate::str_parser::{fails_with, StrParserContext};
use crate::text::{at_boundary, sbytes, substr};

mod dhv;
mod gbs;
mod gga;
mod gll;
mod gns;
mod grs;
mod gsa;
mod gst;
mod gsv;
mod rmc;
mod txt;
mod vtg;
mod zda;

pub use dhv::Dhv;
pub use gbs::Gbs;
pub use gga::Gga;
pub use gll::Gll;
pub use gns::Gns;
pub use grs::{literal_texts, Grs};
pub use gsa::Gsa;
pub use gst::Gst;
pub use gsv::{Gsv, Satellite};
pub use rmc::Rmc;
pub use txt::{info_view, infos_view, Txt};
pub use vtg::Vtg;
pub use zda::Zda;

verus! {

broadcast use vstd::utf8::group_utf8_lib;

/// `b` is the one byte `c0`.
pub fn is1(b: &[u8], c0: u8) -> (r: bool)
    ensures
        r == (b@ == seq![c0]),
{
    if b.len() == 1 && b[0] == c0 {
        assert(b@ =~= seq![c0]);
        true
    } else {
        false
    }
}

/// `b` is the two bytes `c0 c1`.
pub fn is2(b: &[u8], c0: u8, c1: u8) -> (r: bool)
    ensures
        r == (b@ == seq![c0, c1]),
{
    if b.len() == 2 && b[0] == c0 && b[1] == c1 {
        assert(b@ =~= seq![c0, c1]);
        true
    } else {
        false
    }
}

/// `b` is the three bytes `c0 c1 c2`.
pub fn is3(b: &[u8], c0: u8, c1: u8, c2: u8) -> (r: bool)
    ensures
        r == (b@ == seq![c0, c1, c2]),
{
    if b.len() == 3 && b[0] == c0 && b[1] == c1 && b[2] == c2 {
        assert(b@ =~= seq![c0, c1, c2]);
        true
    } else {
        false
    }
}

/// The system that sent a sentence.
#[derive(Debug, Clone, Copy, PartialEq, Eq, Structural)]
pub enum Talker {
    /// BeiDou (China)
    BD,
    /// Galileo Positioning System
    GA,
    /// GLONASS, according to IEIC 61162-1
    GL,
    /// Combination of multiple satellite systems (NMEA 1083)
    GN,
    /// Global Positioning System receiver
    GP,
    /// QZSS (Quectel Quirk)
    PQ,
}

impl Talker {
    /// The talker's two-letter code.
    pub open spec fn name(self) -> Seq<char> {
        match self {
            Talker::BD => seq!['B', 'D'],
            Talker::GA => seq!['G', 'A'],
            Talker::GL => seq!['G', 'L'],
            Talker::GN => seq!['G', 'N'],
            Talker::GP => seq!['G', 'P'],
            Talker::PQ => seq!['P', 'Q'],
        }
    }

    /// The name as text, as `Display` writes it.
    pub fn to_string(&self) -> (r: String)
        ensures
            r@ == self.name(),
    {
        match self {
            Talker::BD => {
                proof {
                    reveal_strlit("BD");
                }
                String::from_str("BD")
            },
            Talker::GA => {
                proof {
                    reveal_strlit("GA");
                }
                String::from_str("GA")
            },
            Talker::GL => {
                proof {
                    reveal_strlit("GL");
                }
                String::from_str("GL")
            },
            Talker::GN => {
                proof {
                    reveal_strlit("GN");
                }
                String::from_str("GN")
            },
            Talker::GP => {
                proof {
                    reveal_strlit("GP");
                }
                String::from_str("GP")
            },
            Talker::PQ => {
                proof {
                    reveal_strlit("PQ");
                }
                String::from_str("PQ")
            },
        }
    }

    /// Reading a talker's name gives the talker back.
    pub proof fn law_name_round_trip(x: Talker)
        ensures
            Self::spec_code(encode_utf8(x.name())) == Some(x),
    {
        assert(is_ascii_chars(x.name()));
        match x {
            Talker::BD => {
                assert(encode_utf8(x.name()) =~= seq![66u8, 68u8]);
            },
            Talker::GA => {
                assert(encode_utf8(x.name()) =~= seq![71u8, 65u8]);
            },
            Talker::GL => {
                assert(encode_utf8(x.name()) =~= seq![71u8, 76u8]);
            },
            Talker::GN => {
                assert(encode_utf8(x.name()) =~= seq![71u8, 78u8]);
            },
            Talker::GP => {
                assert(encode_utf8(x.name()) =~= seq![71u8, 80u8]);
            },
            Talker::PQ => {
                assert(encode_utf8(x.name()) =~= seq![80u8, 81u8]);
            },
        }
    }

    /// The talker that a two-byte code names.
    pub open spec fn spec_code(s: Seq<u8>) -> Option<Self> {
        if s == seq![66u8, 68u8] {
            Some(Talker::BD)
        } else if s == seq![71u8, 65u8] {
            Some(Talker::GA)
        } else if s == seq![71u8, 76u8] {
            Some(Talker::GL)
        } else if s == seq![71u8, 78u8] {
            Some(Talker::GN)
        } else if s == seq![71u8, 80u8] {
            Some(Talker::GP)
        } else if s == seq![80u8, 81u8] {
            Some(Talker::PQ)
        } else {
            None
        }
    }

    /// Reads the talker from bytes 1 and 2 of a sentence (`$GPGGA,...` is
    /// `GP`).
    pub fn from_str(sentence: &str) -> (r: Result<Self, ParseError>)
        requires
            sbytes(sentence).len() >= 3,
            at_boundary(sbytes(sentence), 1),
            at_boundary(sbytes(sentence), 3),
        ensures
            r matches Ok(v) ==> Self::spec_code(sbytes(sentence).subrange(1, 3)) == Some(v),
            r is Err ==> Self::spec_code(sbytes(sentence).subrange(1, 3)) is None,
            r matches Err(e) ==> e.kind == ErrorKind::UnknownTalker && e.message@
                == "Unknown talker: "@ + decode_utf8(sbytes(sentence).subrange(1, 3)),
    {
        let code = substr(sentence, 1, 3);
        let b = code.as_bytes();
        if is2(b, 66, 68) {
            Ok(Talker::BD)
        } else if is2(b, 71, 65) {
            Ok(Talker::GA)
        } else if is2(b, 71, 76) {
            Ok(Talker::GL)
        } else if is2(b, 71, 78) {
            Ok(Talker::GN)
        } else if is2(b, 71, 80) {
            Ok(Talker::GP)
        } else if is2(b, 80, 81) {
            Ok(Talker::PQ)
        } else {
            Err(ParseError::with_text(ErrorKind::UnknownTalker, "Unknown talker: ", code))
        }
    }
}

/// The type of a sentence.
#[derive(Debug, Clone, Copy, PartialEq, Eq, Structural)]
pub enum Identifier {
    DHV,
    /// GPS Satellite Fault Detection
    GBS,
    /// Global Positioning System Fix Data
    GGA,
    /// Geographic Position - Latitude/Longitude
    GLL,
    /// Fix data
    GNS,
    /// GPS Range Residuals
    GRS,
    /// GPS DOP and active satellites
    GSA,
    /// GPS Pseudorange Noise Statistics
    GST,
    /// Satellites in view
    GSV,
    /// Recommended Minimum Navigation Information
    RMC,
    /// Text transmission
    Txt,
    /// Track made good and Ground speed
    VTG,
    /// Time & Date - UTC, day, month, year and local time zone
    ZDA,
}

impl Identifier {
    /// The sentence type's three-letter code.
    pub open spec fn name(self) -> Seq<char> {
        match self {
            Identifier::DHV => seq!['D', 'H', 'V'],
            Identifier::GBS => seq!['G', 'B', 'S'],
            Identifier::GGA => seq!['G', 'G', 'A'],
            Identifier::GLL => seq!['G', 'L', 'L'],
            Identifier::GNS => seq!['G', 'N', 'S'],
            Identifier::GRS => seq!['G', 'R', 'S'],
            Identifier::GSA => seq!['G', 'S', 'A'],
            Identifier::GST => seq!['G', 'S', 'T'],
            Identifier::GSV => seq!['G', 'S', 'V'],
            Identifier::RMC => seq!['R', 'M', 'C'],
            Identifier::Txt => seq!['T', 'X', 'T'],
            Identifier::VTG => seq!['V', 'T', 'G'],
            Identifier::ZDA => seq!['Z', 'D', 'A'],
        }
    }

    /// The name as text, as `Display` writes it.
    pub fn to_string(&self) -> (r: String)
        ensures
            r@ == self.name(),
    {
        match self {
            Identifier::DHV => {
                proof {
                    reveal_strlit("DHV");
                }
                String::from_str("DHV")
            },
            Identifier::GBS => {
                proof {
                    reveal_strlit("GBS");
                }
                String::from_str("GBS")
            },
            Identifier::GGA => {
                proof {
                    reveal_strlit("GGA");
                }
                String::from_str("GGA")
            },
            Identifier::GLL => {
                proof {
                    reveal_strlit("GLL");
                }
                String::from_str("GLL")
            },
            Identifier::GNS => {
                proof {
                    reveal_strlit("GNS");
                }
                String::from_str("GNS")
            },
            Identifier::GRS => {
                proof {
                    reveal_strlit("GRS");
                }
                String::from_str("GRS")
            },
            Identifier::GSA => {
                proof {
                    reveal_strlit("GSA");
                }
                String::from_str("GSA")
            },
            Identifier::GST => {
                proof {
                    reveal_strlit("GST");
                }
                String::from_str("GST")
            },
            Identifier::GSV => {
                proof {
                    reveal_strlit("GSV");
                }
                String::from_str("GSV")
            },
            Identifier::RMC => {
                proof {
                    reveal_strlit("RMC");
                }
                String::from_str("RMC")
            },
            Identifier::Txt => {
                proof {
                    reveal_strlit("TXT");
                }
                String::from_str("TXT")
            },
            Identifier::VTG => {
                proof {
                    reveal_strlit("VTG");
                }
                String::from_str("VTG")
            },
            Identifier::ZDA => {
                proof {
                    reveal_strlit("ZDA");
                }
                String::from_str("ZDA")
            },
        }
    }

    /// Reading a sentence type's name gives the sentence type back.
    pub proof fn law_name_round_trip(x: Identifier)
        ensures
            Self::spec_code(encode_utf8(x.name())) == Some(x),
    {
        assert(is_ascii_chars(x.name()));
        match x {
            Identifier::DHV => {
                assert(encode_utf8(x.name()) =~= seq![68u8, 72u8, 86u8]);
            },
            Identifier::GBS => {
                assert(encode_utf8(x.name()) =~= seq![71u8, 66u8, 83u8]);
            },
            Identifier::GGA => {
                assert(encode_utf8(x.name()) =~= seq![71u8, 71u8, 65u8]);
            },
            Identifier::GLL => {
                assert(encode_utf8(x.name()) =~= seq![71u8, 76u8, 76u8]);
            },
            Identifier::GNS => {
                assert(encode_utf8(x.name()) =~= seq![71u8, 78u8, 83u8]);
            },
            Identifier::GRS => {
                assert(encode_utf8(x.name()) =~= seq![71u8, 82u8, 83u8]);
            },
            Identifier::GSA => {
                assert(encode_utf8(x.name()) =~= seq![71u8, 83u8, 65u8]);
            },
            Identifier::GST => {
                assert(encode_utf8(x.name()) =~= seq![71u8, 83u8, 84u8]);
            },
            Identifier::GSV => {
                assert(encode_utf8(x.name()) =~= seq![71u8, 83u8, 86u8]);
            },
            Identifier::RMC => {
                assert(encode_utf8(x.name()) =~= seq![82u8, 77u8, 67u8]);
            },
            Identifier::Txt => {
                assert(encode_utf8(x.name()) =~= seq![84u8, 88u8, 84u8]);
            },
            Identifier::VTG => {
                assert(encode_utf8(x.name()) =~= seq![86u8, 84u8, 71u8]);
            },
            Identifier::ZDA => {
                assert(encode_utf8(x.name()) =~= seq![90u8, 68u8, 65u8]);
            },
        }
    }

    /// The sentence type that a three-byte code names.
    pub open spec fn spec_code(s: Seq<u8>) -> Option<Self> {
        if s == seq![68u8, 72u8, 86u8] {
            Some(Identifier::DHV)
        } else if s == seq![71u8, 66u8, 83u8] {
            Some(Identifier::GBS)
        } else if s == seq![71u8, 71u8, 65u8] {
            Some(Identifier::GGA)
        } else if s == seq![71u8, 76u8, 76u8] {
            Some(Identifier::GLL)
        } else if s == seq![71u8, 78u8, 83u8] {
            Some(Identifier::GNS)
        } else if s == seq![71u8, 82u8, 83u8] {
            Some(Identifier::GRS)
        } else if s == seq![71u8, 83u8, 65u8] {
            Some(Identifier::GSA)
        } else if s == seq![71u8, 83u8, 84u8] {
            Some(Identifier::GST)
        } else if s == seq![71u8, 83u8, 86u8] {
            Some(Identifier::GSV)
        } else if s == seq![82u8, 77u8, 67u8] {
            Some(Identifier::RMC)
        } else if s == seq![84u8, 88u8, 84u8] {
            Some(Identifier::Txt)
        } else if s == seq![86u8, 84u8, 71u8] {
            Some(Identifier::VTG)
        } else if s == seq![90u8, 68u8, 65u8] {
            Some(Identifier::ZDA)
        } else {
            None
        }
    }

    /// Reads the sentence type from bytes 3 to 5 of a sentence (`$GPGGA,...`
    /// is `GGA`). A sentence shorter than six bytes is an error.
    pub fn from_str(sentence: &str) -> (r: Result<Self, ParseError>)
        requires
            sbytes(sentence).len() >= 6 ==> at_boundary(sbytes(sentence), 3) && at_boundary(
                sbytes(sentence),
                6,
            ),
        ensures
            sbytes(sentence).len() < 6 ==> (r matches Err(e) && e.kind
                == ErrorKind::InvalidSentence && e.message@ == "Invalid sentence: "@ + sentence@),
            sbytes(sentence).len() >= 6 ==> {
                let code = sbytes(sentence).subrange(3, 6);
                &&& r matches Ok(v) ==> Self::spec_code(code) == Some(v)
                &&& r is Err ==> Self::spec_code(code) is None
                &&& r matches Err(e) ==> e.kind == ErrorKind::UnknownIdentifier && e.message@
                    == "Unknown identifier: "@ + decode_utf8(code)
            },
    {
        if sentence.as_bytes().len() < 6 {
            return Err(
                ParseError::with_text(ErrorKind::InvalidSentence, "Invalid sentence: ", sentence),
            );
        }
        let code = substr(sentence, 3, 6);
        let b = code.as_bytes();
        if is3(b, 68, 72, 86) {
            Ok(Identifier::DHV)
        } else if is3(b, 71, 66, 83) {
            Ok(Identifier::GBS)
        } else if is3(b, 71, 71, 65) {
            Ok(Identifier::GGA)
        } else if is3(b, 71, 76, 76) {
            Ok(Identifier::GLL)
        } else if is3(b, 71, 78, 83) {
            Ok(Identifier::GNS)
        } else if is3(b, 71, 82, 83) {
            Ok(Identifier::GRS)
        } else if is3(b, 71, 83, 65) {
            Ok(Identifier::GSA)
        } else if is3(b, 71, 83, 84) {
            Ok(Identifier::GST)
        } else if is3(b, 71, 83, 86) {
            Ok(Identifier::GSV)
        } else if is3(b, 82, 77, 67) {
            Ok(Identifier::RMC)
        } else if is3(b, 84, 88, 84) {
            Ok(Identifier::Txt)
        } else if is3(b, 86, 84, 71) {
            Ok(Identifier::VTG)
        } else if is3(b, 90, 68, 65) {
            Ok(Identifier::ZDA)
        } else {
            Err(ParseError::with_text(ErrorKind::UnknownIdentifier, "Unknown identifier: ", code))
        }
    }
}

/// The kind of a TXT message.
#[derive(Debug, Clone, Copy, PartialEq, Eq, Structural)]
pub enum TxtType {
    Error,
    Warn,
    Info,
    User,
}

impl TxtType {
    /// The kind's name.
    pub open spec fn name(self) -> Seq<char> {
        match self {
            TxtType::Error => seq!['E', 'r', 'r', 'o', 'r'],
            TxtType::Warn => seq!['W', 'a', 'r', 'n'],
            TxtType::Info => seq!['I', 'n', 'f', 'o'],
            TxtType::User => seq!['U', 's', 'e', 'r'],
        }
    }

    /// The name as text, as `Display` writes it.
    pub fn to_string(&self) -> (r: String)
        ensures
            r@ == self.name(),
    {
        match self {
            TxtType::Error => {
                proof {
                    reveal_strlit("Error");
                }
                String::from_str("Error")
            },
            TxtType::Warn => {
                proof {
                    reveal_strlit("Warn");
                }
                String::from_str("Warn")
            },
            TxtType::Info => {
                proof {
                    reveal_strlit("Info");
                }
                String::from_str("Info")
            },
            TxtType::User => {
                proof {
                    reveal_strlit("User");
                }
                String::from_str("User")
            },
        }
    }

    /// The kind that a message-type number names.
    pub open spec fn spec_from(n: u8) -> Option<Self> {
        if n == 0 {
            Some(TxtType::Error)
        } else if n == 1 {
            Some(TxtType::Warn)
        } else if n == 2 {
            Some(TxtType::Info)
        } else if n == 7 {
            Some(TxtType::User)
        } else {
            None
        }
    }

    /// Reads the kind that a message-type number names.
    pub fn try_from(n: u8) -> (r: Result<Self, ParseError>)
        ensures
            r matches Ok(v) ==> Self::spec_from(n) == Some(v),
            r is Err ==> Self::spec_from(n) is None,
            r matches Err(e) ==> e.kind == ErrorKind::UnknownValue && e.message@
                == "Unknown txt type: "@ + decimal_text(n as nat),
    {
        if n == 0 {
            Ok(TxtType::Error)
        } else if n == 1 {
            Ok(TxtType::Warn)
        } else if n == 2 {
            Ok(TxtType::Info)
        } else if n == 7 {
            Ok(TxtType::User)
        } else {
            proof {
                reveal_strlit("");
            }
            let mut e = ParseError::with_text(ErrorKind::UnknownValue, "Unknown txt type: ", "");
            crate::error::push_decimal(&mut e.message, n as usize);
            Err(e)
        }
    }
}

/// How a position was obtained (FAA mode indicator).
#[derive(Debug, Clone, Copy, PartialEq, Eq, Structural)]
pub enum PosMode {
    Autonomous,
    Differential,
    Estimated,
    RtkFloat,
    ManualInput,
    NotValid,
    Precise,
    RtkInteger,
    Simulator,
}

impl PosMode {
    /// The value that the text `s` names.
    pub open spec fn spec_from(s: Seq<u8>) -> Option<Self> {
        if s == seq![65u8] {
            Some(PosMode::Autonomous)
        } else if s == seq![68u8] {
            Some(PosMode::Differential)
        } else if s == seq![69u8] {
            Some(PosMode::Estimated)
        } else if s == seq![70u8] {
            Some(PosMode::RtkFloat)
        } else if s == seq![77u8] {
            Some(PosMode::ManualInput)
        } else if s == seq![78u8] {
            Some(PosMode::NotValid)
        } else if s == seq![80u8] {
            Some(PosMode::Precise)
        } else if s == seq![82u8] {
            Some(PosMode::RtkInteger)
        } else if s == seq![83u8] {
            Some(PosMode::Simulator)
        } else {
            None
        }
    }

    /// Reads the value that `s` names; an unknown text is an error.
    pub fn from_str(s: &str) -> (r: Result<Self, ParseError>)
        ensures
            r matches Ok(v) ==> Self::spec_from(sbytes(s)) == Some(v),
            r is Err ==> Self::spec_from(sbytes(s)) is None,
            r matches Err(e) ==> e.kind == ErrorKind::UnknownValue && e.message@ == "Unknown FaaMode: "@ + s@,
    {
        let b = s.as_bytes();
        if is1(b, 65) {
            Ok(PosMode::Autonomous)
        } else if is1(b, 68) {
            Ok(PosMode::Differential)
        } else if is1(b, 69) {
            Ok(PosMode::Estimated)
        } else if is1(b, 70) {
            Ok(PosMode::RtkFloat)
        } else if is1(b, 77) {
            Ok(PosMode::ManualInput)
        } else if is1(b, 78) {
            Ok(PosMode::NotValid)
        } else if is1(b, 80) {
            Ok(PosMode::Precise)
        } else if is1(b, 82) {
            Ok(PosMode::RtkInteger)
        } else if is1(b, 83) {
            Ok(PosMode::Simulator)
        } else {
            Err(ParseError::with_text(ErrorKind::UnknownValue, "Unknown FaaMode: ", s))
        }
    }
}

impl FromField for PosMode {
    open spec fn field_rel(s: Seq<u8>, r: Option<Self>) -> bool {
        r == Self::spec_from(s)
    }

    proof fn lemma_value_or_nothing(s: Seq<u8>, v: Self) {
    }

    fn from_field(s: &str) -> (r: Option<Self>) {
        match Self::from_str(s) {
            Ok(v) => Some(v),
            Err(_) => None,
        }
    }
}

/// FAA mode indicator.
#[derive(Debug, Clone, Copy, PartialEq, Eq, Structural)]
pub enum FaaMode {
    Autonomous,
    Differential,
    Estimated,
    ManualInput,
    Simulator,
    NotValid,
}

impl FaaMode {
    /// The value that the text `s` names.
    pub open spec fn spec_from(s: Seq<u8>) -> Option<Self> {
        if s == seq![65u8] {
            Some(FaaMode::Autonomous)
        } else if s == seq![68u8] {
            Some(FaaMode::Differential)
        } else if s == seq![69u8] {
            Some(FaaMode::Estimated)
        } else if s == seq![77u8] {
            Some(FaaMode::ManualInput)
        } else if s == seq![83u8] {
            Some(FaaMode::Simulator)
        } else if s == seq![78u8] {
            Some(FaaMode::NotValid)
        } else {
            None
        }
    }

    /// Reads the value that `s` names; an unknown text is an error.
    pub fn from_str(s: &str) -> (r: Result<Self, ParseError>)
        ensures
            r matches Ok(v) ==> Self::spec_from(sbytes(s)) == Some(v),
            r is Err ==> Self::spec_from(sbytes(s)) is None,
            r matches Err(e) ==> e.kind == ErrorKind::UnknownValue && e.message@ == "Unknown FaaMode: "@ + s@,
    {
        let b = s.as_bytes();
        if is1(b, 65) {
            Ok(FaaMode::Autonomous)
        } else if is1(b, 68) {
            Ok(FaaMode::Differential)
        } else if is1(b, 69) {
            Ok(FaaMode::Estimated)
        } else if is1(b, 77) {
            Ok(FaaMode::ManualInput)
        } else if is1(b, 83) {
            Ok(FaaMode::Simulator)
        } else if is1(b, 78) {
            Ok(FaaMode::NotValid)
        } else {
            Err(ParseError::with_text(ErrorKind::UnknownValue, "Unknown FaaMode: ", s))
        }
    }
}

impl FromField for FaaMode {
    open spec fn field_rel(s: Seq<u8>, r: Option<Self>) -> bool {
        r == Self::spec_from(s)
    }

    proof fn lemma_value_or_nothing(s: Seq<u8>, v: Self) {
    }

    fn from_field(s: &str) -> (r: Option<Self>) {
        match Self::from_str(s) {
            Ok(v) => Some(v),
            Err(_) => None,
        }
    }
}

/// GNSS system identifier.
#[derive(Debug, Clone, Copy, PartialEq, Eq, Structural)]
pub enum SystemId {
    GPS,
    GLONASS,
    BDS,
    QZSS,
    NavIC,
}

impl SystemId {
    /// The value that the text `s` names.
    pub open spec fn spec_from(s: Seq<u8>) -> Option<Self> {
        if s == seq![49u8] {
            Some(SystemId::GPS)
        } else if s == seq![50u8] {
            Some(SystemId::GLONASS)
        } else if s == seq![51u8] {
            Some(SystemId::BDS)
        } else if s == seq![52u8] {
            Some(SystemId::QZSS)
        } else if s == seq![53u8] {
            Some(SystemId::NavIC)
        } else {
            None
        }
    }

    /// Reads the value that `s` names; an unknown text is an error.
    pub fn from_str(s: &str) -> (r: Result<Self, ParseError>)
        ensures
            r matches Ok(v) ==> Self::spec_from(sbytes(s)) == Some(v),
            r is Err ==> Self::spec_from(sbytes(s)) is None,
            r matches Err(e) ==> e.kind == ErrorKind::UnknownValue && e.message@ == "Unknown sysyemid "@ + s@,
    {
        let b = s.as_bytes();
        if is1(b, 49) {
            Ok(SystemId::GPS)
        } else if is1(b, 50) {
            Ok(SystemId::GLONASS)
        } else if is1(b, 51) {
            Ok(SystemId::BDS)
        } else if is1(b, 52) {
            Ok(SystemId::QZSS)
        } else if is1(b, 53) {
            Ok(SystemId::NavIC)
        } else {
            Err(ParseError::with_text(ErrorKind::UnknownValue, "Unknown sysyemid ", s))
        }
    }
}

impl FromField for SystemId {
    open spec fn field_rel(s: Seq<u8>, r: Option<Self>) -> bool {
        r == Self::spec_from(s)
    }

    proof fn lemma_value_or_nothing(s: Seq<u8>, v: Self) {
    }

    fn from_field(s: &str) -> (r: Option<Self>) {
        match Self::from_str(s) {
            Ok(v) => Some(v),
            Err(_) => None,
        }
    }
}

/// Whether data is valid.
#[derive(Debug, Clone, Copy, PartialEq, Eq, Structural)]
pub enum Status {
    Valid,
    Invalid,
}

impl Status {
    /// The value that the text `s` names.
    pub open spec fn spec_from(s: Seq<u8>) -> Option<Self> {
        if s == seq![65u8] {
            Some(Status::Valid)
        } else if s == seq![86u8] {
            Some(Status::Invalid)
        } else {
            None
        }
    }

    /// Reads the value that `s` names; an unknown text is an error.
    pub fn from_str(s: &str) -> (r: Result<Self, ParseError>)
        ensures
            r matches Ok(v) ==> Self::spec_from(sbytes(s)) == Some(v),
            r is Err ==> Self::spec_from(sbytes(s)) is None,
            r matches Err(e) ==> e.kind == ErrorKind::UnknownValue && e.message@ == "Unknown status "@ + s@,
    {
        let b = s.as_bytes();
        if is1(b, 65) {
            Ok(Status::Valid)
        } else if is1(b, 86) {
            Ok(Status::Invalid)
        } else {
            Err(ParseError::with_text(ErrorKind::UnknownValue, "Unknown status ", s))
        }
    }
}

impl FromField for Status {
    open spec fn field_rel(s: Seq<u8>, r: Option<Self>) -> bool {
        r == Self::spec_from(s)
    }

    proof fn lemma_value_or_nothing(s: Seq<u8>, v: Self) {
    }

    fn from_field(s: &str) -> (r: Option<Self>) {
        match Self::from_str(s) {
            Ok(v) => Some(v),
            Err(_) => None,
        }
    }
}

/// GPS quality indicator of a GGA fix.
#[derive(Debug, Clone, Copy, PartialEq, Eq, Structural)]
pub enum GgaQualityIndicator {
    Invalid,
    GpsFix,
    DifferentialGpsFix,
    PpsFix,
    RealTimeKinematic,
    FloatRTK,
    DeadReckoning,
    ManualInputMode,
    SimulationMode,
}

impl GgaQualityIndicator {
    /// The value that the text `s` names.
    pub open spec fn spec_from(s: Seq<u8>) -> Option<Self> {
        if s == seq![48u8] {
            Some(GgaQualityIndicator::Invalid)
        } else if s == seq![49u8] {
            Some(GgaQualityIndicator::GpsFix)
        } else if s == seq![50u8] {
            Some(GgaQualityIndicator::DifferentialGpsFix)
        } else if s == seq![51u8] {
            Some(GgaQualityIndicator::PpsFix)
        } else if s == seq![52u8] {
            Some(GgaQualityIndicator::RealTimeKinematic)
        } else if s == seq![53u8] {
            Some(GgaQualityIndicator::FloatRTK)
        } else if s == seq![54u8] {
            Some(GgaQualityIndicator::DeadReckoning)
        } else if s == seq![55u8] {
            Some(GgaQualityIndicator::ManualInputMode)
        } else if s == seq![56u8] {
            Some(GgaQualityIndicator::SimulationMode)
        } else {
            None
        }
    }

    /// Reads the value that `s` names; an unknown text is an error.
    pub fn from_str(s: &str) -> (r: Result<Self, ParseError>)
        ensures
            r matches Ok(v) ==> Self::spec_from(sbytes(s)) == Some(v),
            r is Err ==> Self::spec_from(sbytes(s)) is None,
            r matches Err(e) ==> e.kind == ErrorKind::UnknownValue && e.message@ == "Unknown GgaQualityIndicator "@ + s@,
    {
        let b = s.as_bytes();
        if is1(b, 48) {
            Ok(GgaQualityIndicator::Invalid)
        } else if is1(b, 49) {
            Ok(GgaQualityIndicator::GpsFix)
        } else if is1(b, 50) {
            Ok(GgaQualityIndicator::DifferentialGpsFix)
        } else if is1(b, 51) {
            Ok(GgaQualityIndicator::PpsFix)
        } else if is1(b, 52) {
            Ok(GgaQualityIndicator::RealTimeKinematic)
        } else if is1(b, 53) {
            Ok(GgaQualityIndicator::FloatRTK)
        } else if is1(b, 54) {
            Ok(GgaQualityIndicator::DeadReckoning)
        } else if is1(b, 55) {
            Ok(GgaQualityIndicator::ManualInputMode)
        } else if is1(b, 56) {
            Ok(GgaQualityIndicator::SimulationMode)
        } else {
            Err(ParseError::with_text(ErrorKind::UnknownValue, "Unknown GgaQualityIndicator ", s))
        }
    }
}

impl FromField for GgaQualityIndicator {
    open spec fn field_rel(s: Seq<u8>, r: Option<Self>) -> bool {
        r == Self::spec_from(s)
    }

    proof fn lemma_value_or_nothing(s: Seq<u8>, v: Self) {
    }

    fn from_field(s: &str) -> (r: Option<Self>) {
        match Self::from_str(s) {
            Ok(v) => Some(v),
            Err(_) => None,
        }
    }
}

/// Navigational status of a GNS fix.
#[derive(Debug, Clone, Copy, PartialEq, Eq, Structural)]
pub enum NavigationStatus {
    Safe,
    Caution,
    Unsafe,
    Invalid,
}

impl NavigationStatus {
    /// The value that the text `s` names.
    pub open spec fn spec_from(s: Seq<u8>) -> Option<Self> {
        if s == seq![83u8] {
            Some(NavigationStatus::Safe)
        } else if s == seq![67u8] {
            Some(NavigationStatus::Caution)
        } else if s == seq![85u8] {
            Some(NavigationStatus::Unsafe)
        } else if s == seq![86u8] {
            Some(NavigationStatus::Invalid)
        } else {
            None
        }
    }

    /// Reads the value that `s` names; an unknown text is an error.
    pub fn from_str(s: &str) -> (r: Result<Self, ParseError>)
        ensures
            r matches Ok(v) ==> Self::spec_from(sbytes(s)) == Some(v),
            r is Err ==> Self::spec_from(sbytes(s)) is None,
            r matches Err(e) ==> e.kind == ErrorKind::UnknownValue && e.message@ == "Unknown NavigationStatus: "@ + s@,
    {
        let b = s.as_bytes();
        if is1(b, 83) {
            Ok(NavigationStatus::Safe)
        } else if is1(b, 67) {
            Ok(NavigationStatus::Caution)
        } else if is1(b, 85) {
            Ok(NavigationStatus::Unsafe)
        } else if is1(b, 86) {
            Ok(NavigationStatus::Invalid)
        } else {
            Err(ParseError::with_text(ErrorKind::UnknownValue, "Unknown NavigationStatus: ", s))
        }
    }
}

impl FromField for NavigationStatus {
    open spec fn field_rel(s: Seq<u8>, r: Option<Self>) -> bool {
        r == Self::spec_from(s)
    }

    proof fn lemma_value_or_nothing(s: Seq<u8>, v: Self) {
    }

    fn from_field(s: &str) -> (r: Option<Self>) {
        match Self::from_str(s) {
            Ok(v) => Some(v),
            Err(_) => None,
        }
    }
}

/// How GRS residuals were computed.
#[derive(Debug, Clone, Copy, PartialEq, Eq, Structural)]
pub enum GrsResidualMode {
    UsedInGga,
    CalculatedAfterGga,
}

impl GrsResidualMode {
    /// The value that the text `s` names.
    pub open spec fn spec_from(s: Seq<u8>) -> Option<Self> {
        if s == seq![48u8] {
            Some(GrsResidualMode::UsedInGga)
        } else if s == seq![49u8] {
            Some(GrsResidualMode::CalculatedAfterGga)
        } else {
            None
        }
    }

    /// Reads the value that `s` names; an unknown text is an error.
    pub fn from_str(s: &str) -> (r: Result<Self, ParseError>)
        ensures
            r matches Ok(v) ==> Self::spec_from(sbytes(s)) == Some(v),
            r is Err ==> Self::spec_from(sbytes(s)) is None,
            r matches Err(e) ==> e.kind == ErrorKind::UnknownValue && e.message@ == "Unknown GrsResidualMode: "@ + s@,
    {
        let b = s.as_bytes();
        if is1(b, 48) {
            Ok(GrsResidualMode::UsedInGga)
        } else if is1(b, 49) {
            Ok(GrsResidualMode::CalculatedAfterGga)
        } else {
            Err(ParseError::with_text(ErrorKind::UnknownValue, "Unknown GrsResidualMode: ", s))
        }
    }
}

impl FromField for GrsResidualMode {
    open spec fn field_rel(s: Seq<u8>, r: Option<Self>) -> bool {
        r == Self::spec_from(s)
    }

    proof fn lemma_value_or_nothing(s: Seq<u8>, v: Self) {
    }

    fn from_field(s: &str) -> (r: Option<Self>) {
        match Self::from_str(s) {
            Ok(v) => Some(v),
            Err(_) => None,
        }
    }
}

/// Whether the receiver chose 2D or 3D itself.
#[derive(Debug, Clone, Copy, PartialEq, Eq, Structural)]
pub enum GsaSelectionMode {
    Automatic,
    Manual,
}

impl GsaSelectionMode {
    /// The value that the text `s` names.
    pub open spec fn spec_from(s: Seq<u8>) -> Option<Self> {
        if s == seq![65u8] {
            Some(GsaSelectionMode::Automatic)
        } else if s == seq![77u8] {
            Some(GsaSelectionMode::Manual)
        } else {
            None
        }
    }

    /// Reads the value that `s` names; an unknown text is an error.
    pub fn from_str(s: &str) -> (r: Result<Self, ParseError>)
        ensures
            r matches Ok(v) ==> Self::spec_from(sbytes(s)) == Some(v),
            r is Err ==> Self::spec_from(sbytes(s)) is None,
            r matches Err(e) ==> e.kind == ErrorKind::UnknownValue && e.message@ == "Unknown GsaSelectionMode: "@ + s@,
    {
        let b = s.as_bytes();
        if is1(b, 65) {
            Ok(GsaSelectionMode::Automatic)
        } else if is1(b, 77) {
            Ok(GsaSelectionMode::Manual)
        } else {
            Err(ParseError::with_text(ErrorKind::UnknownValue, "Unknown GsaSelectionMode: ", s))
        }
    }
}

impl FromField for GsaSelectionMode {
    open spec fn field_rel(s: Seq<u8>, r: Option<Self>) -> bool {
        r == Self::spec_from(s)
    }

    proof fn lemma_value_or_nothing(s: Seq<u8>, v: Self) {
    }

    fn from_field(s: &str) -> (r: Option<Self>) {
        match Self::from_str(s) {
            Ok(v) => Some(v),
            Err(_) => None,
        }
    }
}

/// Fix type of a GSA sentence.
#[derive(Debug, Clone, Copy, PartialEq, Eq, Structural)]
pub enum GsaMode {
    NoFix,
    Fix2D,
    Fix3D,
}

impl GsaMode {
    /// The value that the text `s` names.
    pub open spec fn spec_from(s: Seq<u8>) -> Option<Self> {
        if s == seq![49u8] {
            Some(GsaMode::NoFix)
        } else if s == seq![50u8] {
            Some(GsaMode::Fix2D)
        } else if s == seq![51u8] {
            Some(GsaMode::Fix3D)
        } else {
            None
        }
    }

    /// Reads the value that `s` names; an unknown text is an error.
    pub fn from_str(s: &str) -> (r: Result<Self, ParseError>)
        ensures
            r matches Ok(v) ==> Self::spec_from(sbytes(s)) == Some(v),
            r is Err ==> Self::spec_from(sbytes(s)) is None,
            r matches Err(e) ==> e.kind == ErrorKind::UnknownValue && e.message@ == "Unknown GsaMode: "@ + s@,
    {
        let b = s.as_bytes();
        if is1(b, 49) {
            Ok(GsaMode::NoFix)
        } else if is1(b, 50) {
            Ok(GsaMode::Fix2D)
        } else if is1(b, 51) {
            Ok(GsaMode::Fix3D)
        } else {
            Err(ParseError::with_text(ErrorKind::UnknownValue, "Unknown GsaMode: ", s))
        }
    }
}

impl FromField for GsaMode {
    open spec fn field_rel(s: Seq<u8>, r: Option<Self>) -> bool {
        r == Self::spec_from(s)
    }

    proof fn lemma_value_or_nothing(s: Seq<u8>, v: Self) {
    }

    fn from_field(s: &str) -> (r: Option<Self>) {
        match Self::from_str(s) {
            Ok(v) => Some(v),
            Err(_) => None,
        }
    }
}

impl PosMode {
    /// The mode that a single character names.
    pub open spec fn spec_from_char(c: char) -> Option<Self> {
        if (c as u32) < 128 {
            Self::spec_from(seq![c as u8])
        } else {
            None
        }
    }

    /// Reads the mode that a single character names.
    pub fn try_from(value: &char) -> (r: Result<Self, ParseError>)
        ensures
            r matches Ok(v) ==> Self::spec_from_char(*value) == Some(v),
            r is Err ==> Self::spec_from_char(*value) is None,
            r matches Err(e) ==> e.kind == ErrorKind::UnknownValue && e.message@
                == "Unknown FaaMode: "@,
    {
        proof {
            reveal_strlit("");
        }
        let c = *value;
        let v = c as u32;
        if v < 128 {
            let b: [u8; 1] = [v as u8];
            assert(b@ =~= seq![c as u8]);
            match Self::from_str_bytes(b.as_slice()) {
                Some(m) => Ok(m),
                None => Err(ParseError::with_text(ErrorKind::UnknownValue, "Unknown FaaMode: ", "")),
            }
        } else {
            Err(ParseError::with_text(ErrorKind::UnknownValue, "Unknown FaaMode: ", ""))
        }
    }

    fn from_str_bytes(b: &[u8]) -> (r: Option<Self>)
        ensures
            r == Self::spec_from(b@),
    {
        if is1(b, 65) {
            Some(PosMode::Autonomous)
        } else if is1(b, 68) {
            Some(PosMode::Differential)
        } else if is1(b, 69) {
            Some(PosMode::Estimated)
        } else if is1(b, 70) {
            Some(PosMode::RtkFloat)
        } else if is1(b, 77) {
            Some(PosMode::ManualInput)
        } else if is1(b, 78) {
            Some(PosMode::NotValid)
        } else if is1(b, 80) {
            Some(PosMode::Precise)
        } else if is1(b, 82) {
            Some(PosMode::RtkInteger)
        } else if is1(b, 83) {
            Some(PosMode::Simulator)
        } else {
            None
        }
    }
}

/// Every parser that checks the checksum refuses a sentence whose check
/// fails, with the check's error, whatever its fields hold.
pub proof fn law_checked_parsers_refuse(b: Seq<u8>, p: int, talker: Talker, k: ErrorKind)
    requires
        checksum_check(trimmed(b)) == Err::<(), ErrorKind>(k),
    ensures
        forall|r: Result<Dhv, ParseError>| #[trigger] Dhv::spec_new(b, p, talker, r) ==> fails_with(r, k),
        forall|r: Result<Gga, ParseError>| #[trigger] Gga::spec_new(b, p, talker, r) ==> fails_with(r, k),
        forall|r: Result<Gll, ParseError>| #[trigger] Gll::spec_new(b, p, talker, r) ==> fails_with(r, k),
        forall|r: Result<Gns, ParseError>| #[trigger] Gns::spec_new(b, p, talker, r) ==> fails_with(r, k),
        forall|r: Result<Grs, ParseError>| #[trigger] Grs::spec_new(b, p, talker, r) ==> fails_with(r, k),
        forall|r: Result<Gsa, ParseError>| #[trigger] Gsa::spec_new(b, p, talker, r) ==> fails_with(r, k),
        forall|r: Result<Gst, ParseError>| #[trigger] Gst::spec_new(b, p, talker, r) ==> fails_with(r, k),
        forall|r: Result<Rmc, ParseError>| #[trigger] Rmc::spec_new(b, p, talker, r) ==> fails_with(r, k),
        forall|r: Result<Vtg, ParseError>| #[trigger] Vtg::spec_new(b, p, talker, r) ==> fails_with(r, k),
        forall|r: Result<Zda, ParseError>| #[trigger] Zda::spec_new(b, p, talker, r) ==> fails_with(r, k),
{
}

/// A sentence type that is read from a parsing context, for a talker.
pub trait INmeaData: Sized {
    /// What reading the text `b` from `p` gives, for the talker `talker`.
    spec fn spec_parsed(b: Seq<u8>, p: int, talker: Talker, r: Result<Self, ParseError>) -> bool;

    /// Reads the sentence from where the context stands; the text stays as
    /// it is.
    fn new(ctx: &mut StrParserContext, navigation_system: Talker) -> (r: Result<Self, ParseError>)
        ensures
            Self::spec_parsed(old(ctx).full_bytes(), old(ctx).pos(), navigation_system, r),
            final(ctx).full_bytes() == old(ctx).full_bytes(),
    ;
}

impl INmeaData for Dhv {
    open spec fn spec_parsed(b: Seq<u8>, p: int, talker: Talker, r: Result<Self, ParseError>) -> bool {
        Dhv::spec_new(b, p, talker, r)
    }

    fn new(ctx: &mut StrParserContext, navigation_system: Talker) -> (r: Result<Self, ParseError>) {
        Dhv::new(ctx, navigation_system)
    }
}

impl INmeaData for Gga {
    open spec fn spec_parsed(b: Seq<u8>, p: int, talker: Talker, r: Result<Self, ParseError>) -> bool {
        Gga::spec_new(b, p, talker, r)
    }

    fn new(ctx: &mut StrParserContext, navigation_system: Talker) -> (r: Result<Self, ParseError>) {
        Gga::new(ctx, navigation_system)
    }
}

impl INmeaData for Gll {
    open spec fn spec_parsed(b: Seq<u8>, p: int, talker: Talker, r: Result<Self, ParseError>) -> bool {
        Gll::spec_new(b, p, talker, r)
    }

    fn new(ctx: &mut StrParserContext, navigation_system: Talker) -> (r: Result<Self, ParseError>) {
        Gll::new(ctx, navigation_system)
    }
}

impl INmeaData for Grs {
    open spec fn spec_parsed(b: Seq<u8>, p: int, talker: Talker, r: Result<Self, ParseError>) -> bool {
        Grs::spec_new(b, p, talker, r)
    }

    fn new(ctx: &mut StrParserContext, navigation_system: Talker) -> (r: Result<Self, ParseError>) {
        Grs::new(ctx, navigation_system)
    }
}

impl INmeaData for Gsa {
    open spec fn spec_parsed(b: Seq<u8>, p: int, talker: Talker, r: Result<Self, ParseError>) -> bool {
        Gsa::spec_new(b, p, talker, r)
    }

    fn new(ctx: &mut StrParserContext, navigation_system: Talker) -> (r: Result<Self, ParseError>) {
        Gsa::new(ctx, navigation_system)
    }
}

impl INmeaData for Gst {
    open spec fn spec_parsed(b: Seq<u8>, p: int, talker: Talker, r: Result<Self, ParseError>) -> bool {
        Gst::spec_new(b, p, talker, r)
    }

    fn new(ctx: &mut StrParserContext, navigation_system: Talker) -> (r: Result<Self, ParseError>) {
        Gst::new(ctx, navigation_system)
    }
}

impl INmeaData for Vtg {
    open spec fn spec_parsed(b: Seq<u8>, p: int, talker: Talker, r: Result<Self, ParseError>) -> bool {
        Vtg::spec_new(b, p, talker, r)
    }

    fn new(ctx: &mut StrParserContext, navigation_system: Talker) -> (r: Result<Self, ParseError>) {
        Vtg::new(ctx, navigation_system)
    }
}

} // verus!
