//! Sentences read field by field from their comma-separated list: each
//! field by its position, with the helpers of [`NmeaParser`].
use vstd::prelude::*;
use vstd::utf8::decode_utf8;

use crate::data::{FaaMode, GgaQualityIndicator, GsaMode, GsaSelectionMode, SystemId};
use crate::error::{ErrorKind, ParseError};
use crate::generic::{
    before_star, get_sentence_parts, split_on, texts, uppercase, utc_fields, utc_readable,
    utc_readable_exec, GllDataValid, NavigationSystem, NmeaParser, SplitCoordinate,
};
use crate::number::{int_from_str, is_f64_literal, FloatLiteral, FromField};
use crate::rules::COMMA;
use crate::text::{at_boundary, sbytes};
use crate::time::UtcDateTime;

verus! {

broadcast use vstd::utf8::group_utf8_lib;

/// The fields of the sentence `b`.
pub open spec fn fields_of(b: Seq<u8>) -> Seq<Seq<u8>> {
    split_on(before_star(b), COMMA, 0)
}

/// The bytes of whole degrees in a latitude (`false`: a longitude).
pub open spec fn degree_width(lat: bool) -> int {
    if lat {
        2
    } else {
        3
    }
}

/// The coordinate at fields `i` (number) and `j` (hemisphere) can be read
/// without cutting a character: its degrees end at a character boundary.
pub open spec fn coord_readable(ps: Seq<Seq<u8>>, i: int, j: int, lat: bool) -> bool {
    i < ps.len() && j < ps.len() && ps[i].len() >= degree_width(lat) + 2 ==> at_boundary(
        ps[i],
        degree_width(lat),
    )
}

/// The error that reading the coordinate at fields `i` and `j` gives, if any.
pub open spec fn coord_error(ps: Seq<Seq<u8>>, i: int, j: int, lat: bool) -> Option<ErrorKind> {
    let w = degree_width(lat);
    if i >= ps.len() || j >= ps.len() {
        None
    } else if ps[i].len() < w + 2 {
        Some(ErrorKind::InvalidField)
    } else if !is_f64_literal(ps[i].take(w)) || !is_f64_literal(ps[i].skip(w)) {
        Some(ErrorKind::InvalidFloat)
    } else {
        let up = uppercase(decode_utf8(ps[j]));
        if (lat && (up == "N"@ || up == "S"@)) || (!lat && (up == "E"@ || up == "W"@)) {
            None
        } else {
            Some(ErrorKind::UnknownHemisphere)
        }
    }
}

/// `o` is the coordinate that fields `i` and `j` give, when they give no
/// error: nothing when a field is missing.
pub open spec fn coord_rel(
    ps: Seq<Seq<u8>>,
    i: int,
    j: int,
    lat: bool,
    o: Option<SplitCoordinate>,
) -> bool {
    let w = degree_width(lat);
    if i >= ps.len() || j >= ps.len() {
        o is None
    } else {
        let up = uppercase(decode_utf8(ps[j]));
        o matches Some(c) && c.degrees@ == ps[i].take(w) && c.minutes@ == ps[i].skip(w)
            && c.negative == (if lat {
            up == "S"@
        } else {
            up == "W"@
        })
    }
}

/// The time field `i` can be read without a panic, when it is there.
pub open spec fn utc_field_readable(ps: Seq<Seq<u8>>, i: int) -> bool {
    i < ps.len() ==> utc_readable(ps[i])
}

/// The error that reading the time field `i` gives, if any.
pub open spec fn utc_error(ps: Seq<Seq<u8>>, i: int) -> Option<ErrorKind> {
    if i >= ps.len() {
        None
    } else {
        match utc_fields(ps[i]) {
            Err(k) => Some(k),
            Ok(_) => None,
        }
    }
}

/// `o` is the time that field `i` gives, when it gives no error.
/// The date is the current one, which only the clock knows.
pub open spec fn utc_rel(ps: Seq<Seq<u8>>, i: int, o: Option<UtcDateTime>) -> bool {
    if i >= ps.len() {
        o is None
    } else {
        match utc_fields(ps[i]) {
            Ok(x) => o matches Some(dt) && dt.time == NmeaParser::time_of(x) && dt.date.valid(),
            Err(_) => false,
        }
    }
}

/// `r` is an error of kind `k`.
pub open spec fn fails_as<T>(r: Result<T, ParseError>, k: ErrorKind) -> bool {
    r matches Err(e) && e.kind == k
}

/// Field `i` holds a text that is no value of `T`.
pub open spec fn prim_error<T: FromField>(ps: Seq<Seq<u8>>, i: int) -> bool {
    i < ps.len() && ps[i].len() > 0 && T::field_rel(ps[i], None)
}

/// `o` is what field `i` gives, when it gives no error: nothing when it is
/// missing or empty.
pub open spec fn prim_rel<T: FromField>(ps: Seq<Seq<u8>>, i: int, o: Option<T>) -> bool {
    if i >= ps.len() || ps[i].len() == 0 {
        o is None
    } else {
        o matches Some(v) && T::field_rel(ps[i], Some(v))
    }
}

proof fn lemma_texts(parts: Seq<&str>, i: int)
    requires
        0 <= i < parts.len(),
    ensures
        texts(parts)[i] == sbytes(parts[i]),
        decode_utf8(texts(parts)[i]) == parts[i]@,
{
}

/// Whether the coordinate at fields `i` and `j` can be read.
fn coord_readable_exec(parts: &[&str], i: usize, j: usize, lat: bool) -> (r: bool)
    ensures
        r == coord_readable(texts(parts@), i as int, j as int, lat),
{
    if i >= parts.len() || j >= parts.len() {
        return true;
    }
    proof {
        lemma_texts(parts@, i as int);
    }
    let n = parts[i].as_bytes();
    let w: usize = if lat {
        2
    } else {
        3
    };
    if n.len() < w + 2 {
        return true;
    }
    n[w] < 128 || n[w] >= 192
}

/// Whether the time field `i` can be read.
fn utc_field_readable_exec(parts: &[&str], i: usize) -> (r: bool)
    ensures
        r == utc_field_readable(texts(parts@), i as int),
{
    if i >= parts.len() {
        return true;
    }
    proof {
        lemma_texts(parts@, i as int);
    }
    utc_readable_exec(parts[i])
}

/// Reads a coordinate with the helper for its kind.
fn read_coord(parts: &[&str], i: usize, j: usize, lat: bool) -> (r: Result<
    Option<SplitCoordinate>,
    ParseError,
>)
    requires
        coord_readable(texts(parts@), i as int, j as int, lat),
    ensures
        match coord_error(texts(parts@), i as int, j as int, lat) {
            Some(k) => r matches Err(e) && e.kind == k,
            None => r matches Ok(o) && coord_rel(texts(parts@), i as int, j as int, lat, o),
        },
{
    proof {
        if i < parts@.len() {
            lemma_texts(parts@, i as int);
        }
        if j < parts@.len() {
            lemma_texts(parts@, j as int);
        }
    }
    if lat {
        NmeaParser::parse_latitude(parts, i, j)
    } else {
        NmeaParser::parse_longitude(parts, i, j)
    }
}

/// Reads a time field.
fn read_utc(parts: &[&str], i: usize) -> (r: Result<Option<UtcDateTime>, ParseError>)
    requires
        utc_field_readable(texts(parts@), i as int),
    ensures
        match utc_error(texts(parts@), i as int) {
            Some(k) => r matches Err(e) && e.kind == k,
            None => r matches Ok(o) && utc_rel(texts(parts@), i as int, o),
        },
{
    proof {
        if i < parts@.len() {
            lemma_texts(parts@, i as int);
        }
    }
    NmeaParser::parse_utc(parts, i)
}

/// Reads a field as a `T`.
fn read_prim<T: FromField>(parts: &[&str], i: usize) -> (r: Result<Option<T>, ParseError>)
    ensures
        prim_error::<T>(texts(parts@), i as int) ==> (r matches Err(e) && e.kind
            == ErrorKind::InvalidField),
        !prim_error::<T>(texts(parts@), i as int) ==> (r matches Ok(o) && prim_rel(
            texts(parts@),
            i as int,
            o,
        )),
{
    proof {
        if i < parts@.len() {
            lemma_texts(parts@, i as int);
        }
    }
    let r = NmeaParser::parse_primitive(parts, i);
    proof {
        if r is Ok && r->Ok_0 is Some {
            T::lemma_value_or_nothing(texts(parts@)[i as int], r->Ok_0->Some_0);
        }
    }
    r
}

/// The satellite IDs in fields `i` to `end - 1` that are given, in order.
pub open spec fn id_values(ps: Seq<Seq<u8>>, i: int, end: int) -> Seq<u8>
    decreases end - i,
{
    if i >= end {
        Seq::empty()
    } else {
        let here: Seq<u8> = if i < ps.len() && ps[i].len() > 0 {
            match int_from_str(ps[i], false, 0, 255) {
                Some(v) => seq![v as u8],
                None => Seq::empty(),
            }
        } else {
            Seq::empty()
        };
        here + id_values(ps, i + 1, end)
    }
}

/// Reads the satellite IDs in fields 3 to 14, none of which may be text
/// that is no ID.
fn read_ids(parts: &[&str]) -> (r: Vec<u8>)
    requires
        forall|i: int| 3 <= i < 15 ==> !prim_error::<u8>(texts(parts@), i),
    ensures
        r@ == id_values(texts(parts@), 3, 15),
{
    let ghost ps = texts(parts@);
    let mut ids: Vec<u8> = Vec::new();
    let mut i: usize = 3;
    while i < 15
        invariant
            3 <= i <= 15,
            ps == texts(parts@),
            forall|j: int| 3 <= j < 15 ==> !prim_error::<u8>(ps, j),
            id_values(ps, 3, 15) == ids@ + id_values(ps, i as int, 15),
        decreases 15 - i,
    {
        let ghost before = ids@;
        let o: Option<u8> = match read_prim(parts, i) {
            Ok(o) => o,
            Err(_) => {
                proof {
                    assert(false);
                }
                None
            },
        };
        match o {
            Some(v) => ids.push(v),
            None => {},
        }
        proof {
            assert(before + (id_values(ps, i as int, i + 1) + id_values(ps, i + 1, 15)) =~= ids@
                + id_values(ps, i + 1, 15)) by {
                assert(id_values(ps, i + 1, i + 1) =~= Seq::<u8>::empty());
            }
        }
        i = i + 1;
    }
    assert(ids@ + Seq::<u8>::empty() =~= ids@);
    ids
}

/// DHV: velocity, read field by field.
#[derive(Debug, Clone)]
pub struct Dhv {
    pub navigation_system: NavigationSystem,
    /// Whether [`NmeaParser::is_valid`] holds of the sentence
    pub is_valid: bool,
    /// UTC time of the fix
    pub utc_time: Option<UtcDateTime>,
    /// 3D speed (meters/second)
    pub speed3d: Option<FloatLiteral>,
    /// Speed in X direction (meters/second)
    pub speed_x: Option<FloatLiteral>,
    /// Speed in Y direction (meters/second)
    pub speed_y: Option<FloatLiteral>,
    /// Speed in Z direction (meters/second)
    pub speed_z: Option<FloatLiteral>,
    /// Ground speed (meters/second)
    pub gdspd: Option<FloatLiteral>,
}

impl Dhv {
    /// The sentence `b` can be read without a panic: its time field can be
    /// cut where it is read.
    pub open spec fn readable(b: Seq<u8>) -> bool {
        utc_field_readable(fields_of(b), 1)
    }

    /// What reading the sentence `b` field by field gives: the time, then the
    /// five speeds; the first field that fails gives the error.
    pub open spec fn spec_parse(b: Seq<u8>, ns: NavigationSystem, r: Result<Dhv, ParseError>) -> bool {
        let ps = fields_of(b);
        match utc_error(ps, 1) {
            Some(k) => fails_as(r, k),
            None => if prim_error::<FloatLiteral>(ps, 2) || prim_error::<FloatLiteral>(ps, 3)
                || prim_error::<FloatLiteral>(ps, 4) || prim_error::<FloatLiteral>(ps, 5)
                || prim_error::<FloatLiteral>(ps, 6) {
                fails_as(r, ErrorKind::InvalidField)
            } else {
                &&& r matches Ok(d)
                &&& d.navigation_system == ns
                &&& d.is_valid == NmeaParser::spec_is_valid(b)
                &&& utc_rel(ps, 1, d.utc_time)
                &&& prim_rel(ps, 2, d.speed3d)
                &&& prim_rel(ps, 3, d.speed_x)
                &&& prim_rel(ps, 4, d.speed_y)
                &&& prim_rel(ps, 5, d.speed_z)
                &&& prim_rel(ps, 6, d.gdspd)
            },
        }
    }

    /// Whether the sentence can be read without a panic, as
    /// [`Dhv::readable`] says.
    pub fn can_parse(sentence: &str) -> (r: bool)
        ensures
            r == Self::readable(sbytes(sentence)),
    {
        let parts = get_sentence_parts(sentence);
        let ps = parts.as_slice();
        assert(texts(ps@) == fields_of(sbytes(sentence)));
        utc_field_readable_exec(ps, 1)
    }

    /// Reads the sentence's fields by their positions.
    pub fn parse_sentence(sentence: &str, navigation_system: NavigationSystem) -> (r: Result<
        Self,
        ParseError,
    >)
        requires
            Self::readable(sbytes(sentence)),
        ensures
            Self::spec_parse(sbytes(sentence), navigation_system, r),
    {
        let parts = get_sentence_parts(sentence);
        let ps = parts.as_slice();
        assert(texts(ps@) == fields_of(sbytes(sentence)));
        let is_valid = NmeaParser::is_valid(sentence);
        let utc_time = read_utc(ps, 1)?;
        let speed3d: Option<FloatLiteral> = read_prim(ps, 2)?;
        let speed_x: Option<FloatLiteral> = read_prim(ps, 3)?;
        let speed_y: Option<FloatLiteral> = read_prim(ps, 4)?;
        let speed_z: Option<FloatLiteral> = read_prim(ps, 5)?;
        let gdspd: Option<FloatLiteral> = read_prim(ps, 6)?;
        Ok(Dhv { navigation_system, is_valid, utc_time, speed3d, speed_x, speed_y, speed_z, gdspd })
    }
}

/// GLL: geographic position, read field by field.
#[derive(Debug, Clone)]
pub struct Gll {
    pub navigation_system: NavigationSystem,
    /// Whether [`NmeaParser::is_valid`] holds of the sentence
    pub is_valid: bool,
    /// Latitude
    pub lat: Option<SplitCoordinate>,
    /// Longitude
    pub lon: Option<SplitCoordinate>,
    /// UTC time of the position
    pub utc_time: Option<UtcDateTime>,
    /// Whether the data is valid
    pub data_valid: Option<GllDataValid>,
    /// FAA mode
    pub faa_mode: Option<FaaMode>,
}

impl Gll {
    /// The sentence `b` can be read without a panic: the degrees of each
    /// coordinate that is reached end at a character boundary, and the time
    /// field, when it is reached, can be cut where it is read.
    pub open spec fn readable(b: Seq<u8>) -> bool {
        let ps = fields_of(b);
        &&& coord_readable(ps, 1, 2, true)
        &&& coord_error(ps, 1, 2, true) is None ==> coord_readable(ps, 3, 4, false)
        &&& coord_error(ps, 1, 2, true) is None && coord_error(ps, 3, 4, false) is None
            ==> utc_field_readable(ps, 5)
    }

    /// What reading the sentence `b` field by field gives: the latitude, the
    /// longitude, the time, the status and the mode; the first field that
    /// fails gives the error.
    pub open spec fn spec_parse(b: Seq<u8>, ns: NavigationSystem, r: Result<Gll, ParseError>) -> bool {
        let ps = fields_of(b);
        if coord_error(ps, 1, 2, true) is Some {
            fails_as(r, coord_error(ps, 1, 2, true).unwrap())
        } else if coord_error(ps, 3, 4, false) is Some {
            fails_as(r, coord_error(ps, 3, 4, false).unwrap())
        } else if utc_error(ps, 5) is Some {
            fails_as(r, utc_error(ps, 5).unwrap())
        } else if prim_error::<GllDataValid>(ps, 6) || prim_error::<FaaMode>(ps, 7) {
            fails_as(r, ErrorKind::InvalidField)
        } else {
            &&& r matches Ok(d)
            &&& d.navigation_system == ns
            &&& d.is_valid == NmeaParser::spec_is_valid(b)
            &&& coord_rel(ps, 1, 2, true, d.lat)
            &&& coord_rel(ps, 3, 4, false, d.lon)
            &&& utc_rel(ps, 5, d.utc_time)
            &&& prim_rel(ps, 6, d.data_valid)
            &&& prim_rel(ps, 7, d.faa_mode)
        }
    }

    /// Whether the sentence can be read without a panic, as
    /// [`Gll::readable`] says.
    pub fn can_parse(sentence: &str) -> (r: bool)
        ensures
            r == Self::readable(sbytes(sentence)),
    {
        let parts = get_sentence_parts(sentence);
        let ps = parts.as_slice();
        assert(texts(ps@) == fields_of(sbytes(sentence)));
        if !coord_readable_exec(ps, 1, 2, true) {
            return false;
        }
        if read_coord(ps, 1, 2, true).is_err() {
            return true;
        }
        if !coord_readable_exec(ps, 3, 4, false) {
            return false;
        }
        if read_coord(ps, 3, 4, false).is_err() {
            return true;
        }
        utc_field_readable_exec(ps, 5)
    }

    /// Reads the sentence's fields by their positions.
    pub fn parse_sentence(sentence: &str, navigation_system: NavigationSystem) -> (r: Result<
        Self,
        ParseError,
    >)
        requires
            Self::readable(sbytes(sentence)),
        ensures
            Self::spec_parse(sbytes(sentence), navigation_system, r),
    {
        let parts = get_sentence_parts(sentence);
        let ps = parts.as_slice();
        assert(texts(ps@) == fields_of(sbytes(sentence)));
        let is_valid = NmeaParser::is_valid(sentence);
        let lat = read_coord(ps, 1, 2, true)?;
        let lon = read_coord(ps, 3, 4, false)?;
        let utc_time = read_utc(ps, 5)?;
        let data_valid: Option<GllDataValid> = read_prim(ps, 6)?;
        let faa_mode: Option<FaaMode> = read_prim(ps, 7)?;
        Ok(Gll { navigation_system, is_valid, lat, lon, utc_time, data_valid, faa_mode })
    }
}

/// VTG: track made good and ground speed, read field by field.
#[derive(Debug, Clone)]
pub struct Vtg {
    pub navigation_system: NavigationSystem,
    /// Whether [`NmeaParser::is_valid`] holds of the sentence
    pub is_valid: bool,
    /// Course over ground (true)
    pub course_over_ground_true: Option<FloatLiteral>,
    /// Course over ground (magnetic)
    pub course_over_ground_magnetic: Option<FloatLiteral>,
    /// Speed over ground (knots)
    pub speed_over_ground_knots: Option<FloatLiteral>,
    /// Speed over ground (kph)
    pub speed_over_ground_kph: Option<FloatLiteral>,
    /// Mode
    pub mode: Option<FaaMode>,
}

impl Vtg {
    /// What reading the sentence `b` field by field gives: the two courses,
    /// the two speeds and the mode, passing over the unit letters; the first
    /// field that fails gives the error.
    pub open spec fn spec_parse(b: Seq<u8>, ns: NavigationSystem, r: Result<Vtg, ParseError>) -> bool {
        let ps = fields_of(b);
        if prim_error::<FloatLiteral>(ps, 1) || prim_error::<FloatLiteral>(ps, 3)
            || prim_error::<FloatLiteral>(ps, 5) || prim_error::<FloatLiteral>(ps, 7)
            || prim_error::<FaaMode>(ps, 9) {
            fails_as(r, ErrorKind::InvalidField)
        } else {
            &&& r matches Ok(d)
            &&& d.navigation_system == ns
            &&& d.is_valid == NmeaParser::spec_is_valid(b)
            &&& prim_rel(ps, 1, d.course_over_ground_true)
            &&& prim_rel(ps, 3, d.course_over_ground_magnetic)
            &&& prim_rel(ps, 5, d.speed_over_ground_knots)
            &&& prim_rel(ps, 7, d.speed_over_ground_kph)
            &&& prim_rel(ps, 9, d.mode)
        }
    }

    /// Reads the sentence's fields by their positions.
    pub fn parse_sentense(sentence: &str, navigation_system: NavigationSystem) -> (r: Result<
        Self,
        ParseError,
    >)
        ensures
            Self::spec_parse(sbytes(sentence), navigation_system, r),
    {
        let parts = get_sentence_parts(sentence);
        let ps = parts.as_slice();
        assert(texts(ps@) == fields_of(sbytes(sentence)));
        let is_valid = NmeaParser::is_valid(sentence);
        let course_over_ground_true: Option<FloatLiteral> = read_prim(ps, 1)?;
        let course_over_ground_magnetic: Option<FloatLiteral> = read_prim(ps, 3)?;
        let speed_over_ground_knots: Option<FloatLiteral> = read_prim(ps, 5)?;
        let speed_over_ground_kph: Option<FloatLiteral> = read_prim(ps, 7)?;
        let mode: Option<FaaMode> = read_prim(ps, 9)?;
        Ok(
            Vtg {
                navigation_system,
                is_valid,
                course_over_ground_true,
                course_over_ground_magnetic,
                speed_over_ground_knots,
                speed_over_ground_kph,
                mode,
            },
        )
    }
}

/// ZDA: time and date, read field by field.
#[derive(Debug, Clone)]
pub struct Zda {
    pub navigation_system: NavigationSystem,
    /// Whether [`NmeaParser::is_valid`] holds of the sentence
    pub is_valid: bool,
    /// UTC time
    pub utc_time: Option<UtcDateTime>,
    /// Day
    pub day: Option<u8>,
    /// Month
    pub month: Option<u8>,
    /// Year
    pub year: Option<u16>,
    /// Local zone hours
    pub local_zone_description: Option<i8>,
    /// Local zone minutes
    pub local_zone_minutes_description: Option<u8>,
}

impl Zda {
    /// The sentence `b` can be read without a panic: its time field can be
    /// cut where it is read.
    pub open spec fn readable(b: Seq<u8>) -> bool {
        utc_field_readable(fields_of(b), 1)
    }

    /// What reading the sentence `b` field by field gives: the time, the
    /// date and the zone; the first field that fails gives the error.
    pub open spec fn spec_parse(b: Seq<u8>, ns: NavigationSystem, r: Result<Zda, ParseError>) -> bool {
        let ps = fields_of(b);
        match utc_error(ps, 1) {
            Some(k) => fails_as(r, k),
            None => if prim_error::<u8>(ps, 2) || prim_error::<u8>(ps, 3) || prim_error::<u16>(ps, 4)
                || prim_error::<i8>(ps, 5) || prim_error::<u8>(ps, 6) {
                fails_as(r, ErrorKind::InvalidField)
            } else {
                &&& r matches Ok(d)
                &&& d.navigation_system == ns
                &&& d.is_valid == NmeaParser::spec_is_valid(b)
                &&& utc_rel(ps, 1, d.utc_time)
                &&& prim_rel(ps, 2, d.day)
                &&& prim_rel(ps, 3, d.month)
                &&& prim_rel(ps, 4, d.year)
                &&& prim_rel(ps, 5, d.local_zone_description)
                &&& prim_rel(ps, 6, d.local_zone_minutes_description)
            },
        }
    }

    /// Whether the sentence can be read without a panic, as
    /// [`Zda::readable`] says.
    pub fn can_parse(sentence: &str) -> (r: bool)
        ensures
            r == Self::readable(sbytes(sentence)),
    {
        let parts = get_sentence_parts(sentence);
        let ps = parts.as_slice();
        assert(texts(ps@) == fields_of(sbytes(sentence)));
        utc_field_readable_exec(ps, 1)
    }

    /// Reads the sentence's fields by their positions.
    pub fn parse_sentense(sentence: &str, navigation_system: NavigationSystem) -> (r: Result<
        Self,
        ParseError,
    >)
        requires
            Self::readable(sbytes(sentence)),
        ensures
            Self::spec_parse(sbytes(sentence), navigation_system, r),
    {
        let parts = get_sentence_parts(sentence);
        let ps = parts.as_slice();
        assert(texts(ps@) == fields_of(sbytes(sentence)));
        let is_valid = NmeaParser::is_valid(sentence);
        let utc_time = read_utc(ps, 1)?;
        let day: Option<u8> = read_prim(ps, 2)?;
        let month: Option<u8> = read_prim(ps, 3)?;
        let year: Option<u16> = read_prim(ps, 4)?;
        let local_zone_description: Option<i8> = read_prim(ps, 5)?;
        let local_zone_minutes_description: Option<u8> = read_prim(ps, 6)?;
        Ok(
            Zda {
                navigation_system,
                is_valid,
                utc_time,
                day,
                month,
                year,
                local_zone_description,
                local_zone_minutes_description,
            },
        )
    }
}

/// GSA: the satellites used in the fix and the dilution of precision, read
/// field by field.
#[derive(Debug, Clone)]
pub struct Gsa {
    pub navigation_system: NavigationSystem,
    /// Whether [`NmeaParser::is_valid`] holds of the sentence
    pub is_valid: bool,
    /// Selection mode
    pub selection_mode: Option<GsaSelectionMode>,
    /// Kind of fix
    pub mode: Option<GsaMode>,
    /// The IDs in fields 3 to 14 that are given
    pub satellite_ids: Vec<u8>,
    /// Position dilution of precision
    pub pdop: Option<FloatLiteral>,
    /// Horizontal dilution of precision
    pub hdop: Option<FloatLiteral>,
    /// Vertical dilution of precision
    pub vdop: Option<FloatLiteral>,
    /// GNSS system
    pub system_id: Option<SystemId>,
}

impl Gsa {
    /// The sentence `b` can be read without a panic: when both modes read,
    /// each of the satellite ID fields 3 to 14 is missing, empty or a number
    /// from 0 to 255.
    pub open spec fn readable(b: Seq<u8>) -> bool {
        let ps = fields_of(b);
        !prim_error::<GsaSelectionMode>(ps, 1) && !prim_error::<GsaMode>(ps, 2) ==> forall|i: int|
            3 <= i < 15 ==> !prim_error::<u8>(ps, i)
    }

    /// What reading the sentence `b` field by field gives: the two modes, the
    /// satellite IDs, the three dilutions of precision and the system; the
    /// first field that fails gives the error.
    pub open spec fn spec_parse(b: Seq<u8>, ns: NavigationSystem, r: Result<Gsa, ParseError>) -> bool {
        let ps = fields_of(b);
        if prim_error::<GsaSelectionMode>(ps, 1) || prim_error::<GsaMode>(ps, 2)
            || prim_error::<FloatLiteral>(ps, 15) || prim_error::<FloatLiteral>(ps, 16)
            || prim_error::<FloatLiteral>(ps, 17) || prim_error::<SystemId>(ps, 18) {
            fails_as(r, ErrorKind::InvalidField)
        } else {
            &&& r matches Ok(d)
            &&& d.navigation_system == ns
            &&& d.is_valid == NmeaParser::spec_is_valid(b)
            &&& prim_rel(ps, 1, d.selection_mode)
            &&& prim_rel(ps, 2, d.mode)
            &&& d.satellite_ids@ == id_values(ps, 3, 15)
            &&& prim_rel(ps, 15, d.pdop)
            &&& prim_rel(ps, 16, d.hdop)
            &&& prim_rel(ps, 17, d.vdop)
            &&& prim_rel(ps, 18, d.system_id)
        }
    }

    /// Whether the sentence can be read without a panic, as
    /// [`Gsa::readable`] says.
    pub fn can_parse(sentence: &str) -> (r: bool)
        ensures
            r == Self::readable(sbytes(sentence)),
    {
        let parts = get_sentence_parts(sentence);
        let ps = parts.as_slice();
        assert(texts(ps@) == fields_of(sbytes(sentence)));
        if read_prim::<GsaSelectionMode>(ps, 1).is_err() {
            return true;
        }
        if read_prim::<GsaMode>(ps, 2).is_err() {
            return true;
        }
        let mut k: usize = 3;
        while k < 15
            invariant
                3 <= k <= 15,
                texts(ps@) == fields_of(sbytes(sentence)),
                !prim_error::<GsaSelectionMode>(texts(ps@), 1),
                !prim_error::<GsaMode>(texts(ps@), 2),
                forall|i: int| 3 <= i < k ==> !prim_error::<u8>(texts(ps@), i),
            decreases 15 - k,
        {
            if read_prim::<u8>(ps, k).is_err() {
                assert(prim_error::<u8>(texts(ps@), k as int));
                return false;
            }
            k = k + 1;
        }
        true
    }

    /// Reads the sentence's fields by their positions.
    pub fn parse_sentense(sentence: &str, navigation_system: NavigationSystem) -> (r: Result<
        Self,
        ParseError,
    >)
        requires
            Self::readable(sbytes(sentence)),
        ensures
            Self::spec_parse(sbytes(sentence), navigation_system, r),
    {
        let parts = get_sentence_parts(sentence);
        let ps = parts.as_slice();
        assert(texts(ps@) == fields_of(sbytes(sentence)));
        let is_valid = NmeaParser::is_valid(sentence);
        let selection_mode: Option<GsaSelectionMode> = read_prim(ps, 1)?;
        let mode: Option<GsaMode> = read_prim(ps, 2)?;
        let satellite_ids = read_ids(ps);
        let pdop: Option<FloatLiteral> = read_prim(ps, 15)?;
        let hdop: Option<FloatLiteral> = read_prim(ps, 16)?;
        let vdop: Option<FloatLiteral> = read_prim(ps, 17)?;
        let system_id: Option<SystemId> = read_prim(ps, 18)?;
        Ok(
            Gsa {
                navigation_system,
                is_valid,
                selection_mode,
                mode,
                satellite_ids,
                pdop,
                hdop,
                vdop,
                system_id,
            },
        )
    }
}

/// GGA: fix data, read field by field.
#[derive(Debug, Clone)]
pub struct Gga {
    pub navigation_system: NavigationSystem,
    /// Whether [`NmeaParser::is_valid`] holds of the sentence
    pub is_valid: bool,
    /// UTC time of the fix
    pub utc_time: Option<UtcDateTime>,
    /// Latitude
    pub lat: Option<SplitCoordinate>,
    /// Longitude
    pub lon: Option<SplitCoordinate>,
    /// GPS quality indicator
    pub quality: Option<GgaQualityIndicator>,
    /// Horizontal dilution of precision
    pub hdop: Option<FloatLiteral>,
    /// Antenna altitude above mean sea level (meters)
    pub altitude: Option<FloatLiteral>,
    /// Geoidal separation (meters)
    pub geoid_separation: Option<FloatLiteral>,
    /// Age of differential GPS data (seconds)
    pub age_of_differential_gps_data: Option<FloatLiteral>,
    /// Differential reference station ID
    pub differential_reference_station_id: Option<u16>,
}

impl Gga {
    /// The sentence `b` can be read without a panic: its time field can be
    /// cut where it is read, and the degrees of each coordinate that is
    /// reached end at a character boundary.
    pub open spec fn readable(b: Seq<u8>) -> bool {
        let ps = fields_of(b);
        &&& utc_field_readable(ps, 1)
        &&& utc_error(ps, 1) is None ==> coord_readable(ps, 2, 3, true)
        &&& utc_error(ps, 1) is None && coord_error(ps, 2, 3, true) is None ==> coord_readable(
            ps,
            4,
            5,
            false,
        )
    }

    /// What reading the sentence `b` field by field gives, each field at its
    /// place in a GGA sentence: the time (1), the latitude (2, 3), the
    /// longitude (4, 5), the quality (6), the dilution (8), the altitude (9),
    /// the geoidal separation (11), the age of the differential data (13) and
    /// the station (14); the first field that fails gives the error.
    pub open spec fn spec_parse(b: Seq<u8>, ns: NavigationSystem, r: Result<Gga, ParseError>) -> bool {
        let ps = fields_of(b);
        if utc_error(ps, 1) is Some {
            fails_as(r, utc_error(ps, 1).unwrap())
        } else if coord_error(ps, 2, 3, true) is Some {
            fails_as(r, coord_error(ps, 2, 3, true).unwrap())
        } else if coord_error(ps, 4, 5, false) is Some {
            fails_as(r, coord_error(ps, 4, 5, false).unwrap())
        } else if prim_error::<GgaQualityIndicator>(ps, 6) || prim_error::<FloatLiteral>(ps, 8)
            || prim_error::<FloatLiteral>(ps, 9) || prim_error::<FloatLiteral>(ps, 11)
            || prim_error::<FloatLiteral>(ps, 13) || prim_error::<u16>(ps, 14) {
            fails_as(r, ErrorKind::InvalidField)
        } else {
            &&& r matches Ok(d)
            &&& d.navigation_system == ns
            &&& d.is_valid == NmeaParser::spec_is_valid(b)
            &&& utc_rel(ps, 1, d.utc_time)
            &&& coord_rel(ps, 2, 3, true, d.lat)
            &&& coord_rel(ps, 4, 5, false, d.lon)
            &&& prim_rel(ps, 6, d.quality)
            &&& prim_rel(ps, 8, d.hdop)
            &&& prim_rel(ps, 9, d.altitude)
            &&& prim_rel(ps, 11, d.geoid_separation)
            &&& prim_rel(ps, 13, d.age_of_differential_gps_data)
            &&& prim_rel(ps, 14, d.differential_reference_station_id)
        }
    }

    /// Whether the sentence can be read without a panic, as
    /// [`Gga::readable`] says.
    pub fn can_parse(sentence: &str) -> (r: bool)
        ensures
            r == Self::readable(sbytes(sentence)),
    {
        let parts = get_sentence_parts(sentence);
        let ps = parts.as_slice();
        assert(texts(ps@) == fields_of(sbytes(sentence)));
        if !utc_field_readable_exec(ps, 1) {
            return false;
        }
        if read_utc(ps, 1).is_err() {
            return true;
        }
        if !coord_readable_exec(ps, 2, 3, true) {
            return false;
        }
        if read_coord(ps, 2, 3, true).is_err() {
            return true;
        }
        coord_readable_exec(ps, 4, 5, false)
    }
}

/// The navigation system that bytes 1 and 2 of the sentence `b` name, when
/// it has six bytes or more.
pub open spec fn named_system(b: Seq<u8>) -> Option<NavigationSystem> {
    if b.len() >= 6 {
        NavigationSystem::spec_from(decode_utf8(b.subrange(1, 3)))
    } else {
        None
    }
}

/// `r` is the error that reading the navigation system of the sentence `b`
/// gives, when it names none.
pub open spec fn system_fails<T>(b: Seq<u8>, r: Result<T, ParseError>) -> bool {
    if b.len() < 6 {
        r matches Err(e) && e.kind == ErrorKind::InvalidSentence && e.message@ == "Invalid sentense: "@
            + decode_utf8(b)
    } else {
        r matches Err(e) && e.kind == ErrorKind::VariantNotFound && e.message@
            == "Matching variant not found"@
    }
}

/// The navigation system can be cut out of the sentence `b`.
pub open spec fn system_readable(b: Seq<u8>) -> bool {
    b.len() >= 6 ==> at_boundary(b, 1) && at_boundary(b, 3)
}

/// Reads a DHV sentence field by field, for the navigation system it names.
pub fn new_dhv(sentence: &str) -> (r: Result<Dhv, ParseError>)
    requires
        system_readable(sbytes(sentence)),
        named_system(sbytes(sentence)) is Some ==> Dhv::readable(sbytes(sentence)),
    ensures
        match named_system(sbytes(sentence)) {
            Some(ns) => Dhv::spec_parse(sbytes(sentence), ns, r),
            None => system_fails(sbytes(sentence), r),
        },
{
    let navigation_system = NmeaParser::get_navigation_system(sentence)?;
    Dhv::parse_sentence(sentence, navigation_system)
}

/// Reads a VTG sentence field by field, for the navigation system it names.
pub fn new_vtg(sentence: &str) -> (r: Result<Vtg, ParseError>)
    requires
        system_readable(sbytes(sentence)),
    ensures
        match named_system(sbytes(sentence)) {
            Some(ns) => Vtg::spec_parse(sbytes(sentence), ns, r),
            None => system_fails(sbytes(sentence), r),
        },
{
    let navigation_system = NmeaParser::get_navigation_system(sentence)?;
    Vtg::parse_sentense(sentence, navigation_system)
}

impl NmeaParser {
    /// Reads a GSA sentence field by field, for the navigation system it
    /// names.
    pub fn new_gsa(sentence: &str) -> (r: Result<Gsa, ParseError>)
        requires
            system_readable(sbytes(sentence)),
            named_system(sbytes(sentence)) is Some ==> Gsa::readable(sbytes(sentence)),
        ensures
            match named_system(sbytes(sentence)) {
                Some(ns) => Gsa::spec_parse(sbytes(sentence), ns, r),
                None => system_fails(sbytes(sentence), r),
            },
    {
        let navigation_system = NmeaParser::get_navigation_system(sentence)?;
        Gsa::parse_sentense(sentence, navigation_system)
    }
}

impl NmeaParser {
    /// Reads a GGA sentence field by field, for the navigation system it
    /// names.
    pub fn new_gga(sentence: &str) -> (r: Result<Gga, ParseError>)
        requires
            system_readable(sbytes(sentence)),
            named_system(sbytes(sentence)) is Some ==> Gga::readable(sbytes(sentence)),
        ensures
            match named_system(sbytes(sentence)) {
                Some(ns) => Gga::spec_parse(sbytes(sentence), ns, r),
                None => system_fails(sbytes(sentence), r),
            },
    {
        let navigation_system = NmeaParser::get_navigation_system(sentence)?;
        let parts = get_sentence_parts(sentence);
        let ps = parts.as_slice();
        assert(texts(ps@) == fields_of(sbytes(sentence)));
        let is_valid = NmeaParser::is_valid(sentence);
        let utc_time = read_utc(ps, 1)?;
        let lat = read_coord(ps, 2, 3, true)?;
        let lon = read_coord(ps, 4, 5, false)?;
        let quality: Option<GgaQualityIndicator> = read_prim(ps, 6)?;
        let hdop: Option<FloatLiteral> = read_prim(ps, 8)?;
        let altitude: Option<FloatLiteral> = read_prim(ps, 9)?;
        let geoid_separation: Option<FloatLiteral> = read_prim(ps, 11)?;
        let age_of_differential_gps_data: Option<FloatLiteral> = read_prim(ps, 13)?;
        let differential_reference_station_id: Option<u16> = read_prim(ps, 14)?;
        Ok(
            Gga {
                navigation_system,
                is_valid,
                utc_time,
                lat,
                lon,
                quality,
                hdop,
                altitude,
                geoid_separation,
                age_of_differential_gps_data,
                differential_reference_station_id,
            },
        )
    }
}

/// A sentence type that is read field by field, for a navigation system.
pub trait INmeaData: Sized {
    /// The sentence `b` can be read without a panic.
    spec fn spec_readable(b: Seq<u8>) -> bool;

    /// What reading the sentence `b` gives, for the navigation system `ns`.
    spec fn spec_parsed(b: Seq<u8>, ns: NavigationSystem, r: Result<Self, ParseError>) -> bool;

    /// Reads the sentence's fields by their positions.
    fn parse_sentence(sentence: &str, navigation_system: NavigationSystem) -> (r: Result<
        Self,
        ParseError,
    >)
        requires
            Self::spec_readable(sbytes(sentence)),
        ensures
            Self::spec_parsed(sbytes(sentence), navigation_system, r),
    ;
}

impl INmeaData for Dhv {
    open spec fn spec_readable(b: Seq<u8>) -> bool {
        Dhv::readable(b)
    }

    open spec fn spec_parsed(b: Seq<u8>, ns: NavigationSystem, r: Result<Self, ParseError>) -> bool {
        Dhv::spec_parse(b, ns, r)
    }

    fn parse_sentence(sentence: &str, navigation_system: NavigationSystem) -> (r: Result<
        Self,
        ParseError,
    >) {
        Dhv::parse_sentence(sentence, navigation_system)
    }
}

impl INmeaData for Gll {
    open spec fn spec_readable(b: Seq<u8>) -> bool {
        Gll::readable(b)
    }

    open spec fn spec_parsed(b: Seq<u8>, ns: NavigationSystem, r: Result<Self, ParseError>) -> bool {
        Gll::spec_parse(b, ns, r)
    }

    fn parse_sentence(sentence: &str, navigation_system: NavigationSystem) -> (r: Result<
        Self,
        ParseError,
    >) {
        Gll::parse_sentence(sentence, navigation_system)
    }
}

impl INmeaData for Gsa {
    open spec fn spec_readable(b: Seq<u8>) -> bool {
        Gsa::readable(b)
    }

    open spec fn spec_parsed(b: Seq<u8>, ns: NavigationSystem, r: Result<Self, ParseError>) -> bool {
        Gsa::spec_parse(b, ns, r)
    }

    fn parse_sentence(sentence: &str, navigation_system: NavigationSystem) -> (r: Result<
        Self,
        ParseError,
    >) {
        Gsa::parse_sentense(sentence, navigation_system)
    }
}

impl INmeaData for Vtg {
    open spec fn spec_readable(b: Seq<u8>) -> bool {
        true
    }

    open spec fn spec_parsed(b: Seq<u8>, ns: NavigationSystem, r: Result<Self, ParseError>) -> bool {
        Vtg::spec_parse(b, ns, r)
    }

    fn parse_sentence(sentence: &str, navigation_system: NavigationSystem) -> (r: Result<
        Self,
        ParseError,
    >) {
        Vtg::parse_sentense(sentence, navigation_system)
    }
}

impl INmeaData for Zda {
    open spec fn spec_readable(b: Seq<u8>) -> bool {
        Zda::readable(b)
    }

    open spec fn spec_parsed(b: Seq<u8>, ns: NavigationSystem, r: Result<Self, ParseError>) -> bool {
        Zda::spec_parse(b, ns, r)
    }

    fn parse_sentence(sentence: &str, navigation_system: NavigationSystem) -> (r: Result<
        Self,
        ParseError,
    >) {
        Zda::parse_sentense(sentence, navigation_system)
    }
}

/// A parser that reads a sentence it holds and gives itself back.
pub trait INmeaParser {
    fn parse_sentence(&mut self) -> Result<&mut Self, ParseError>;
}

} // verus!
