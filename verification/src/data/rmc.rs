//! RMC: recommended minimum navigation information.
use vstd::prelude::*;

use crate::data::{FaaMode, Status, Talker};
use crate::error::{ErrorKind, ParseError};
use crate::number::FloatLiteral;
use crate::rules::{
    checksum_check, trimmed, NmeaCoord, NmeaDate, NmeaDegree, NmeaUtc, NmeaValidate,
    PackedCoordinate, SignedDegrees, COMMA, STAR,
};
use crate::str_parser::{
    after_char, after_rule, after_until, fails_with, took, took_parsed, Char, ParseOptExt,
    StrParserContext, Until,
};
use crate::time::{Date, UtcDateTime};

verus! {

/// RMC: recommended minimum navigation information.
#[derive(Debug, Clone)]
pub struct Rmc {
    pub talker: Talker,
    /// UTC time of the position fix
    pub utc_time: Option<UtcDateTime>,
    /// Status
    pub status: Option<Status>,
    /// Latitude
    pub latitude: Option<PackedCoordinate>,
    /// Longitude
    pub longitude: Option<PackedCoordinate>,
    /// Speed over ground
    pub speed_over_ground: Option<FloatLiteral>,
    /// Track made good
    pub track_made_good: Option<FloatLiteral>,
    /// Date
    pub date: Option<Date>,
    /// Magnetic variation
    pub magnetic_variation: Option<SignedDegrees>,
    /// FAA mode
    pub faa_mode: Option<FaaMode>,
}

impl Rmc {
    /// What parsing the sentence `b` from `p` gives: the checksum is checked,
    /// then time, status, position, motion, date and variation are read from
    /// the fields after the sentence's type.
    pub open spec fn spec_new(b: Seq<u8>, p: int, talker: Talker, r: Result<Rmc, ParseError>) -> bool {
        let q1 = after_until(COMMA, b, Some(p));
        let q2 = after_char(',', b, q1);
        let q3 = after_rule(NmeaUtc(), b, q2);
        let q4 = after_char(',', b, q3);
        let q5 = after_rule(Until(COMMA), b, q4);
        let q6 = after_char(',', b, q5);
        let q7 = after_rule(NmeaCoord(), b, q6);
        let q8 = after_char(',', b, q7);
        let q9 = after_rule(NmeaCoord(), b, q8);
        let q10 = after_char(',', b, q9);
        let q11 = after_rule(Until(COMMA), b, q10);
        let q12 = after_char(',', b, q11);
        let q13 = after_rule(Until(COMMA), b, q12);
        let q14 = after_char(',', b, q13);
        let q15 = after_rule(NmeaDate(), b, q14);
        let q16 = after_char(',', b, q15);
        let q17 = after_rule(NmeaDegree(), b, q16);
        let q18 = after_char(',', b, q17);
        let q19 = after_rule(Until(STAR), b, q18);
        match checksum_check(trimmed(b)) {
            Err(k) => fails_with(r, k),
            Ok(_) => if q19 is None {
                fails_with(r, ErrorKind::TakeFailed)
            } else {
                &&& r matches Ok(d)
                &&& d.talker == talker
                &&& took(NmeaUtc(), b, q2.unwrap(), d.utc_time)
                &&& took_parsed(COMMA, b, q4.unwrap(), d.status)
                &&& took(NmeaCoord(), b, q6.unwrap(), d.latitude)
                &&& took(NmeaCoord(), b, q8.unwrap(), d.longitude)
                &&& took_parsed(COMMA, b, q10.unwrap(), d.speed_over_ground)
                &&& took_parsed(COMMA, b, q12.unwrap(), d.track_made_good)
                &&& took(NmeaDate(), b, q14.unwrap(), d.date)
                &&& took(NmeaDegree(), b, q16.unwrap(), d.magnetic_variation)
                &&& took_parsed(STAR, b, q18.unwrap(), d.faa_mode)
            },
        }
    }

    /// Parses a RMC sentence.
    pub fn new(ctx: &mut StrParserContext, talker: Talker) -> (r: Result<Self, ParseError>)
        ensures
            Self::spec_new(old(ctx).full_bytes(), old(ctx).pos(), talker, r),
            final(ctx).full_bytes() == old(ctx).full_bytes(),
            checksum_check(trimmed(old(ctx).full_bytes())) is Err ==> final(ctx).pos() == old(
                ctx,
            ).pos(),
    {
        ctx.global(&NmeaValidate())?;
        ctx.skip_strict(&Until(COMMA))?;
        ctx.skip_strict(&Char(','))?;
        let utc_time = ctx.take(&NmeaUtc());
        ctx.skip_strict(&Char(','))?;
        let status = ctx.take(&Until(COMMA)).parse_opt();
        ctx.skip_strict(&Char(','))?;
        let latitude = ctx.take(&NmeaCoord());
        ctx.skip_strict(&Char(','))?;
        let longitude = ctx.take(&NmeaCoord());
        ctx.skip_strict(&Char(','))?;
        let speed_over_ground = ctx.take(&Until(COMMA)).parse_opt();
        ctx.skip_strict(&Char(','))?;
        let track_made_good = ctx.take(&Until(COMMA)).parse_opt();
        ctx.skip_strict(&Char(','))?;
        let date = ctx.take(&NmeaDate());
        ctx.skip_strict(&Char(','))?;
        let magnetic_variation = ctx.take(&NmeaDegree());
        ctx.skip_strict(&Char(','))?;
        let faa_mode = ctx.take(&Until(STAR)).parse_opt();
        Ok(Rmc { talker, utc_time, status, latitude, longitude, speed_over_ground, track_made_good, date, magnetic_variation, faa_mode })
    }
}

} // verus!
