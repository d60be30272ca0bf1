//! GLL: geographic position, latitude and longitude.
use vstd::prelude::*;

use crate::data::{FaaMode, Status, Talker};
use crate::error::{ErrorKind, ParseError};
use crate::rules::{
    checksum_check, trimmed, NmeaCoord, NmeaUtc, NmeaValidate, PackedCoordinate, COMMA, STAR,
};
use crate::str_parser::{
    after_char, after_rule, after_until, fails_with, took, took_parsed, Char, ParseOptExt,
    StrParserContext, Until,
};
use crate::time::UtcDateTime;

verus! {

/// GLL: geographic position, latitude and longitude.
#[derive(Debug, Clone)]
pub struct Gll {
    pub talker: Talker,
    /// Latitude
    pub lat: Option<PackedCoordinate>,
    /// Longitude
    pub lon: Option<PackedCoordinate>,
    /// UTC time of the position
    pub utc_time: Option<UtcDateTime>,
    /// Whether the data is valid
    pub data_valid: Option<Status>,
    /// FAA mode
    pub faa_mode: Option<FaaMode>,
}

impl Gll {
    /// What parsing the sentence `b` from `p` gives: the checksum is checked,
    /// then the position, time and status are read from the fields after the
    /// sentence's type.
    pub open spec fn spec_new(b: Seq<u8>, p: int, talker: Talker, r: Result<Gll, ParseError>) -> bool {
        let q1 = after_until(COMMA, b, Some(p));
        let q2 = after_char(',', b, q1);
        let q3 = after_rule(NmeaCoord(), b, q2);
        let q4 = after_char(',', b, q3);
        let q5 = after_rule(NmeaCoord(), b, q4);
        let q6 = after_char(',', b, q5);
        let q7 = after_rule(NmeaUtc(), b, q6);
        let q8 = after_char(',', b, q7);
        let q9 = after_rule(Until(COMMA), b, q8);
        let q10 = after_char(',', b, q9);
        let q11 = after_rule(Until(STAR), b, q10);
        match checksum_check(trimmed(b)) {
            Err(k) => fails_with(r, k),
            Ok(_) => if q11 is None {
                fails_with(r, ErrorKind::TakeFailed)
            } else {
                &&& r matches Ok(d)
                &&& d.talker == talker
                &&& took(NmeaCoord(), b, q2.unwrap(), d.lat)
                &&& took(NmeaCoord(), b, q4.unwrap(), d.lon)
                &&& took(NmeaUtc(), b, q6.unwrap(), d.utc_time)
                &&& took_parsed(COMMA, b, q8.unwrap(), d.data_valid)
                &&& took_parsed(STAR, b, q10.unwrap(), d.faa_mode)
            },
        }
    }

    /// Parses a GLL sentence.
    pub fn new(ctx: &mut StrParserContext, talker: Talker) -> (r: Result<Self, ParseError>)
        ensures
            Self::spec_new(old(ctx).full_bytes(), old(ctx).pos(), talker, r),
            final(ctx).full_bytes() == old(ctx).full_bytes(),
            checksum_check(trimmed(old(ctx).full_bytes())) is Err ==> final(ctx).pos() == old(
                ctx,
            ).pos(),
    {
        ctx.global(&NmeaValidate())?;
        ctx.skip_strict(&Until(COMMA))?;
        ctx.skip_strict(&Char(','))?;
        let lat = ctx.take(&NmeaCoord());
        ctx.skip_strict(&Char(','))?;
        let lon = ctx.take(&NmeaCoord());
        ctx.skip_strict(&Char(','))?;
        let utc_time = ctx.take(&NmeaUtc());
        ctx.skip_strict(&Char(','))?;
        let data_valid = ctx.take(&Until(COMMA)).parse_opt();
        ctx.skip_strict(&Char(','))?;
        let faa_mode = ctx.take(&Until(STAR)).parse_opt();
        Ok(Gll { talker, lat, lon, utc_time, data_valid, faa_mode })
    }
}

} // verus!
