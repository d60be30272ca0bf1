//! GBS: GPS satellite fault detection.
use vstd::prelude::*;

use crate::data::Talker;
use crate::error::{ErrorKind, ParseError};
use crate::number::FloatLiteral;
use crate::rules::{NmeaUtc, COMMA, STAR};
use crate::str_parser::{
    after_char, after_rule, after_until, fails_with, took, took_parsed, Char, ParseOptExt,
    StrParserContext, Until,
};
use crate::time::UtcDateTime;

verus! {

/// GBS: GPS satellite fault detection.
#[derive(Debug, Clone)]
pub struct Gbs {
    pub talker: Talker,
    /// UTC time of the GGA or GNS fix associated with this sentence.
    pub utc_time: Option<UtcDateTime>,
    /// Expected 1-sigma error in latitude (meters)
    pub latitude_error: Option<FloatLiteral>,
    /// Expected 1-sigma error in longitude (meters)
    pub longitude_error: Option<FloatLiteral>,
    /// Expected 1-sigma error in altitude (meters)
    pub altitude_error: Option<FloatLiteral>,
    /// ID of most likely failed satellite (1 to 138)
    pub likely_failed_satellite_id: Option<u16>,
    /// Probability of missed detection for most likely failed satellite
    pub missed_detection_probability: Option<FloatLiteral>,
    /// Estimate of bias in meters on most likely failed satellite
    pub bias_estimate: Option<FloatLiteral>,
    /// Standard deviation of bias estimate
    pub std_dev: Option<FloatLiteral>,
}

impl Gbs {
    /// What parsing the sentence `b` from `p` gives: the time and the error
    /// estimates are read from the fields after the sentence's type; the
    /// checksum is not checked.
    pub open spec fn spec_new(b: Seq<u8>, p: int, talker: Talker, r: Result<Gbs, ParseError>) -> bool {
        let q1 = after_until(COMMA, b, Some(p));
        let q2 = after_char(',', b, q1);
        let q3 = after_rule(NmeaUtc(), b, q2);
        let q4 = after_char(',', b, q3);
        let q5 = after_rule(Until(COMMA), b, q4);
        let q6 = after_char(',', b, q5);
        let q7 = after_rule(Until(COMMA), b, q6);
        let q8 = after_char(',', b, q7);
        let q9 = after_rule(Until(COMMA), b, q8);
        let q10 = after_char(',', b, q9);
        let q11 = after_rule(Until(COMMA), b, q10);
        let q12 = after_char(',', b, q11);
        let q13 = after_rule(Until(COMMA), b, q12);
        let q14 = after_char(',', b, q13);
        let q15 = after_rule(Until(COMMA), b, q14);
        let q16 = after_rule(Char(','), b, q15);
        let q17 = after_rule(Until(STAR), b, q16);
        if q17 is None {
            fails_with(r, ErrorKind::TakeFailed)
        } else {
            &&& r matches Ok(d)
            &&& d.talker == talker
            &&& took(NmeaUtc(), b, q2.unwrap(), d.utc_time)
            &&& took_parsed(COMMA, b, q4.unwrap(), d.latitude_error)
            &&& took_parsed(COMMA, b, q6.unwrap(), d.longitude_error)
            &&& took_parsed(COMMA, b, q8.unwrap(), d.altitude_error)
            &&& took_parsed(COMMA, b, q10.unwrap(), d.likely_failed_satellite_id)
            &&& took_parsed(COMMA, b, q12.unwrap(), d.missed_detection_probability)
            &&& took_parsed(COMMA, b, q14.unwrap(), d.bias_estimate)
            &&& took_parsed(STAR, b, q16.unwrap(), d.std_dev)
        }
    }

    /// Parses a GBS sentence.
    pub fn new(ctx: &mut StrParserContext, talker: Talker) -> (r: Result<Self, ParseError>)
        ensures
            Self::spec_new(old(ctx).full_bytes(), old(ctx).pos(), talker, r),
            final(ctx).full_bytes() == old(ctx).full_bytes(),
    {
        ctx.skip_strict(&Until(COMMA))?;
        ctx.skip_strict(&Char(','))?;
        let utc_time = ctx.take(&NmeaUtc());
        ctx.skip_strict(&Char(','))?;
        let latitude_error = ctx.take(&Until(COMMA)).parse_opt();
        ctx.skip_strict(&Char(','))?;
        let longitude_error = ctx.take(&Until(COMMA)).parse_opt();
        ctx.skip_strict(&Char(','))?;
        let altitude_error = ctx.take(&Until(COMMA)).parse_opt();
        ctx.skip_strict(&Char(','))?;
        let likely_failed_satellite_id = ctx.take(&Until(COMMA)).parse_opt();
        ctx.skip_strict(&Char(','))?;
        let missed_detection_probability = ctx.take(&Until(COMMA)).parse_opt();
        ctx.skip_strict(&Char(','))?;
        let bias_estimate = ctx.take(&Until(COMMA)).parse_opt();
        ctx.skip(&Char(','));
        let std_dev = ctx.take(&Until(STAR)).parse_opt();
        Ok(Gbs { talker, utc_time, latitude_error, longitude_error, altitude_error, likely_failed_satellite_id, missed_detection_probability, bias_estimate, std_dev })
    }
}

} // verus!
