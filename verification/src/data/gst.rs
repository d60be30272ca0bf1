//! GST: pseudorange noise statistics.
use vstd::prelude::*;

use crate::data::Talker;
use crate::error::{ErrorKind, ParseError};
use crate::number::FloatLiteral;
use crate::rules::{checksum_check, trimmed, NmeaUtc, NmeaValidate, COMMA, STAR};
use crate::str_parser::{
    after_char, after_rule, after_until, fails_with, took, took_parsed, Char, ParseOptExt,
    StrParserContext, Until,
};
use crate::time::UtcDateTime;

verus! {

/// GST: pseudorange noise statistics.
#[derive(Debug, Clone)]
pub struct Gst {
    pub talker: Talker,
    /// UTC time of the fix
    pub utc_time: Option<UtcDateTime>,
    /// RMS value of the pseudorange residuals
    pub rms: Option<FloatLiteral>,
    /// Standard deviation of the semi-major axis of the error ellipse
    pub std_dev_semi_major: Option<FloatLiteral>,
    /// Standard deviation of the semi-minor axis of the error ellipse
    pub std_dev_semi_minor: Option<FloatLiteral>,
    /// Standard deviation of latitude error
    pub std_dev_semi_latitude: Option<FloatLiteral>,
    /// Standard deviation of longitude error
    pub std_dev_semi_longitude: Option<FloatLiteral>,
    /// Standard deviation of altitude error
    pub std_dev_semi_altitude: Option<FloatLiteral>,
}

impl Gst {
    /// What parsing the sentence `b` from `p` gives: the checksum is checked,
    /// then the time and statistics are read from the fields after the
    /// sentence's type; the altitude deviation is read from after the `*`.
    pub open spec fn spec_new(b: Seq<u8>, p: int, talker: Talker, r: Result<Gst, ParseError>) -> bool {
        let q1 = after_until(COMMA, b, Some(p));
        let q2 = after_char(',', b, q1);
        let q3 = after_rule(NmeaUtc(), b, q2);
        let q4 = after_char(',', b, q3);
        let q5 = after_rule(Until(COMMA), b, q4);
        let q6 = after_char(',', b, q5);
        let q7 = after_rule(Until(COMMA), b, q6);
        let q8 = after_char(',', b, q7);
        let q9 = after_rule(Until(COMMA), b, q8);
        let q10 = after_char(',', b, q9);
        let q11 = after_rule(Until(COMMA), b, q10);
        let q12 = after_char(',', b, q11);
        let q13 = after_rule(Until(COMMA), b, q12);
        let q14 = after_until(STAR, b, q13);
        let q15 = after_rule(Until(COMMA), b, q14);
        match checksum_check(trimmed(b)) {
            Err(k) => fails_with(r, k),
            Ok(_) => if q15 is None {
                fails_with(r, ErrorKind::TakeFailed)
            } else {
                &&& r matches Ok(d)
                &&& d.talker == talker
                &&& took(NmeaUtc(), b, q2.unwrap(), d.utc_time)
                &&& took_parsed(COMMA, b, q4.unwrap(), d.rms)
                &&& took_parsed(COMMA, b, q6.unwrap(), d.std_dev_semi_major)
                &&& took_parsed(COMMA, b, q8.unwrap(), d.std_dev_semi_minor)
                &&& took_parsed(COMMA, b, q10.unwrap(), d.std_dev_semi_latitude)
                &&& took_parsed(COMMA, b, q12.unwrap(), d.std_dev_semi_longitude)
                &&& took_parsed(COMMA, b, q14.unwrap(), d.std_dev_semi_altitude)
            },
        }
    }

    /// Parses a GST sentence.
    pub fn new(ctx: &mut StrParserContext, talker: Talker) -> (r: Result<Self, ParseError>)
        ensures
            Self::spec_new(old(ctx).full_bytes(), old(ctx).pos(), talker, r),
            final(ctx).full_bytes() == old(ctx).full_bytes(),
            checksum_check(trimmed(old(ctx).full_bytes())) is Err ==> final(ctx).pos() == old(
                ctx,
            ).pos(),
    {
        ctx.global(&NmeaValidate())?;
        ctx.skip_strict(&Until(COMMA))?;
        ctx.skip_strict(&Char(','))?;
        let utc_time = ctx.take(&NmeaUtc());
        ctx.skip_strict(&Char(','))?;
        let rms = ctx.take(&Until(COMMA)).parse_opt();
        ctx.skip_strict(&Char(','))?;
        let std_dev_semi_major = ctx.take(&Until(COMMA)).parse_opt();
        ctx.skip_strict(&Char(','))?;
        let std_dev_semi_minor = ctx.take(&Until(COMMA)).parse_opt();
        ctx.skip_strict(&Char(','))?;
        let std_dev_semi_latitude = ctx.take(&Until(COMMA)).parse_opt();
        ctx.skip_strict(&Char(','))?;
        let std_dev_semi_longitude = ctx.take(&Until(COMMA)).parse_opt();
        ctx.skip_strict(&Until(STAR))?;
        let std_dev_semi_altitude = ctx.take(&Until(COMMA)).parse_opt();
        Ok(Gst { talker, utc_time, rms, std_dev_semi_major, std_dev_semi_minor, std_dev_semi_latitude, std_dev_semi_longitude, std_dev_semi_altitude })
    }
}

} // verus!
