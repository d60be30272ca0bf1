//! DHV: velocity.
use vstd::prelude::*;

use crate::data::Talker;
use crate::error::{ErrorKind, ParseError};
use crate::number::FloatLiteral;
use crate::rules::{NmeaUtc, COMMA, STAR};
use crate::str_parser::{
    after_char, after_rule, after_until, fails_with, took, took_parsed, Char, ParseOptExt,
    StrParserContext, Until,
};
use crate::time::UtcDateTime;

verus! {

/// DHV: velocity.
#[derive(Debug, Clone)]
pub struct Dhv {
    pub navigation_system: Talker,
    /// UTC time of the fix
    pub utc_time: Option<UtcDateTime>,
    /// 3D speed (meters/second)
    pub speed3d: Option<FloatLiteral>,
    /// Speed in X direction (meters/second)
    pub speed_x: Option<FloatLiteral>,
    /// Speed in Y direction (meters/second)
    pub speed_y: Option<FloatLiteral>,
    /// Speed in Z direction (meters/second)
    pub speed_z: Option<FloatLiteral>,
    /// Ground speed (meters/second)
    pub gdspd: Option<FloatLiteral>,
}

impl Dhv {
    /// What parsing the sentence `b` from `p` gives: the time and five speeds
    /// are read from the fields after the sentence's type; the checksum is not
    /// checked.
    pub open spec fn spec_new(b: Seq<u8>, p: int, navigation_system: Talker, r: Result<Dhv, ParseError>) -> bool {
        let q1 = after_until(COMMA, b, Some(p));
        let q2 = after_char(',', b, q1);
        let q3 = after_rule(NmeaUtc(), b, q2);
        let q4 = after_char(',', b, q3);
        let q5 = after_rule(Until(COMMA), b, q4);
        let q6 = after_char(',', b, q5);
        let q7 = after_rule(Until(COMMA), b, q6);
        let q8 = after_char(',', b, q7);
        let q9 = after_rule(Until(COMMA), b, q8);
        let q10 = after_char(',', b, q9);
        let q11 = after_rule(Until(COMMA), b, q10);
        let q12 = after_char(',', b, q11);
        let q13 = after_rule(Until(STAR), b, q12);
        if q13 is None {
            fails_with(r, ErrorKind::TakeFailed)
        } else {
            &&& r matches Ok(d)
            &&& d.navigation_system == navigation_system
            &&& took(NmeaUtc(), b, q2.unwrap(), d.utc_time)
            &&& took_parsed(COMMA, b, q4.unwrap(), d.speed3d)
            &&& took_parsed(COMMA, b, q6.unwrap(), d.speed_x)
            &&& took_parsed(COMMA, b, q8.unwrap(), d.speed_y)
            &&& took_parsed(COMMA, b, q10.unwrap(), d.speed_z)
            &&& took_parsed(STAR, b, q12.unwrap(), d.gdspd)
        }
    }

    /// Parses a DHV sentence.
    pub fn new(ctx: &mut StrParserContext, navigation_system: Talker) -> (r: Result<Self, ParseError>)
        ensures
            Self::spec_new(old(ctx).full_bytes(), old(ctx).pos(), navigation_system, r),
            final(ctx).full_bytes() == old(ctx).full_bytes(),
    {
        ctx.skip_strict(&Until(COMMA))?;
        ctx.skip_strict(&Char(','))?;
        let utc_time = ctx.take(&NmeaUtc());
        ctx.skip_strict(&Char(','))?;
        let speed3d = ctx.take(&Until(COMMA)).parse_opt();
        ctx.skip_strict(&Char(','))?;
        let speed_x = ctx.take(&Until(COMMA)).parse_opt();
        ctx.skip_strict(&Char(','))?;
        let speed_y = ctx.take(&Until(COMMA)).parse_opt();
        ctx.skip_strict(&Char(','))?;
        let speed_z = ctx.take(&Until(COMMA)).parse_opt();
        ctx.skip_strict(&Char(','))?;
        let gdspd = ctx.take(&Until(STAR)).parse_opt();
        Ok(Dhv { navigation_system, utc_time, speed3d, speed_x, speed_y, speed_z, gdspd })
    }
}

} // verus!
