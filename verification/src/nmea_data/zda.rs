//! ZDA: time and date, UTC, day, month, year and local time zone.
use vstd::prelude::*;

use crate::data::Talker;
use crate::error::{ErrorKind, ParseError};
use crate::rules::{NmeaUtc, COMMA, STAR};
use crate::str_parser::{
    after_char, after_rule, after_until, fails_with, took, took_parsed, Char, ParseOptExt,
    StrParserContext, Until,
};
use crate::time::UtcDateTime;

verus! {

/// ZDA: time and date, UTC, day, month, year and local time zone.
#[derive(Debug, Clone)]
pub struct Zda {
    pub navigation_system: Talker,
    /// UTC time
    pub utc_time: Option<UtcDateTime>,
    /// Day
    pub day: Option<u8>,
    /// Month
    pub month: Option<u8>,
    /// Year
    pub year: Option<u16>,
    /// Local zone hours
    pub local_zone_description: Option<i8>,
    /// Local zone minutes
    pub local_zone_minutes_description: Option<u8>,
}

impl Zda {
    /// What parsing the sentence `b` from `p` gives: the checksum is checked,
    /// then the time, date and zone are read from the fields after the
    /// sentence's type.
    pub open spec fn spec_new(b: Seq<u8>, p: int, navigation_system: Talker, r: Result<Zda, ParseError>) -> bool {
        let q1 = after_until(COMMA, b, Some(p));
        let q2 = after_char(',', b, q1);
        let q3 = after_rule(NmeaUtc(), b, q2);
        let q4 = after_char(',', b, q3);
        let q5 = after_rule(Until(COMMA), b, q4);
        let q6 = after_char(',', b, q5);
        let q7 = after_rule(Until(COMMA), b, q6);
        let q8 = after_char(',', b, q7);
        let q9 = after_rule(Until(COMMA), b, q8);
        let q10 = after_char(',', b, q9);
        let q11 = after_rule(Until(COMMA), b, q10);
        let q12 = after_char(',', b, q11);
        let q13 = after_rule(Until(STAR), b, q12);
        if q13 is None {
            fails_with(r, ErrorKind::TakeFailed)
        } else {
            &&& r matches Ok(d)
            &&& d.navigation_system == navigation_system
            &&& took(NmeaUtc(), b, q2.unwrap(), d.utc_time)
            &&& took_parsed(COMMA, b, q4.unwrap(), d.day)
            &&& took_parsed(COMMA, b, q6.unwrap(), d.month)
            &&& took_parsed(COMMA, b, q8.unwrap(), d.year)
            &&& took_parsed(COMMA, b, q10.unwrap(), d.local_zone_description)
            &&& took_parsed(STAR, b, q12.unwrap(), d.local_zone_minutes_description)
        }
    }

    /// Parses a ZDA sentence.
    pub fn new(ctx: &mut StrParserContext, navigation_system: Talker) -> (r: Result<Self, ParseError>)
        ensures
            Self::spec_new(old(ctx).full_bytes(), old(ctx).pos(), navigation_system, r),
            final(ctx).full_bytes() == old(ctx).full_bytes(),
    {
        ctx.skip_strict(&Until(COMMA))?;
        ctx.skip_strict(&Char(','))?;
        let utc_time = ctx.take(&NmeaUtc());
        ctx.skip_strict(&Char(','))?;
        let day = ctx.take(&Until(COMMA)).parse_opt();
        ctx.skip_strict(&Char(','))?;
        let month = ctx.take(&Until(COMMA)).parse_opt();
        ctx.skip_strict(&Char(','))?;
        let year = ctx.take(&Until(COMMA)).parse_opt();
        ctx.skip_strict(&Char(','))?;
        let local_zone_description = ctx.take(&Until(COMMA)).parse_opt();
        ctx.skip_strict(&Char(','))?;
        let local_zone_minutes_description = ctx.take(&Until(STAR)).parse_opt();
        Ok(Zda { navigation_system, utc_time, day, month, year, local_zone_description, local_zone_minutes_description })
    }
}

} // verus!
