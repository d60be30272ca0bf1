//! VTG: track made good and ground speed.
use vstd::prelude::*;

use crate::data::{FaaMode, Talker};
use crate::error::{ErrorKind, ParseError};
use crate::number::FloatLiteral;
use crate::rules::{checksum_check, trimmed, NmeaValidate, COMMA, STAR};
use crate::str_parser::{
    after_char, after_rule, after_until, fails_with, took_parsed, Char, ParseOptExt,
    StrParserContext, Until,
};

verus! {

/// VTG: track made good and ground speed.
#[derive(Debug, Clone)]
pub struct Vtg {
    pub talker: Talker,
    /// Course over ground (true)
    pub course_over_ground_true: Option<FloatLiteral>,
    /// Course over ground (magnetic)
    pub course_over_ground_magnetic: Option<FloatLiteral>,
    /// Speed over ground (knots)
    pub speed_over_ground_knots: Option<FloatLiteral>,
    /// Speed over ground (kph)
    pub speed_over_ground_kph: Option<FloatLiteral>,
    /// Mode
    pub mode: Option<FaaMode>,
}

impl Vtg {
    /// What parsing the sentence `b` from `p` gives: the checksum is checked,
    /// then the courses, speeds and mode are read from the fields after the
    /// sentence's type, passing over the unit letters.
    pub open spec fn spec_new(b: Seq<u8>, p: int, talker: Talker, r: Result<Vtg, ParseError>) -> bool {
        let q1 = after_until(COMMA, b, Some(p));
        let q2 = after_char(',', b, q1);
        let q3 = after_rule(Until(COMMA), b, q2);
        let q4 = after_char(',', b, q3);
        let q5 = after_rule(Char('T'), b, q4);
        let q6 = after_char(',', b, q5);
        let q7 = after_rule(Until(COMMA), b, q6);
        let q8 = after_char(',', b, q7);
        let q9 = after_rule(Char('M'), b, q8);
        let q10 = after_char(',', b, q9);
        let q11 = after_rule(Until(COMMA), b, q10);
        let q12 = after_char(',', b, q11);
        let q13 = after_rule(Char('N'), b, q12);
        let q14 = after_char(',', b, q13);
        let q15 = after_rule(Until(COMMA), b, q14);
        let q16 = after_char(',', b, q15);
        let q17 = after_rule(Char('K'), b, q16);
        let q18 = after_char(',', b, q17);
        let q19 = after_rule(Until(STAR), b, q18);
        match checksum_check(trimmed(b)) {
            Err(k) => fails_with(r, k),
            Ok(_) => if q19 is None {
                fails_with(r, ErrorKind::TakeFailed)
            } else {
                &&& r matches Ok(d)
                &&& d.talker == talker
                &&& took_parsed(COMMA, b, q2.unwrap(), d.course_over_ground_true)
                &&& took_parsed(COMMA, b, q6.unwrap(), d.course_over_ground_magnetic)
                &&& took_parsed(COMMA, b, q10.unwrap(), d.speed_over_ground_knots)
                &&& took_parsed(COMMA, b, q14.unwrap(), d.speed_over_ground_kph)
                &&& took_parsed(STAR, b, q18.unwrap(), d.mode)
            },
        }
    }

    /// Parses a VTG sentence.
    pub fn new(ctx: &mut StrParserContext, talker: Talker) -> (r: Result<Self, ParseError>)
        ensures
            Self::spec_new(old(ctx).full_bytes(), old(ctx).pos(), talker, r),
            final(ctx).full_bytes() == old(ctx).full_bytes(),
            checksum_check(trimmed(old(ctx).full_bytes())) is Err ==> final(ctx).pos() == old(
                ctx,
            ).pos(),
    {
        ctx.global(&NmeaValidate())?;
        ctx.skip_strict(&Until(COMMA))?;
        ctx.skip_strict(&Char(','))?;
        let course_over_ground_true = ctx.take(&Until(COMMA)).parse_opt();
        ctx.skip_strict(&Char(','))?;
        ctx.skip(&Char('T'));
        ctx.skip_strict(&Char(','))?;
        let course_over_ground_magnetic = ctx.take(&Until(COMMA)).parse_opt();
        ctx.skip_strict(&Char(','))?;
        ctx.skip(&Char('M'));
        ctx.skip_strict(&Char(','))?;
        let speed_over_ground_knots = ctx.take(&Until(COMMA)).parse_opt();
        ctx.skip_strict(&Char(','))?;
        ctx.skip(&Char('N'));
        ctx.skip_strict(&Char(','))?;
        let speed_over_ground_kph = ctx.take(&Until(COMMA)).parse_opt();
        ctx.skip_strict(&Char(','))?;
        ctx.skip(&Char('K'));
        ctx.skip_strict(&Char(','))?;
        let mode = ctx.take(&Until(STAR)).parse_opt();
        Ok(Vtg { talker, course_over_ground_true, course_over_ground_magnetic, speed_over_ground_knots, speed_over_ground_kph, mode })
    }
}

} // verus!
