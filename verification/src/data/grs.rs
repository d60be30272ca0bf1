//! GRS: range residuals of the satellites used in the fix.
use vstd::prelude::*;

use crate::data::{GrsResidualMode, SystemId, Talker};
use crate::error::{ErrorKind, ParseError};
use crate::number::{is_f64_literal, FloatLiteral};
use crate::rules::{checksum_check, trimmed, NmeaUtc, NmeaValidate, COMMA, STAR};
use crate::str_parser::{
    after_char, after_rule, after_until, char_at, end_of, fails_with, field_text, took,
    took_parsed, Char, ParseOptExt, StrParserContext, Until,
};
use crate::time::UtcDateTime;

verus! {

/// GRS: range residuals of the satellites used in the fix.
#[derive(Debug, Clone)]
pub struct Grs {
    pub talker: Talker,
    /// UTC time of the fix the residuals belong to
    pub utc_time: Option<UtcDateTime>,
    /// How the residuals were computed
    pub grs_residual_mode: Option<GrsResidualMode>,
    /// The residuals that are given, in the order of their fields (meters)
    pub satellite_residuals: Vec<FloatLiteral>,
    /// GNSS system
    pub system_id: Option<SystemId>,
    /// GNSS signal
    pub signal_id: Option<u16>,
}

/// The texts of a list of numbers.
pub open spec fn literal_texts(v: Seq<FloatLiteral>) -> Seq<Seq<u8>> {
    v.map_values(|f: FloatLiteral| f@)
}

impl Grs {
    /// Reading `k` residual fields from `p`, each after a `,`: where the
    /// cursor ends and the texts of those fields that hold a number, in
    /// order; `None` when a `,` is missing.
    pub open spec fn residuals(b: Seq<u8>, p: int, k: nat) -> Option<(int, Seq<Seq<u8>>)>
        decreases k,
    {
        if k == 0 {
            Some((p, Seq::empty()))
        } else {
            match char_at(',', b, p) {
                None => None,
                Some(q) => {
                    let here: Seq<Seq<u8>> = match field_text(COMMA, b, q) {
                        Some(t) => if is_f64_literal(t) {
                            seq![t]
                        } else {
                            Seq::empty()
                        },
                        None => Seq::empty(),
                    };
                    match Self::residuals(b, end_of(Until(COMMA), b, q), (k - 1) as nat) {
                        None => None,
                        Some(rest) => Some((rest.0, here + rest.1)),
                    }
                },
            }
        }
    }

    /// Reads the twelve residual fields.
    fn read_residuals(ctx: &mut StrParserContext) -> (r: Result<Vec<FloatLiteral>, ParseError>)
        ensures
            final(ctx).full_bytes() == old(ctx).full_bytes(),
            match Self::residuals(old(ctx).full_bytes(), old(ctx).pos(), 12) {
                None => fails_with(r, ErrorKind::TakeFailed),
                Some(res) => r matches Ok(v) && literal_texts(v@) == res.1 && final(ctx).pos()
                    == res.0,
            },
    {
        let ghost b = ctx.full_bytes();
        let ghost p0 = ctx.pos();
        let mut residuals: Vec<FloatLiteral> = Vec::new();
        let mut i: usize = 0;
        while i < 12
            invariant
                i <= 12,
                ctx.full_bytes() == b,
                b == old(ctx).full_bytes(),
                p0 == old(ctx).pos(),
                Self::residuals(b, p0, 12) == match Self::residuals(
                    b,
                    ctx.pos(),
                    (12 - i) as nat,
                ) {
                    None => None,
                    Some(rest) => Some((rest.0, literal_texts(residuals@) + rest.1)),
                },
            decreases 12 - i,
        {
            ctx.skip_strict(&Char(','))?;
            let ghost q = ctx.pos();
            let ghost before = residuals@;
            let v: Option<FloatLiteral> = ctx.take(&Until(COMMA)).parse_opt();
            match v {
                Some(f) => residuals.push(f),
                None => {},
            }
            proof {
                let here: Seq<Seq<u8>> = match field_text(COMMA, b, q) {
                    Some(t) => if is_f64_literal(t) {
                        seq![t]
                    } else {
                        Seq::empty()
                    },
                    None => Seq::empty(),
                };
                assert(literal_texts(residuals@) =~= literal_texts(before) + here);
                match Self::residuals(b, ctx.pos(), (12 - i - 1) as nat) {
                    None => {},
                    Some(rest) => {
                        assert(literal_texts(before) + (here + rest.1) =~= literal_texts(
                            residuals@,
                        ) + rest.1);
                    },
                }
            }
            i = i + 1;
        }
        assert(literal_texts(residuals@) + Seq::<Seq<u8>>::empty() =~= literal_texts(residuals@));
        Ok(residuals)
    }

    /// A run of `k` fields keeps at most `k` values.
    pub proof fn lemma_residuals_len(b: Seq<u8>, p: int, k: nat)
        ensures
            Self::residuals(b, p, k) matches Some(x) ==> x.1.len() <= k,
        decreases k,
    {
        if k > 0 {
            if let Some(q) = char_at(',', b, p) {
                Self::lemma_residuals_len(b, end_of(Until(COMMA), b, q), (k - 1) as nat);
            }
        }
    }

    /// What parsing the sentence `b` from `p` gives: the checksum is checked,
    /// then the time, the mode, the twelve residual fields (of which those
    /// that hold a number are kept), the system and the signal are read from
    /// the fields after the sentence's type.
    pub open spec fn spec_new(b: Seq<u8>, p: int, talker: Talker, r: Result<Grs, ParseError>) -> bool {
        let q1 = after_until(COMMA, b, Some(p));
        let q2 = after_char(',', b, q1);
        let q3 = after_rule(NmeaUtc(), b, q2);
        let q4 = after_char(',', b, q3);
        let q5 = after_rule(Until(COMMA), b, q4);
        let res = match q5 {
            Some(x) => Self::residuals(b, x, 12),
            None => None,
        };
        let q6 = after_char(',', b, match res {
            Some(x) => Some(x.0),
            None => None,
        });
        let q7 = after_rule(Until(COMMA), b, q6);
        let q8 = after_rule(Char(','), b, q7);
        match checksum_check(trimmed(b)) {
            Err(k) => fails_with(r, k),
            Ok(_) => if q8 is None {
                fails_with(r, ErrorKind::TakeFailed)
            } else {
                &&& r matches Ok(d)
                &&& d.talker == talker
                &&& took(NmeaUtc(), b, q2.unwrap(), d.utc_time)
                &&& took_parsed(COMMA, b, q4.unwrap(), d.grs_residual_mode)
                &&& literal_texts(d.satellite_residuals@) == res.unwrap().1
                &&& took_parsed(COMMA, b, q6.unwrap(), d.system_id)
                &&& took_parsed(STAR, b, q8.unwrap(), d.signal_id)
            },
        }
    }

    /// Parses a GRS sentence.
    pub fn new(ctx: &mut StrParserContext, talker: Talker) -> (r: Result<Self, ParseError>)
        ensures
            Self::spec_new(old(ctx).full_bytes(), old(ctx).pos(), talker, r),
            final(ctx).full_bytes() == old(ctx).full_bytes(),
            checksum_check(trimmed(old(ctx).full_bytes())) is Err ==> final(ctx).pos() == old(
                ctx,
            ).pos(),
    {
        ctx.global(&NmeaValidate())?;
        ctx.skip_strict(&Until(COMMA))?;
        ctx.skip_strict(&Char(','))?;
        let utc_time = ctx.take(&NmeaUtc());
        ctx.skip_strict(&Char(','))?;
        let grs_residual_mode = ctx.take(&Until(COMMA)).parse_opt();
        let satellite_residuals = Self::read_residuals(ctx)?;
        ctx.skip_strict(&Char(','))?;
        let system_id = ctx.take(&Until(COMMA)).parse_opt();
        ctx.skip(&Char(','));
        let signal_id = ctx.take(&Until(STAR)).parse_opt();
        Ok(Grs { talker, utc_time, grs_residual_mode, satellite_residuals, system_id, signal_id })
    }
}

impl Grs {
    /// A GRS sentence that parses keeps at most twelve residuals.
    pub proof fn law_at_most_twelve(b: Seq<u8>, p: int, talker: Talker, d: Grs)
        requires
            Self::spec_new(b, p, talker, Ok(d)),
        ensures
            d.satellite_residuals@.len() <= 12,
    {
        let q4 = after_char(',', b, after_rule(NmeaUtc(), b, after_char(',', b, after_until(COMMA, b, Some(p)))));
        Self::lemma_residuals_len(b, after_rule(Until(COMMA), b, q4)->Some_0, 12);
    }
}

} // verus!
