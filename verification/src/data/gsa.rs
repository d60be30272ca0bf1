//! GSA: the satellites used in the fix and the dilution of precision.
use vstd::prelude::*;

use crate::data::{GsaMode, GsaSelectionMode, SystemId, Talker};
use crate::error::{ErrorKind, ParseError};
use crate::number::{int_from_str, FloatLiteral};
use crate::rules::{checksum_check, trimmed, NmeaValidate, COMMA, STAR};
use crate::str_parser::{
    after_char, after_rule, after_until, char_at, end_of, fails_with, field_text, took_parsed,
    Char, ParseOptExt, StrParserContext, Until,
};

verus! {

/// GSA: the satellites used in the fix and the dilution of precision.
#[derive(Debug, Clone)]
pub struct Gsa {
    pub talker: Talker,
    /// Whether the receiver chooses between 2D and 3D by itself
    pub selection_mode: Option<GsaSelectionMode>,
    /// Kind of fix
    pub mode: Option<GsaMode>,
    /// The IDs of the satellites used in the fix that are given, in the order of their fields
    pub satellite_ids: Vec<u8>,
    /// Position dilution of precision
    pub pdop: Option<FloatLiteral>,
    /// Horizontal dilution of precision
    pub hdop: Option<FloatLiteral>,
    /// Vertical dilution of precision
    pub vdop: Option<FloatLiteral>,
    /// GNSS system
    pub system_id: Option<SystemId>,
}

impl Gsa {
    /// Reading `k` satellite ID fields from `p`, each after a `,`: where the
    /// cursor ends and the IDs of those fields that hold a number from 0 to
    /// 255, in order; `None` when a `,` is missing.
    pub open spec fn sat_ids(b: Seq<u8>, p: int, k: nat) -> Option<(int, Seq<u8>)>
        decreases k,
    {
        if k == 0 {
            Some((p, Seq::empty()))
        } else {
            match char_at(',', b, p) {
                None => None,
                Some(q) => {
                    let here: Seq<u8> = match field_text(COMMA, b, q) {
                        Some(t) => match int_from_str(t, false, 0, 255) {
                            Some(v) => seq![v as u8],
                            None => Seq::empty(),
                        },
                        None => Seq::empty(),
                    };
                    match Self::sat_ids(b, end_of(Until(COMMA), b, q), (k - 1) as nat) {
                        None => None,
                        Some(rest) => Some((rest.0, here + rest.1)),
                    }
                },
            }
        }
    }

    /// Reads the twelve satellite ID fields.
    fn read_ids(ctx: &mut StrParserContext) -> (r: Result<Vec<u8>, ParseError>)
        ensures
            final(ctx).full_bytes() == old(ctx).full_bytes(),
            match Self::sat_ids(old(ctx).full_bytes(), old(ctx).pos(), 12) {
                None => fails_with(r, ErrorKind::TakeFailed),
                Some(res) => r matches Ok(v) && v@ == res.1 && final(ctx).pos()
                    == res.0,
            },
    {
        let ghost b = ctx.full_bytes();
        let ghost p0 = ctx.pos();
        let mut ids: Vec<u8> = Vec::new();
        let mut i: usize = 0;
        while i < 12
            invariant
                i <= 12,
                ctx.full_bytes() == b,
                b == old(ctx).full_bytes(),
                p0 == old(ctx).pos(),
                Self::sat_ids(b, p0, 12) == match Self::sat_ids(
                    b,
                    ctx.pos(),
                    (12 - i) as nat,
                ) {
                    None => None,
                    Some(rest) => Some((rest.0, ids@ + rest.1)),
                },
            decreases 12 - i,
        {
            ctx.skip_strict(&Char(','))?;
            let ghost q = ctx.pos();
            let ghost before = ids@;
            let v: Option<u8> = ctx.take(&Until(COMMA)).parse_opt();
            match v {
                Some(id) => ids.push(id),
                None => {},
            }
            proof {
                let here: Seq<u8> = match field_text(COMMA, b, q) {
                    Some(t) => match int_from_str(t, false, 0, 255) {
                        Some(v) => seq![v as u8],
                        None => Seq::empty(),
                    },
                    None => Seq::empty(),
                };
                assert(ids@ =~= before + here);
                match Self::sat_ids(b, ctx.pos(), (12 - i - 1) as nat) {
                    None => {},
                    Some(rest) => {
                        assert(before + (here + rest.1) =~= ids@ + rest.1);
                    },
                }
            }
            i = i + 1;
        }
        assert(ids@ + Seq::<u8>::empty() =~= ids@);
        Ok(ids)
    }

    /// A run of `k` fields keeps at most `k` values.
    pub proof fn lemma_sat_ids_len(b: Seq<u8>, p: int, k: nat)
        ensures
            Self::sat_ids(b, p, k) matches Some(x) ==> x.1.len() <= k,
        decreases k,
    {
        if k > 0 {
            if let Some(q) = char_at(',', b, p) {
                Self::lemma_sat_ids_len(b, end_of(Until(COMMA), b, q), (k - 1) as nat);
            }
        }
    }

    /// What parsing the sentence `b` from `p` gives: the checksum is checked,
    /// then the selection mode, the kind of fix, the twelve satellite ID
    /// fields (of which those that hold a number from 0 to 255 are kept), the
    /// three dilutions of precision and the system are read from the fields
    /// after the sentence's type.
    pub open spec fn spec_new(b: Seq<u8>, p: int, talker: Talker, r: Result<Gsa, ParseError>) -> bool {
        let q1 = after_until(COMMA, b, Some(p));
        let q2 = after_char(',', b, q1);
        let q3 = after_rule(Until(COMMA), b, q2);
        let q4 = after_char(',', b, q3);
        let q5 = after_rule(Until(COMMA), b, q4);
        let ids = match q5 {
            Some(x) => Self::sat_ids(b, x, 12),
            None => None,
        };
        let q6 = after_char(',', b, match ids {
            Some(res) => Some(res.0),
            None => None,
        });
        let q7 = after_rule(Until(COMMA), b, q6);
        let q8 = after_char(',', b, q7);
        let q9 = after_rule(Until(COMMA), b, q8);
        let q10 = after_char(',', b, q9);
        let q11 = after_rule(Until(COMMA), b, q10);
        let q12 = after_char(',', b, q11);
        match checksum_check(trimmed(b)) {
            Err(k) => fails_with(r, k),
            Ok(_) => if q12 is None {
                fails_with(r, ErrorKind::TakeFailed)
            } else {
                &&& r matches Ok(d)
                &&& d.talker == talker
                &&& took_parsed(COMMA, b, q2.unwrap(), d.selection_mode)
                &&& took_parsed(COMMA, b, q4.unwrap(), d.mode)
                &&& d.satellite_ids@ == ids.unwrap().1
                &&& took_parsed(COMMA, b, q6.unwrap(), d.pdop)
                &&& took_parsed(COMMA, b, q8.unwrap(), d.hdop)
                &&& took_parsed(COMMA, b, q10.unwrap(), d.vdop)
                &&& took_parsed(STAR, b, q12.unwrap(), d.system_id)
            },
        }
    }

    /// Parses a GSA sentence.
    pub fn new(ctx: &mut StrParserContext, talker: Talker) -> (r: Result<Self, ParseError>)
        ensures
            Self::spec_new(old(ctx).full_bytes(), old(ctx).pos(), talker, r),
            final(ctx).full_bytes() == old(ctx).full_bytes(),
            checksum_check(trimmed(old(ctx).full_bytes())) is Err ==> final(ctx).pos() == old(
                ctx,
            ).pos(),
    {
        ctx.global(&NmeaValidate())?;
        ctx.skip_strict(&Until(COMMA))?;
        ctx.skip_strict(&Char(','))?;
        let selection_mode = ctx.take(&Until(COMMA)).parse_opt();
        ctx.skip_strict(&Char(','))?;
        let mode = ctx.take(&Until(COMMA)).parse_opt();
        let satellite_ids = Self::read_ids(ctx)?;
        ctx.skip_strict(&Char(','))?;
        let pdop = ctx.take(&Until(COMMA)).parse_opt();
        ctx.skip_strict(&Char(','))?;
        let hdop = ctx.take(&Until(COMMA)).parse_opt();
        ctx.skip_strict(&Char(','))?;
        let vdop = ctx.take(&Until(COMMA)).parse_opt();
        ctx.skip_strict(&Char(','))?;
        let system_id = ctx.take(&Until(STAR)).parse_opt();
        Ok(Gsa { talker, selection_mode, mode, satellite_ids, pdop, hdop, vdop, system_id })
    }
}

impl Gsa {
    /// A GSA sentence that parses keeps at most twelve satellite IDs.
    pub proof fn law_at_most_twelve(b: Seq<u8>, p: int, talker: Talker, d: Gsa)
        requires
            Self::spec_new(b, p, talker, Ok(d)),
        ensures
            d.satellite_ids@.len() <= 12,
    {
        let q4 = after_char(',', b, after_rule(Until(COMMA), b, after_char(',', b, after_until(COMMA, b, Some(p)))));
        Self::lemma_sat_ids_len(b, after_rule(Until(COMMA), b, q4)->Some_0, 12);
    }
}

} // verus!
