//! GNS: fix data of a multi-constellation receiver.
use vstd::prelude::*;
use vstd::utf8::decode_utf8;

use crate::data::{FaaMode, NavigationStatus, Talker};
use crate::error::{ErrorKind, ParseError};
use crate::number::FloatLiteral;
use crate::rules::{
    checksum_check, trimmed, NmeaCoord, NmeaUtc, NmeaValidate, PackedCoordinate, COMMA, STAR,
};
use crate::str_parser::{
    after_char, after_rule, after_until, end_of, fails_with, field_text, took, took_parsed,
    took_parsed2, Char, ParseOptExt, StrParserContext, Until, UntilEither,
};
use crate::text::{at_boundary, substr};
use crate::time::UtcDateTime;

verus! {

broadcast use vstd::utf8::group_utf8_lib;

/// GNS: fix data of a multi-constellation receiver.
#[derive(Debug, Clone)]
pub struct Gns {
    pub talker: Talker,
    /// UTC time of the position fix
    pub utc_time: Option<UtcDateTime>,
    /// Latitude, ddmm.mmmm, where dd is degrees and mm.mmmm is minutes; south is negative.
    pub latitude: Option<PackedCoordinate>,
    /// Longitude, dddmm.mmmm, where ddd is degrees and mm.mmmm is minutes; west is negative.
    pub longitude: Option<PackedCoordinate>,
    /// FAA mode of the first two constellations
    pub mode: [FaaMode; 2],
    /// Number of satellites in use
    pub satellites: Option<u8>,
    /// Horizontal dilution of precision
    pub hdop: Option<FloatLiteral>,
    /// Altitude
    pub altitude: Option<FloatLiteral>,
    /// Geoidal separation
    pub goeidal_separation: Option<FloatLiteral>,
    /// Differential data age
    pub differential_data_age: Option<FloatLiteral>,
    /// Differential reference station ID
    pub differential_reference_station_id: Option<u16>,
    /// Navigational status
    pub navigational_status: Option<NavigationStatus>,
}

impl Gns {
    /// Where the fields before the mode begin, when the checksum is right and
    /// the separators that must be there are: the time, the latitude, the
    /// longitude and the mode.
    pub open spec fn leading_fields(b: Seq<u8>, p: int) -> Result<(int, int, int, int), ErrorKind> {
        let q1 = after_until(COMMA, b, Some(p));
        let q2 = after_char(',', b, q1);
        let q3 = after_rule(NmeaUtc(), b, q2);
        let q4 = after_char(',', b, q3);
        let q5 = after_rule(NmeaCoord(), b, q4);
        let q6 = after_char(',', b, q5);
        let q7 = after_rule(NmeaCoord(), b, q6);
        let q8 = after_char(',', b, q7);
        match checksum_check(trimmed(b)) {
            Err(k) => Err(k),
            Ok(_) => if q8 is None {
                Err(ErrorKind::TakeFailed)
            } else {
                Ok((q2.unwrap(), q4.unwrap(), q6.unwrap(), q8.unwrap()))
            },
        }
    }

    /// The mode field at `q` holds at least the two characters that are read
    /// from it, each one byte long.
    pub open spec fn mode_readable(b: Seq<u8>, q: int) -> bool {
        field_text(COMMA, b, q) matches Some(t) && t.len() >= 2 && at_boundary(t, 1) && at_boundary(
            t,
            2,
        )
    }

    /// The sentence `b` can be read from `p` without reaching a mode field
    /// that is missing or shorter than two characters.
    pub open spec fn readable(b: Seq<u8>, p: int) -> bool {
        Self::leading_fields(b, p) matches Ok(ps) ==> Self::mode_readable(b, ps.3)
    }

    /// `r` is the error that reading the mode character `c` gives, if any.
    pub open spec fn mode_error(c: Seq<u8>, r: Result<Gns, ParseError>) -> bool {
        r matches Err(e) && e.kind == ErrorKind::UnknownValue && e.message@ == "Unknown FaaMode: "@
            + decode_utf8(c)
    }

    /// What the fields after the mode give, the mode being `m`; `q` is where
    /// the mode field ends.
    pub open spec fn spec_tail(
        b: Seq<u8>,
        q: int,
        talker: Talker,
        ps: (int, int, int, int),
        m: Seq<FaaMode>,
        r: Result<Gns, ParseError>,
    ) -> bool {
        let q10 = after_char(',', b, Some(q));
        let q11 = after_rule(Until(COMMA), b, q10);
        let q12 = after_char(',', b, q11);
        let p14 = end_of(Char(','), b, end_of(Until(COMMA), b, q12.unwrap()));
        let p16 = end_of(Char(','), b, end_of(UntilEither(COMMA, STAR), b, p14));
        let p18 = end_of(Char(','), b, end_of(UntilEither(COMMA, STAR), b, p16));
        let p20 = end_of(Char(','), b, end_of(UntilEither(COMMA, STAR), b, p18));
        let p22 = end_of(Char(','), b, end_of(UntilEither(COMMA, STAR), b, p20));
        if q12 is None {
            fails_with(r, ErrorKind::TakeFailed)
        } else {
            &&& r matches Ok(d)
            &&& d.talker == talker
            &&& took(NmeaUtc(), b, ps.0, d.utc_time)
            &&& took(NmeaCoord(), b, ps.1, d.latitude)
            &&& took(NmeaCoord(), b, ps.2, d.longitude)
            &&& d.mode@ == m
            &&& took_parsed(COMMA, b, q10.unwrap(), d.satellites)
            &&& took_parsed(COMMA, b, q12.unwrap(), d.hdop)
            &&& took_parsed2(COMMA, STAR, b, p14, d.altitude)
            &&& took_parsed2(COMMA, STAR, b, p16, d.goeidal_separation)
            &&& took_parsed2(COMMA, STAR, b, p18, d.differential_data_age)
            &&& took_parsed2(COMMA, STAR, b, p20, d.differential_reference_station_id)
            &&& took_parsed(STAR, b, p22, d.navigational_status)
        }
    }

    /// What parsing the sentence `b` from `p` gives: the checksum is checked,
    /// then the time, the position, the two mode characters and the fix data
    /// are read from the fields after the sentence's type. The fields from the
    /// altitude on may be missing: each ends at the next `,` or `*`.
    pub open spec fn spec_new(b: Seq<u8>, p: int, talker: Talker, r: Result<Gns, ParseError>) -> bool {
        match Self::leading_fields(b, p) {
            Err(k) => fails_with(r, k),
            Ok(ps) => {
                let t = field_text(COMMA, b, ps.3).unwrap();
                let q = end_of(Until(COMMA), b, ps.3);
                match FaaMode::spec_from(t.take(1)) {
                    None => Self::mode_error(t.take(1), r),
                    Some(m0) => match FaaMode::spec_from(t.subrange(1, 2)) {
                        None => Self::mode_error(t.subrange(1, 2), r),
                        Some(m1) => Self::spec_tail(b, q, talker, ps, seq![m0, m1], r),
                    },
                }
            },
        }
    }

    /// Parses a GNS sentence.
    pub fn new(ctx: &mut StrParserContext, talker: Talker) -> (r: Result<Self, ParseError>)
        requires
            Self::readable(old(ctx).full_bytes(), old(ctx).pos()),
        ensures
            Self::spec_new(old(ctx).full_bytes(), old(ctx).pos(), talker, r),
            final(ctx).full_bytes() == old(ctx).full_bytes(),
            checksum_check(trimmed(old(ctx).full_bytes())) is Err ==> final(ctx).pos() == old(
                ctx,
            ).pos(),
    {
        ctx.global(&NmeaValidate())?;
        ctx.skip_strict(&Until(COMMA))?;
        ctx.skip_strict(&Char(','))?;
        let utc_time = ctx.take(&NmeaUtc());
        ctx.skip_strict(&Char(','))?;
        let latitude = ctx.take(&NmeaCoord());
        ctx.skip_strict(&Char(','))?;
        let longitude = ctx.take(&NmeaCoord());
        ctx.skip_strict(&Char(','))?;
        let mode_str = match ctx.take(&Until(COMMA)) {
            Some(s) => s,
            None => {
                return Err(ParseError::take_failed());
            },
        };
        let m0 = FaaMode::from_str(substr(mode_str, 0, 1))?;
        let m1 = FaaMode::from_str(substr(mode_str, 1, 2))?;
        let mode = [m0, m1];
        ctx.skip_strict(&Char(','))?;
        let satellites = ctx.take(&Until(COMMA)).parse_opt();
        ctx.skip_strict(&Char(','))?;
        let hdop = ctx.take(&Until(COMMA)).parse_opt();
        ctx.skip(&Char(','));
        let altitude = ctx.take(&UntilEither(COMMA, STAR)).parse_opt();
        ctx.skip(&Char(','));
        let goeidal_separation = ctx.take(&UntilEither(COMMA, STAR)).parse_opt();
        ctx.skip(&Char(','));
        let differential_data_age = ctx.take(&UntilEither(COMMA, STAR)).parse_opt();
        ctx.skip(&Char(','));
        let differential_reference_station_id = ctx.take(&UntilEither(COMMA, STAR)).parse_opt();
        ctx.skip(&Char(','));
        let navigational_status = ctx.take(&Until(STAR)).parse_opt();
        assert(mode@ =~= seq![m0, m1]);
        Ok(
            Gns {
                talker,
                utc_time,
                latitude,
                longitude,
                mode,
                satellites,
                hdop,
                altitude,
                goeidal_separation,
                differential_data_age,
                differential_reference_station_id,
                navigational_status,
            },
        )
    }
}

} // verus!
