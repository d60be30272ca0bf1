//! GGA: Global Positioning System fix data (time, position and fix related data).
use vstd::prelude::*;

use crate::data::{GgaQualityIndicator, Talker};
use crate::error::{ErrorKind, ParseError};
use crate::number::FloatLiteral;
use crate::rules::{NmeaCoord, NmeaUtc, PackedCoordinate, COMMA, STAR};
use crate::str_parser::{
    after_char, after_rule, after_until, fails_with, took, took_parsed, Char, ParseOptExt,
    StrParserContext, Until,
};
use crate::time::UtcDateTime;

verus! {

/// GGA: Global Positioning System fix data (time, position and fix related data).
#[derive(Debug, Clone)]
pub struct Gga {
    pub navigation_system: Talker,
    /// UTC of this position report.
    pub utc_time: Option<UtcDateTime>,
    /// Latitude, dd is degrees, mm.mm is minutes
    pub lat: Option<PackedCoordinate>,
    /// Longitude, ddd is degrees, mm.mm is minutes
    pub lon: Option<PackedCoordinate>,
    /// GPS Quality Indicator
    pub quality: Option<GgaQualityIndicator>,
    /// Number of satellites in use, 00 - 12
    pub satellite_count: Option<u8>,
    /// Horizontal Dilution of precision (meters)
    pub hdop: Option<FloatLiteral>,
    /// Antenna Altitude above/below mean-sea-level (geoid) (in meters)
    pub altitude: Option<FloatLiteral>,
    /// Geoidal separation, the difference between the WGS-84 earth ellipsoid and mean-sea-level (geoid), `-` means mean-sea-level below ellipsoid
    pub geoid_separation: Option<FloatLiteral>,
    /// Age of differential GPS data, time in seconds since last SC104 type 1 or 9 update, null field when DGPS is not used
    pub age_of_differential_gps_data: Option<FloatLiteral>,
    /// Differential reference station ID, 0000-1023
    pub differential_reference_station_id: Option<u16>,
}

impl Gga {
    /// What parsing the sentence `b` from `p` gives: the checksum is checked,
    /// then the time, position and fix data are read from the fields after the
    /// sentence's type.
    pub open spec fn spec_new(b: Seq<u8>, p: int, navigation_system: Talker, r: Result<Gga, ParseError>) -> bool {
        let q1 = after_until(COMMA, b, Some(p));
        let q2 = after_char(',', b, q1);
        let q3 = after_rule(NmeaUtc(), b, q2);
        let q4 = after_char(',', b, q3);
        let q5 = after_rule(NmeaCoord(), b, q4);
        let q6 = after_char(',', b, q5);
        let q7 = after_rule(NmeaCoord(), b, q6);
        let q8 = after_char(',', b, q7);
        let q9 = after_rule(Until(COMMA), b, q8);
        let q10 = after_char(',', b, q9);
        let q11 = after_rule(Until(COMMA), b, q10);
        let q12 = after_char(',', b, q11);
        let q13 = after_rule(Until(COMMA), b, q12);
        let q14 = after_char(',', b, q13);
        let q15 = after_rule(Until(COMMA), b, q14);
        let q16 = after_char(',', b, q15);
        let q17 = after_rule(Char('M'), b, q16);
        let q18 = after_char(',', b, q17);
        let q19 = after_rule(Until(COMMA), b, q18);
        let q20 = after_char(',', b, q19);
        let q21 = after_rule(Char('M'), b, q20);
        let q22 = after_char(',', b, q21);
        let q23 = after_rule(Until(COMMA), b, q22);
        let q24 = after_char(',', b, q23);
        let q25 = after_rule(Until(STAR), b, q24);
        if q25 is None {
            fails_with(r, ErrorKind::TakeFailed)
        } else {
            &&& r matches Ok(d)
            &&& d.navigation_system == navigation_system
            &&& took(NmeaUtc(), b, q2.unwrap(), d.utc_time)
            &&& took(NmeaCoord(), b, q4.unwrap(), d.lat)
            &&& took(NmeaCoord(), b, q6.unwrap(), d.lon)
            &&& took_parsed(COMMA, b, q8.unwrap(), d.quality)
            &&& took_parsed(COMMA, b, q10.unwrap(), d.satellite_count)
            &&& took_parsed(COMMA, b, q12.unwrap(), d.hdop)
            &&& took_parsed(COMMA, b, q14.unwrap(), d.altitude)
            &&& took_parsed(COMMA, b, q18.unwrap(), d.geoid_separation)
            &&& took_parsed(COMMA, b, q22.unwrap(), d.age_of_differential_gps_data)
            &&& took_parsed(STAR, b, q24.unwrap(), d.differential_reference_station_id)
        }
    }

    /// Parses a GGA sentence.
    pub fn new(ctx: &mut StrParserContext, navigation_system: Talker) -> (r: Result<Self, ParseError>)
        ensures
            Self::spec_new(old(ctx).full_bytes(), old(ctx).pos(), navigation_system, r),
            final(ctx).full_bytes() == old(ctx).full_bytes(),
    {
        ctx.skip_strict(&Until(COMMA))?;
        ctx.skip_strict(&Char(','))?;
        let utc_time = ctx.take(&NmeaUtc());
        ctx.skip_strict(&Char(','))?;
        let lat = ctx.take(&NmeaCoord());
        ctx.skip_strict(&Char(','))?;
        let lon = ctx.take(&NmeaCoord());
        ctx.skip_strict(&Char(','))?;
        let quality = ctx.take(&Until(COMMA)).parse_opt();
        ctx.skip_strict(&Char(','))?;
        let satellite_count = ctx.take(&Until(COMMA)).parse_opt();
        ctx.skip_strict(&Char(','))?;
        let hdop = ctx.take(&Until(COMMA)).parse_opt();
        ctx.skip_strict(&Char(','))?;
        let altitude = ctx.take(&Until(COMMA)).parse_opt();
        ctx.skip_strict(&Char(','))?;
        ctx.skip(&Char('M'));
        ctx.skip_strict(&Char(','))?;
        let geoid_separation = ctx.take(&Until(COMMA)).parse_opt();
        ctx.skip_strict(&Char(','))?;
        ctx.skip(&Char('M'));
        ctx.skip_strict(&Char(','))?;
        let age_of_differential_gps_data = ctx.take(&Until(COMMA)).parse_opt();
        ctx.skip_strict(&Char(','))?;
        let differential_reference_station_id = ctx.take(&Until(STAR)).parse_opt();
        Ok(Gga { navigation_system, utc_time, lat, lon, quality, satellite_count, hdop, altitude, geoid_separation, age_of_differential_gps_data, differential_reference_station_id })
    }
}

} // verus!
