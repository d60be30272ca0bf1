//! What each sentence parser reads from each field: for a sentence built
//! from its comma-separated fields, every value is the reading of the field
//! at its place in the sentence type.
use vstd::prelude::*;
use vstd::utf8::decode_utf8;

use crate::data::{
    FaaMode, GgaQualityIndicator, GrsResidualMode, GsaMode, GsaSelectionMode, NavigationStatus,
    Status, SystemId, Talker,
};
use crate::layout::{
    built, field_start, lemma_field_end, lemma_field_end_either, lemma_next_field, lemma_pair_fields,
    lemma_unit_letter, plain,
};
use crate::number::{all_digits, digits_value, int_from_str, is_f64_literal, FloatLiteral, FromField};
use crate::rules::{
    date_value, first_comma, hemisphere, two_commas, utc_value, NmeaCoord, NmeaDate, NmeaDegree, NmeaUtc,
    PackedCoordinate, SignedDegrees, COMMA, STAR,
};
use crate::str_parser::{char_at, end_of, field_text, took, until_at, Char, StrFlowRule, Until};
use crate::text::{find2_from, lemma_find_none};
use crate::time::{date_valid, frac_nanos, Date, UtcDateTime, UtcTime};
use crate::error::ErrorKind;
use crate::fields::fields_of;
use crate::generic::{uppercase, utc_fields, NavigationSystem, NmeaParser, SplitCoordinate};
use crate::{data, fields, nmea_data};

verus! {

/// `o` is what the time field `t` gives: present exactly when `t` is a time
/// of day chrono accepts, that time, on some valid date.
pub open spec fn time_field(t: Seq<u8>, o: Option<UtcDateTime>) -> bool {
    &&& (o is Some <==> utc_value(t) is Some)
    &&& o matches Some(dt) ==> Some(dt.time) == utc_value(t) && dt.date.valid()
}

/// `h` is one of the hemisphere letters `N`, `S`, `E`, `W`.
pub open spec fn hemisphere_letter(h: Seq<u8>) -> bool {
    h == seq![78u8] || h == seq![83u8] || h == seq![69u8] || h == seq![87u8]
}

/// `h` is `S` or `W`, a hemisphere whose coordinates count as negative.
pub open spec fn negative_letter(h: Seq<u8>) -> bool {
    h == seq![83u8] || h == seq![87u8]
}

/// `o` is the coordinate that the number field `n` and the hemisphere field
/// `h` give: present exactly when `n` is a number and `h` a hemisphere
/// letter; its number is `n`, and it is negative exactly for `S` and `W`.
pub open spec fn coordinate_fields(n: Seq<u8>, h: Seq<u8>, o: Option<PackedCoordinate>) -> bool {
    &&& (o is Some <==> is_f64_literal(n) && hemisphere_letter(h))
    &&& o matches Some(c) ==> c.ddmm@ == n && (c.negative <==> negative_letter(h))
}

/// `o` is the signed angle that the number field `n` and the hemisphere
/// field `h` give: present exactly when `n` is a number and `h` a hemisphere
/// letter; its number is `n`, and it is negative exactly for `S` and `W`.
pub open spec fn degree_fields(n: Seq<u8>, h: Seq<u8>, o: Option<SignedDegrees>) -> bool {
    &&& (o is Some <==> is_f64_literal(n) && hemisphere_letter(h))
    &&& o matches Some(a) ==> a.degrees@ == n && (a.negative <==> negative_letter(h))
}

/// The sign that the hemisphere rule gives a letter is that of
/// [`negative_letter`].
proof fn lemma_letter_sign(h: Seq<u8>)
    ensures
        hemisphere(h) is Some <==> hemisphere_letter(h),
        hemisphere(h) matches Some(n) ==> (n <==> negative_letter(h)),
{
    let e = seq![69u8];
    let nn = seq![78u8];
    let w = seq![87u8];
    let ss = seq![83u8];
    assert(e[0] == 69 && nn[0] == 78 && w[0] == 87 && ss[0] == 83);
    assert(e != w && e != ss && nn != w && nn != ss);
}

/// What the coordinate rule takes from field `i` is the coordinate of
/// fields `i` and `i + 1`.
proof fn lemma_coordinate(g: Seq<Seq<u8>>, cs: Seq<u8>, i: int, o: Option<PackedCoordinate>)
    requires
        plain(g, cs),
        0 <= i < g.len() - 2,
        took(NmeaCoord(), built(g, cs), field_start(g, i), o),
    ensures
        coordinate_fields(g[i], g[i + 1], o),
{
    lemma_pair_fields(g, cs, i);
    let input = built(g, cs).skip(field_start(g, i));
    let c1 = g[i].len() as int;
    let c2 = g[i].len() + 1 + g[i + 1].len() as int;
    assert(two_commas(input) == Some((c1, c2)));
    assert(input.take(c1) == g[i]);
    assert(input.subrange(c1 + 1, c2) == g[i + 1]);
    lemma_letter_sign(g[i + 1]);
}

/// What the degree rule takes from field `i` is the signed angle of fields
/// `i` and `i + 1`.
proof fn lemma_degree(g: Seq<Seq<u8>>, cs: Seq<u8>, i: int, o: Option<SignedDegrees>)
    requires
        plain(g, cs),
        0 <= i < g.len() - 2,
        took(NmeaDegree(), built(g, cs), field_start(g, i), o),
    ensures
        degree_fields(g[i], g[i + 1], o),
{
    lemma_pair_fields(g, cs, i);
    let input = built(g, cs).skip(field_start(g, i));
    let c1 = g[i].len() as int;
    let c2 = g[i].len() + 1 + g[i + 1].len() as int;
    assert(two_commas(input) == Some((c1, c2)));
    assert(input.take(c1) == g[i]);
    assert(input.subrange(c1 + 1, c2) == g[i + 1]);
    lemma_letter_sign(g[i + 1]);
}

/// The fields up to `m` are each followed by a comma: where each one ends and
/// where the next begins.
proof fn lemma_fields(g: Seq<Seq<u8>>, cs: Seq<u8>, m: int)
    requires
        plain(g, cs),
        0 <= m < g.len(),
    ensures
        field_start(g, 0) == 0,
        forall|i: int|
            0 <= i < m ==> {
                &&& until_at(COMMA, built(g, cs), #[trigger] field_start(g, i))
                    == Some(field_start(g, i) + g[i].len())
                &&& end_of(
                    Until(COMMA),
                    built(g, cs),
                    field_start(g, i),
                ) == field_start(g, i) + g[i].len()
                &&& field_text(COMMA, built(g, cs), field_start(g, i)) == Some(
                    g[i],
                )
                &&& char_at(',', built(g, cs), field_start(g, i) + g[i].len())
                    == Some(field_start(g, i + 1))
                &&& first_comma(built(g, cs).skip(field_start(g, i))) == Some(
                    g[i].len() as int,
                )
                &&& built(g, cs).skip(field_start(g, i)).take(g[i].len() as int) == g[i]
                &&& end_of(NmeaUtc(), built(g, cs), field_start(g, i))
                    == field_start(g, i) + g[i].len()
            },
{
    assert(field_start(g, 0) == 0);
    assert forall|i: int| 0 <= i < m implies {
        &&& until_at(COMMA, built(g, cs), #[trigger] field_start(g, i)) == Some(
            field_start(g, i) + g[i].len(),
        )
        &&& end_of(
            Until(COMMA),
            built(g, cs),
            field_start(g, i),
        ) == field_start(g, i) + g[i].len()
        &&& field_text(COMMA, built(g, cs), field_start(g, i)) == Some(g[i])
        &&& char_at(',', built(g, cs), field_start(g, i) + g[i].len()) == Some(
            field_start(g, i + 1),
        )
        &&& first_comma(built(g, cs).skip(field_start(g, i))) == Some(
            g[i].len() as int,
        )
        &&& built(g, cs).skip(field_start(g, i)).take(g[i].len() as int) == g[i]
        &&& end_of(NmeaUtc(), built(g, cs), field_start(g, i))
            == field_start(g, i) + g[i].len()
    } by {
        lemma_field_end(g, cs, i, COMMA);
        lemma_next_field(g, cs, i);
    }
}

/// A GGA sentence built from the fields `g` (the first being `$` and the
/// sentence's type) gives the time of field 1, the latitude of fields 2 and
/// 3, the longitude of fields 4 and 5, the quality of field 6, the number of
/// satellites of field 7, the dilution of field 8, the altitude of field 9,
/// the geoidal separation of field 11, the age of the differential data of
/// field 13 and the station of field 14, the last.
pub proof fn law_gga_fields(g: Seq<Seq<u8>>, cs: Seq<u8>, talker: Talker, d: data::Gga)
    requires
        plain(g, cs),
        g.len() == 15,
        data::Gga::spec_new(built(g, cs), 0, talker, Ok(d)),
    ensures
        d.talker == talker,
        time_field(g[1], d.utc_time),
        coordinate_fields(g[2], g[3], d.lat),
        coordinate_fields(g[4], g[5], d.lon),
        <GgaQualityIndicator as FromField>::field_rel(g[6], d.quality),
        <u8 as FromField>::field_rel(g[7], d.satellite_count),
        <FloatLiteral as FromField>::field_rel(g[8], d.hdop),
        <FloatLiteral as FromField>::field_rel(g[9], d.altitude),
        <FloatLiteral as FromField>::field_rel(g[11], d.geoid_separation),
        <FloatLiteral as FromField>::field_rel(g[13], d.age_of_differential_gps_data),
        <u16 as FromField>::field_rel(g[14], d.differential_reference_station_id),
{
    let b = built(g, cs);
    lemma_fields(g, cs, 14);
    lemma_pair_fields(g, cs, 2);
    lemma_pair_fields(g, cs, 4);
    lemma_field_end(g, cs, 14, STAR);
    let s = |i: int| field_start(g, i);
    lemma_coordinate(g, cs, 2, d.lat);
    lemma_coordinate(g, cs, 4, d.lon);
    assert(until_at(COMMA, b, s(0)) == Some(s(0) + g[0].len()));
    assert(char_at(',', b, s(0) + g[0].len()) == Some(s(1)));
    assert(end_of(NmeaUtc(), b, s(1)) == s(1) + g[1].len());
    assert(char_at(',', b, s(1) + g[1].len()) == Some(s(2)));
    assert(char_at(',', b, s(3) + g[3].len()) == Some(s(4)));
    assert(char_at(',', b, s(5) + g[5].len()) == Some(s(6)));
    assert(end_of(Until(COMMA), b, s(6)) == s(6) + g[6].len());
    assert(char_at(',', b, s(6) + g[6].len()) == Some(s(7)));
    assert(end_of(Until(COMMA), b, s(7)) == s(7) + g[7].len());
    assert(char_at(',', b, s(7) + g[7].len()) == Some(s(8)));
    assert(end_of(Until(COMMA), b, s(8)) == s(8) + g[8].len());
    assert(char_at(',', b, s(8) + g[8].len()) == Some(s(9)));
    assert(end_of(Until(COMMA), b, s(9)) == s(9) + g[9].len());
    assert(char_at(',', b, s(9) + g[9].len()) == Some(s(10)));
    let e10 = end_of(Char('M'), b, s(10));
    if char_at(',', b, e10) is Some {
        lemma_unit_letter(g, cs, 10, 'M');
    }
    assert(char_at(',', b, s(10) + g[10].len()) == Some(s(11)));
    assert(end_of(Until(COMMA), b, s(11)) == s(11) + g[11].len());
    assert(char_at(',', b, s(11) + g[11].len()) == Some(s(12)));
    let e12 = end_of(Char('M'), b, s(12));
    if char_at(',', b, e12) is Some {
        lemma_unit_letter(g, cs, 12, 'M');
    }
    assert(char_at(',', b, s(12) + g[12].len()) == Some(s(13)));
    assert(end_of(Until(COMMA), b, s(13)) == s(13) + g[13].len());
    assert(char_at(',', b, s(13) + g[13].len()) == Some(s(14)));
}

/// Read without the checksum check, a GGA sentence built from the fields `g` (the first being `$` and the
/// sentence's type) gives the time of field 1, the latitude of fields 2 and
/// 3, the longitude of fields 4 and 5, the quality of field 6, the number of
/// satellites of field 7, the dilution of field 8, the altitude of field 9,
/// the geoidal separation of field 11, the age of the differential data of
/// field 13 and the station of field 14, the last.
pub proof fn law_gga_fields_unchecked(g: Seq<Seq<u8>>, cs: Seq<u8>, talker: Talker, d: nmea_data::Gga)
    requires
        plain(g, cs),
        g.len() == 15,
        nmea_data::Gga::spec_new(built(g, cs), 0, talker, Ok(d)),
    ensures
        d.navigation_system == talker,
        time_field(g[1], d.utc_time),
        coordinate_fields(g[2], g[3], d.lat),
        coordinate_fields(g[4], g[5], d.lon),
        <GgaQualityIndicator as FromField>::field_rel(g[6], d.quality),
        <u8 as FromField>::field_rel(g[7], d.satellite_count),
        <FloatLiteral as FromField>::field_rel(g[8], d.hdop),
        <FloatLiteral as FromField>::field_rel(g[9], d.altitude),
        <FloatLiteral as FromField>::field_rel(g[11], d.geoid_separation),
        <FloatLiteral as FromField>::field_rel(g[13], d.age_of_differential_gps_data),
        <u16 as FromField>::field_rel(g[14], d.differential_reference_station_id),
{
    let b = built(g, cs);
    lemma_fields(g, cs, 14);
    lemma_pair_fields(g, cs, 2);
    lemma_pair_fields(g, cs, 4);
    lemma_field_end(g, cs, 14, STAR);
    let s = |i: int| field_start(g, i);
    lemma_coordinate(g, cs, 2, d.lat);
    lemma_coordinate(g, cs, 4, d.lon);
    assert(until_at(COMMA, b, s(0)) == Some(s(0) + g[0].len()));
    assert(char_at(',', b, s(0) + g[0].len()) == Some(s(1)));
    assert(end_of(NmeaUtc(), b, s(1)) == s(1) + g[1].len());
    assert(char_at(',', b, s(1) + g[1].len()) == Some(s(2)));
    assert(char_at(',', b, s(3) + g[3].len()) == Some(s(4)));
    assert(char_at(',', b, s(5) + g[5].len()) == Some(s(6)));
    assert(end_of(Until(COMMA), b, s(6)) == s(6) + g[6].len());
    assert(char_at(',', b, s(6) + g[6].len()) == Some(s(7)));
    assert(end_of(Until(COMMA), b, s(7)) == s(7) + g[7].len());
    assert(char_at(',', b, s(7) + g[7].len()) == Some(s(8)));
    assert(end_of(Until(COMMA), b, s(8)) == s(8) + g[8].len());
    assert(char_at(',', b, s(8) + g[8].len()) == Some(s(9)));
    assert(end_of(Until(COMMA), b, s(9)) == s(9) + g[9].len());
    assert(char_at(',', b, s(9) + g[9].len()) == Some(s(10)));
    let e10 = end_of(Char('M'), b, s(10));
    if char_at(',', b, e10) is Some {
        lemma_unit_letter(g, cs, 10, 'M');
    }
    assert(char_at(',', b, s(10) + g[10].len()) == Some(s(11)));
    assert(end_of(Until(COMMA), b, s(11)) == s(11) + g[11].len());
    assert(char_at(',', b, s(11) + g[11].len()) == Some(s(12)));
    let e12 = end_of(Char('M'), b, s(12));
    if char_at(',', b, e12) is Some {
        lemma_unit_letter(g, cs, 12, 'M');
    }
    assert(char_at(',', b, s(12) + g[12].len()) == Some(s(13)));
    assert(end_of(Until(COMMA), b, s(13)) == s(13) + g[13].len());
    assert(char_at(',', b, s(13) + g[13].len()) == Some(s(14)));
}

/// A GST sentence built from the fields `g` (the first being `$` and the
/// sentence's type) gives the time of field 1, the RMS of the residuals of
/// field 2, the deviations along the semi-major and the semi-minor axes of
/// fields 3 and 4, and the latitude and longitude deviations as the reader
/// takes them, from fields 5 and 6.
pub proof fn law_gst_fields(g: Seq<Seq<u8>>, cs: Seq<u8>, talker: Talker, d: data::Gst)
    requires
        plain(g, cs),
        g.len() >= 8,
        data::Gst::spec_new(built(g, cs), 0, talker, Ok(d)),
    ensures
        d.talker == talker,
        time_field(g[1], d.utc_time),
        <FloatLiteral as FromField>::field_rel(g[2], d.rms),
        <FloatLiteral as FromField>::field_rel(g[3], d.std_dev_semi_major),
        <FloatLiteral as FromField>::field_rel(g[4], d.std_dev_semi_minor),
        <FloatLiteral as FromField>::field_rel(g[5], d.std_dev_semi_latitude),
        <FloatLiteral as FromField>::field_rel(g[6], d.std_dev_semi_longitude),
{
    let b = built(g, cs);
    lemma_fields(g, cs, 7);
    let s = |i: int| field_start(g, i);
    assert(until_at(COMMA, b, s(0)) == Some(s(0) + g[0].len()));
    assert(char_at(',', b, s(0) + g[0].len()) == Some(s(1)));
    assert(end_of(NmeaUtc(), b, s(1)) == s(1) + g[1].len());
    assert(char_at(',', b, s(1) + g[1].len()) == Some(s(2)));
    assert(end_of(Until(COMMA), b, s(2)) == s(2) + g[2].len());
    assert(char_at(',', b, s(2) + g[2].len()) == Some(s(3)));
    assert(end_of(Until(COMMA), b, s(3)) == s(3) + g[3].len());
    assert(char_at(',', b, s(3) + g[3].len()) == Some(s(4)));
    assert(end_of(Until(COMMA), b, s(4)) == s(4) + g[4].len());
    assert(char_at(',', b, s(4) + g[4].len()) == Some(s(5)));
    assert(end_of(Until(COMMA), b, s(5)) == s(5) + g[5].len());
    assert(char_at(',', b, s(5) + g[5].len()) == Some(s(6)));
}

/// A VTG sentence built from the fields `g` (the first being `$` and the
/// sentence's type) gives the true course of field 1, the one the unit `T`
/// follows, the magnetic course of field 3, the one `M` follows, the speed
/// in knots of field 5 and in km/h of field 7, and the mode of field 9, the
/// last.
pub proof fn law_vtg_fields(g: Seq<Seq<u8>>, cs: Seq<u8>, talker: Talker, d: data::Vtg)
    requires
        plain(g, cs),
        g.len() == 10,
        data::Vtg::spec_new(built(g, cs), 0, talker, Ok(d)),
    ensures
        d.talker == talker,
        <FloatLiteral as FromField>::field_rel(g[1], d.course_over_ground_true),
        <FloatLiteral as FromField>::field_rel(g[3], d.course_over_ground_magnetic),
        <FloatLiteral as FromField>::field_rel(g[5], d.speed_over_ground_knots),
        <FloatLiteral as FromField>::field_rel(g[7], d.speed_over_ground_kph),
        <FaaMode as FromField>::field_rel(g[9], d.mode),
{
    let b = built(g, cs);
    lemma_fields(g, cs, 9);
    lemma_field_end(g, cs, 9, STAR);
    let s = |i: int| field_start(g, i);
    assert(until_at(COMMA, b, s(0)) == Some(s(0) + g[0].len()));
    assert(char_at(',', b, s(0) + g[0].len()) == Some(s(1)));
    assert(end_of(Until(COMMA), b, s(1)) == s(1) + g[1].len());
    assert(char_at(',', b, s(1) + g[1].len()) == Some(s(2)));
    if char_at(',', b, end_of(Char('T'), b, s(2))) is Some {
        lemma_unit_letter(g, cs, 2, 'T');
    }
    assert(char_at(',', b, s(2) + g[2].len()) == Some(s(3)));
    assert(end_of(Until(COMMA), b, s(3)) == s(3) + g[3].len());
    assert(char_at(',', b, s(3) + g[3].len()) == Some(s(4)));
    if char_at(',', b, end_of(Char('M'), b, s(4))) is Some {
        lemma_unit_letter(g, cs, 4, 'M');
    }
    assert(char_at(',', b, s(4) + g[4].len()) == Some(s(5)));
    assert(end_of(Until(COMMA), b, s(5)) == s(5) + g[5].len());
    assert(char_at(',', b, s(5) + g[5].len()) == Some(s(6)));
    if char_at(',', b, end_of(Char('N'), b, s(6))) is Some {
        lemma_unit_letter(g, cs, 6, 'N');
    }
    assert(char_at(',', b, s(6) + g[6].len()) == Some(s(7)));
    assert(end_of(Until(COMMA), b, s(7)) == s(7) + g[7].len());
    assert(char_at(',', b, s(7) + g[7].len()) == Some(s(8)));
    if char_at(',', b, end_of(Char('K'), b, s(8))) is Some {
        lemma_unit_letter(g, cs, 8, 'K');
    }
    assert(char_at(',', b, s(8) + g[8].len()) == Some(s(9)));
}

/// An RMC sentence built from the fields `g` (the first being `$` and the
/// sentence's type) gives the time of field 1, the status of field 2, the
/// latitude of fields 3 and 4, the longitude of fields 5 and 6, the speed of
/// field 7, the track of field 8, the date of field 9, the magnetic
/// variation of fields 10 and 11 (negative when west), and the mode of field
/// 12, the last.
pub proof fn law_rmc_fields(g: Seq<Seq<u8>>, cs: Seq<u8>, talker: Talker, d: data::Rmc)
    requires
        plain(g, cs),
        g.len() == 13,
        data::Rmc::spec_new(built(g, cs), 0, talker, Ok(d)),
    ensures
        d.talker == talker,
        time_field(g[1], d.utc_time),
        <Status as FromField>::field_rel(g[2], d.status),
        coordinate_fields(g[3], g[4], d.latitude),
        coordinate_fields(g[5], g[6], d.longitude),
        <FloatLiteral as FromField>::field_rel(g[7], d.speed_over_ground),
        <FloatLiteral as FromField>::field_rel(g[8], d.track_made_good),
        d.date == date_value(g[9]),
        degree_fields(g[10], g[11], d.magnetic_variation),
        <FaaMode as FromField>::field_rel(g[12], d.faa_mode),
{
    let b = built(g, cs);
    lemma_fields(g, cs, 12);
    lemma_pair_fields(g, cs, 3);
    lemma_pair_fields(g, cs, 5);
    lemma_pair_fields(g, cs, 10);
    lemma_field_end(g, cs, 12, STAR);
    let s = |i: int| field_start(g, i);
    lemma_coordinate(g, cs, 3, d.latitude);
    lemma_coordinate(g, cs, 5, d.longitude);
    lemma_degree(g, cs, 10, d.magnetic_variation);
    assert(until_at(COMMA, b, s(0)) == Some(s(0) + g[0].len()));
    assert(char_at(',', b, s(0) + g[0].len()) == Some(s(1)));
    assert(end_of(NmeaUtc(), b, s(1)) == s(1) + g[1].len());
    assert(char_at(',', b, s(1) + g[1].len()) == Some(s(2)));
    assert(end_of(Until(COMMA), b, s(2)) == s(2) + g[2].len());
    assert(char_at(',', b, s(2) + g[2].len()) == Some(s(3)));
    assert(char_at(',', b, s(4) + g[4].len()) == Some(s(5)));
    assert(char_at(',', b, s(6) + g[6].len()) == Some(s(7)));
    assert(end_of(Until(COMMA), b, s(7)) == s(7) + g[7].len());
    assert(char_at(',', b, s(7) + g[7].len()) == Some(s(8)));
    assert(end_of(Until(COMMA), b, s(8)) == s(8) + g[8].len());
    assert(char_at(',', b, s(8) + g[8].len()) == Some(s(9)));
    assert(first_comma(b.skip(s(9))) == Some(g[9].len() as int));
    assert(b.skip(s(9)).take(g[9].len() as int) == g[9]);
    assert(end_of(NmeaDate(), b, s(9)) == s(9) + g[9].len());
    assert(char_at(',', b, s(9) + g[9].len()) == Some(s(10)));
    assert(char_at(',', b, s(11) + g[11].len()) == Some(s(12)));
}

/// A DHV sentence built from the fields `g` (the first being `$` and the
/// sentence's type) gives the time of field 1 and the speeds of fields 2 to
/// 6, in the order 3D, X, Y, Z, ground; field 6 is the last.
pub proof fn law_dhv_fields(g: Seq<Seq<u8>>, cs: Seq<u8>, talker: Talker, d: data::Dhv)
    requires
        plain(g, cs),
        g.len() == 7,
        data::Dhv::spec_new(built(g, cs), 0, talker, Ok(d)),
    ensures
        d.talker == talker,
        time_field(g[1], d.utc_time),
        <FloatLiteral as FromField>::field_rel(g[2], d.speed3d),
        <FloatLiteral as FromField>::field_rel(g[3], d.speed_x),
        <FloatLiteral as FromField>::field_rel(g[4], d.speed_y),
        <FloatLiteral as FromField>::field_rel(g[5], d.speed_z),
        <FloatLiteral as FromField>::field_rel(g[6], d.gdspd),
{
    let b = built(g, cs);
    lemma_fields(g, cs, 6);
    lemma_field_end(g, cs, 6, STAR);
    let s = |i: int| field_start(g, i);
    assert(until_at(COMMA, b, s(0)) == Some(s(0) + g[0].len()));
    assert(char_at(',', b, s(0) + g[0].len()) == Some(s(1)));
    assert(end_of(NmeaUtc(), b, s(1)) == s(1) + g[1].len());
    assert(char_at(',', b, s(1) + g[1].len()) == Some(s(2)));
    assert(end_of(Until(COMMA), b, s(2)) == s(2) + g[2].len());
    assert(char_at(',', b, s(2) + g[2].len()) == Some(s(3)));
    assert(end_of(Until(COMMA), b, s(3)) == s(3) + g[3].len());
    assert(char_at(',', b, s(3) + g[3].len()) == Some(s(4)));
    assert(end_of(Until(COMMA), b, s(4)) == s(4) + g[4].len());
    assert(char_at(',', b, s(4) + g[4].len()) == Some(s(5)));
    assert(end_of(Until(COMMA), b, s(5)) == s(5) + g[5].len());
    assert(char_at(',', b, s(5) + g[5].len()) == Some(s(6)));
}

/// A GLL sentence built from the fields `g` (the first being `$` and the
/// sentence's type) gives the latitude of fields 1 and 2, the longitude of
/// fields 3 and 4, the time of field 5, the status of field 6 and the mode
/// of field 7, the last.
pub proof fn law_gll_fields(g: Seq<Seq<u8>>, cs: Seq<u8>, talker: Talker, d: data::Gll)
    requires
        plain(g, cs),
        g.len() == 8,
        data::Gll::spec_new(built(g, cs), 0, talker, Ok(d)),
    ensures
        d.talker == talker,
        coordinate_fields(g[1], g[2], d.lat),
        coordinate_fields(g[3], g[4], d.lon),
        time_field(g[5], d.utc_time),
        <Status as FromField>::field_rel(g[6], d.data_valid),
        <FaaMode as FromField>::field_rel(g[7], d.faa_mode),
{
    let b = built(g, cs);
    lemma_fields(g, cs, 7);
    lemma_pair_fields(g, cs, 1);
    lemma_pair_fields(g, cs, 3);
    lemma_field_end(g, cs, 7, STAR);
    let s = |i: int| field_start(g, i);
    lemma_coordinate(g, cs, 1, d.lat);
    lemma_coordinate(g, cs, 3, d.lon);
    assert(until_at(COMMA, b, s(0)) == Some(s(0) + g[0].len()));
    assert(char_at(',', b, s(0) + g[0].len()) == Some(s(1)));
    assert(char_at(',', b, s(2) + g[2].len()) == Some(s(3)));
    assert(char_at(',', b, s(4) + g[4].len()) == Some(s(5)));
    assert(end_of(NmeaUtc(), b, s(5)) == s(5) + g[5].len());
    assert(char_at(',', b, s(5) + g[5].len()) == Some(s(6)));
    assert(end_of(Until(COMMA), b, s(6)) == s(6) + g[6].len());
    assert(char_at(',', b, s(6) + g[6].len()) == Some(s(7)));
}

/// A ZDA sentence built from the fields `g` (the first being `$` and the
/// sentence's type) gives the time of field 1, the day, month and year of
/// fields 2 to 4, and the zone's hours and minutes of fields 5 and 6, the
/// last.
pub proof fn law_zda_fields(g: Seq<Seq<u8>>, cs: Seq<u8>, talker: Talker, d: data::Zda)
    requires
        plain(g, cs),
        g.len() == 7,
        data::Zda::spec_new(built(g, cs), 0, talker, Ok(d)),
    ensures
        d.talker == talker,
        time_field(g[1], d.utc_time),
        <u8 as FromField>::field_rel(g[2], d.day),
        <u8 as FromField>::field_rel(g[3], d.month),
        <u16 as FromField>::field_rel(g[4], d.year),
        <i8 as FromField>::field_rel(g[5], d.local_zone_description),
        <u8 as FromField>::field_rel(g[6], d.local_zone_minutes_description),
{
    let b = built(g, cs);
    lemma_fields(g, cs, 6);
    lemma_field_end(g, cs, 6, STAR);
    let s = |i: int| field_start(g, i);
    assert(until_at(COMMA, b, s(0)) == Some(s(0) + g[0].len()));
    assert(char_at(',', b, s(0) + g[0].len()) == Some(s(1)));
    assert(end_of(NmeaUtc(), b, s(1)) == s(1) + g[1].len());
    assert(char_at(',', b, s(1) + g[1].len()) == Some(s(2)));
    assert(end_of(Until(COMMA), b, s(2)) == s(2) + g[2].len());
    assert(char_at(',', b, s(2) + g[2].len()) == Some(s(3)));
    assert(end_of(Until(COMMA), b, s(3)) == s(3) + g[3].len());
    assert(char_at(',', b, s(3) + g[3].len()) == Some(s(4)));
    assert(end_of(Until(COMMA), b, s(4)) == s(4) + g[4].len());
    assert(char_at(',', b, s(4) + g[4].len()) == Some(s(5)));
    assert(end_of(Until(COMMA), b, s(5)) == s(5) + g[5].len());
    assert(char_at(',', b, s(5) + g[5].len()) == Some(s(6)));
}

/// A GBS sentence built from the fields `g` (the first being `$` and the
/// sentence's type) gives the time of field 1, the expected errors in
/// latitude, longitude and altitude of fields 2 to 4, the failed satellite
/// of field 5, the probability of missed detection of field 6, the bias of
/// field 7 and its deviation of field 8, the last.
pub proof fn law_gbs_fields(g: Seq<Seq<u8>>, cs: Seq<u8>, talker: Talker, d: data::Gbs)
    requires
        plain(g, cs),
        g.len() == 9,
        data::Gbs::spec_new(built(g, cs), 0, talker, Ok(d)),
    ensures
        d.talker == talker,
        time_field(g[1], d.utc_time),
        <FloatLiteral as FromField>::field_rel(g[2], d.latitude_error),
        <FloatLiteral as FromField>::field_rel(g[3], d.longitude_error),
        <FloatLiteral as FromField>::field_rel(g[4], d.altitude_error),
        <u16 as FromField>::field_rel(g[5], d.likely_failed_satellite_id),
        <FloatLiteral as FromField>::field_rel(g[6], d.missed_detection_probability),
        <FloatLiteral as FromField>::field_rel(g[7], d.bias_estimate),
        <FloatLiteral as FromField>::field_rel(g[8], d.std_dev),
{
    let b = built(g, cs);
    lemma_fields(g, cs, 8);
    lemma_field_end(g, cs, 8, STAR);
    let s = |i: int| field_start(g, i);
    assert(until_at(COMMA, b, s(0)) == Some(s(0) + g[0].len()));
    assert(char_at(',', b, s(0) + g[0].len()) == Some(s(1)));
    assert(end_of(NmeaUtc(), b, s(1)) == s(1) + g[1].len());
    assert(char_at(',', b, s(1) + g[1].len()) == Some(s(2)));
    assert(end_of(Until(COMMA), b, s(2)) == s(2) + g[2].len());
    assert(char_at(',', b, s(2) + g[2].len()) == Some(s(3)));
    assert(end_of(Until(COMMA), b, s(3)) == s(3) + g[3].len());
    assert(char_at(',', b, s(3) + g[3].len()) == Some(s(4)));
    assert(end_of(Until(COMMA), b, s(4)) == s(4) + g[4].len());
    assert(char_at(',', b, s(4) + g[4].len()) == Some(s(5)));
    assert(end_of(Until(COMMA), b, s(5)) == s(5) + g[5].len());
    assert(char_at(',', b, s(5) + g[5].len()) == Some(s(6)));
    assert(end_of(Until(COMMA), b, s(6)) == s(6) + g[6].len());
    assert(char_at(',', b, s(6) + g[6].len()) == Some(s(7)));
    assert(end_of(Until(COMMA), b, s(7)) == s(7) + g[7].len());
    assert(char_at(',', b, s(7) + g[7].len()) == Some(s(8)));
    assert(end_of(Char(','), b, s(7) + g[7].len()) == s(8));
}

/// Read without the checksum check, a DHV sentence built from the fields
/// `g` (the first being `$` and the sentence's type) gives the time of field
/// 1 and the speeds of fields 2 to 6, in the order 3D, X, Y, Z, ground;
/// field 6 is the last.
pub proof fn law_dhv_fields_unchecked(
    g: Seq<Seq<u8>>,
    cs: Seq<u8>,
    talker: Talker,
    d: nmea_data::Dhv,
)
    requires
        plain(g, cs),
        g.len() == 7,
        nmea_data::Dhv::spec_new(built(g, cs), 0, talker, Ok(d)),
    ensures
        d.navigation_system == talker,
        time_field(g[1], d.utc_time),
        <FloatLiteral as FromField>::field_rel(g[2], d.speed3d),
        <FloatLiteral as FromField>::field_rel(g[3], d.speed_x),
        <FloatLiteral as FromField>::field_rel(g[4], d.speed_y),
        <FloatLiteral as FromField>::field_rel(g[5], d.speed_z),
        <FloatLiteral as FromField>::field_rel(g[6], d.gdspd),
{
    let b = built(g, cs);
    lemma_fields(g, cs, 6);
    lemma_field_end(g, cs, 6, STAR);
    let s = |i: int| field_start(g, i);
    assert(until_at(COMMA, b, s(0)) == Some(s(0) + g[0].len()));
    assert(char_at(',', b, s(0) + g[0].len()) == Some(s(1)));
    assert(end_of(NmeaUtc(), b, s(1)) == s(1) + g[1].len());
    assert(char_at(',', b, s(1) + g[1].len()) == Some(s(2)));
    assert(end_of(Until(COMMA), b, s(2)) == s(2) + g[2].len());
    assert(char_at(',', b, s(2) + g[2].len()) == Some(s(3)));
    assert(end_of(Until(COMMA), b, s(3)) == s(3) + g[3].len());
    assert(char_at(',', b, s(3) + g[3].len()) == Some(s(4)));
    assert(end_of(Until(COMMA), b, s(4)) == s(4) + g[4].len());
    assert(char_at(',', b, s(4) + g[4].len()) == Some(s(5)));
    assert(end_of(Until(COMMA), b, s(5)) == s(5) + g[5].len());
    assert(char_at(',', b, s(5) + g[5].len()) == Some(s(6)));
}

/// Read without the checksum check, a ZDA sentence built from the fields
/// `g` (the first being `$` and the sentence's type) gives the time of field
/// 1, the day, month and year of fields 2 to 4, and the zone's hours and
/// minutes of fields 5 and 6, the last.
pub proof fn law_zda_fields_unchecked(
    g: Seq<Seq<u8>>,
    cs: Seq<u8>,
    talker: Talker,
    d: nmea_data::Zda,
)
    requires
        plain(g, cs),
        g.len() == 7,
        nmea_data::Zda::spec_new(built(g, cs), 0, talker, Ok(d)),
    ensures
        d.navigation_system == talker,
        time_field(g[1], d.utc_time),
        <u8 as FromField>::field_rel(g[2], d.day),
        <u8 as FromField>::field_rel(g[3], d.month),
        <u16 as FromField>::field_rel(g[4], d.year),
        <i8 as FromField>::field_rel(g[5], d.local_zone_description),
        <u8 as FromField>::field_rel(g[6], d.local_zone_minutes_description),
{
    let b = built(g, cs);
    lemma_fields(g, cs, 6);
    lemma_field_end(g, cs, 6, STAR);
    let s = |i: int| field_start(g, i);
    assert(until_at(COMMA, b, s(0)) == Some(s(0) + g[0].len()));
    assert(char_at(',', b, s(0) + g[0].len()) == Some(s(1)));
    assert(end_of(NmeaUtc(), b, s(1)) == s(1) + g[1].len());
    assert(char_at(',', b, s(1) + g[1].len()) == Some(s(2)));
    assert(end_of(Until(COMMA), b, s(2)) == s(2) + g[2].len());
    assert(char_at(',', b, s(2) + g[2].len()) == Some(s(3)));
    assert(end_of(Until(COMMA), b, s(3)) == s(3) + g[3].len());
    assert(char_at(',', b, s(3) + g[3].len()) == Some(s(4)));
    assert(end_of(Until(COMMA), b, s(4)) == s(4) + g[4].len());
    assert(char_at(',', b, s(4) + g[4].len()) == Some(s(5)));
    assert(end_of(Until(COMMA), b, s(5)) == s(5) + g[5].len());
    assert(char_at(',', b, s(5) + g[5].len()) == Some(s(6)));
}

/// Read without the checksum check, an RMC sentence built from the fields
/// `g` (the first being `$` and the sentence's type) gives the time of field
/// 1, the status of field 2, the latitude of fields 3 and 4, the longitude
/// of fields 5 and 6, the speed of field 7, the track of field 8, the date
/// of field 9, the magnetic variation of field 10 and the mode of field 11,
/// the last.
pub proof fn law_rmc_fields_unchecked(
    g: Seq<Seq<u8>>,
    cs: Seq<u8>,
    talker: Talker,
    d: nmea_data::Rmc,
)
    requires
        plain(g, cs),
        g.len() == 12,
        nmea_data::Rmc::spec_new(built(g, cs), 0, talker, Ok(d)),
    ensures
        d.navigation_system == talker,
        time_field(g[1], d.utc_time),
        <Status as FromField>::field_rel(g[2], d.status),
        coordinate_fields(g[3], g[4], d.latitude),
        coordinate_fields(g[5], g[6], d.longitude),
        <FloatLiteral as FromField>::field_rel(g[7], d.speed_over_ground),
        <FloatLiteral as FromField>::field_rel(g[8], d.track_made_good),
        d.date == date_value(g[9]),
        <FloatLiteral as FromField>::field_rel(g[10], d.magnetic_variation),
        <FaaMode as FromField>::field_rel(g[11], d.faa_mode),
{
    let b = built(g, cs);
    lemma_fields(g, cs, 11);
    lemma_pair_fields(g, cs, 3);
    lemma_pair_fields(g, cs, 5);
    lemma_field_end(g, cs, 11, STAR);
    let s = |i: int| field_start(g, i);
    lemma_coordinate(g, cs, 3, d.latitude);
    lemma_coordinate(g, cs, 5, d.longitude);
    assert(until_at(COMMA, b, s(0)) == Some(s(0) + g[0].len()));
    assert(char_at(',', b, s(0) + g[0].len()) == Some(s(1)));
    assert(end_of(NmeaUtc(), b, s(1)) == s(1) + g[1].len());
    assert(char_at(',', b, s(1) + g[1].len()) == Some(s(2)));
    assert(end_of(Until(COMMA), b, s(2)) == s(2) + g[2].len());
    assert(char_at(',', b, s(2) + g[2].len()) == Some(s(3)));
    assert(char_at(',', b, s(4) + g[4].len()) == Some(s(5)));
    assert(char_at(',', b, s(6) + g[6].len()) == Some(s(7)));
    assert(end_of(Until(COMMA), b, s(7)) == s(7) + g[7].len());
    assert(char_at(',', b, s(7) + g[7].len()) == Some(s(8)));
    assert(end_of(Until(COMMA), b, s(8)) == s(8) + g[8].len());
    assert(char_at(',', b, s(8) + g[8].len()) == Some(s(9)));
    assert(first_comma(b.skip(s(9))) == Some(g[9].len() as int));
    assert(b.skip(s(9)).take(g[9].len() as int) == g[9]);
    assert(end_of(NmeaDate(), b, s(9)) == s(9) + g[9].len());
    assert(char_at(',', b, s(9) + g[9].len()) == Some(s(10)));
    assert(end_of(Until(COMMA), b, s(10)) == s(10) + g[10].len());
    assert(char_at(',', b, s(10) + g[10].len()) == Some(s(11)));
}

/// The residual fields that follow field `i`, `k` of them, each after its
/// comma: the reading ends after field `i + k`, keeping those of the fields
/// that hold a number, in order.
proof fn lemma_residual_fields(g: Seq<Seq<u8>>, cs: Seq<u8>, i: int, k: nat)
    requires
        plain(g, cs),
        0 <= i,
        i + k < g.len() - 1,
    ensures
        data::Grs::residuals(built(g, cs), field_start(g, i) + g[i].len(), k) == Some(
            (
                field_start(g, i + k) + g[i + k].len(),
                g.subrange(i + 1, i + k + 1).filter(|t: Seq<u8>| is_f64_literal(t)),
            ),
        ),
    decreases k,
{
    let b = built(g, cs);
    if k == 0 {
        assert(g.subrange(i + 1, i + 1) =~= Seq::<Seq<u8>>::empty());
        reveal(Seq::filter);
    } else {
        lemma_next_field(g, cs, i);
        lemma_field_end(g, cs, i + 1, COMMA);
        lemma_residual_fields(g, cs, i + 1, (k - 1) as nat);
        let rest = g.subrange(i + 2, i + k + 1);
        assert(g.subrange(i + 1, i + k + 1) =~= seq![g[i + 1]] + rest);
        rest.lemma_filter_prepend(g[i + 1], |t: Seq<u8>| is_f64_literal(t));
    }
}

/// A GRS sentence built from the fields `g` (the first being `$` and the
/// sentence's type) gives the time of field 1, the mode of field 2, the
/// residuals of fields 3 to 14 that hold a number, in order, the system of
/// field 15 and the signal of field 16, the last.
pub proof fn law_grs_fields(g: Seq<Seq<u8>>, cs: Seq<u8>, talker: Talker, d: data::Grs)
    requires
        plain(g, cs),
        g.len() == 17,
        data::Grs::spec_new(built(g, cs), 0, talker, Ok(d)),
    ensures
        d.talker == talker,
        time_field(g[1], d.utc_time),
        <GrsResidualMode as FromField>::field_rel(g[2], d.grs_residual_mode),
        data::literal_texts(d.satellite_residuals@) == g.subrange(3, 15).filter(
            |t: Seq<u8>| is_f64_literal(t),
        ),
        <SystemId as FromField>::field_rel(g[15], d.system_id),
        <u16 as FromField>::field_rel(g[16], d.signal_id),
{
    let b = built(g, cs);
    lemma_fields(g, cs, 16);
    lemma_field_end(g, cs, 16, STAR);
    lemma_residual_fields(g, cs, 2, 12);
    let s = |i: int| field_start(g, i);
    assert(until_at(COMMA, b, s(0)) == Some(s(0) + g[0].len()));
    assert(char_at(',', b, s(0) + g[0].len()) == Some(s(1)));
    assert(end_of(NmeaUtc(), b, s(1)) == s(1) + g[1].len());
    assert(char_at(',', b, s(1) + g[1].len()) == Some(s(2)));
    assert(end_of(Until(COMMA), b, s(2)) == s(2) + g[2].len());
    assert(char_at(',', b, s(14) + g[14].len()) == Some(s(15)));
    assert(end_of(Until(COMMA), b, s(15)) == s(15) + g[15].len());
    assert(char_at(',', b, s(15) + g[15].len()) == Some(s(16)));
    assert(end_of(Char(','), b, s(15) + g[15].len()) == s(16));
}

/// The ID fields that follow field `i`, `k` of them, each after its comma:
/// the reading ends after field `i + k`, keeping the IDs those fields give,
/// in order.
proof fn lemma_id_fields(g: Seq<Seq<u8>>, cs: Seq<u8>, i: int, k: nat)
    requires
        plain(g, cs),
        0 <= i,
        i + k < g.len() - 1,
    ensures
        data::Gsa::sat_ids(built(g, cs), field_start(g, i) + g[i].len(), k) == Some(
            (field_start(g, i + k) + g[i + k].len(), fields::id_values(g, i + 1, i + k + 1)),
        ),
    decreases k,
{
    if k > 0 {
        lemma_next_field(g, cs, i);
        lemma_field_end(g, cs, i + 1, COMMA);
        lemma_id_fields(g, cs, i + 1, (k - 1) as nat);
    }
}

/// A GSA sentence built from the fields `g` (the first being `$` and the
/// sentence's type) gives the selection mode of field 1, the kind of fix of
/// field 2, the IDs of fields 3 to 14, in order, the position, horizontal
/// and vertical dilutions of fields 15 to 17, and the system of field 18,
/// the last.
pub proof fn law_gsa_fields(g: Seq<Seq<u8>>, cs: Seq<u8>, talker: Talker, d: data::Gsa)
    requires
        plain(g, cs),
        g.len() == 19,
        data::Gsa::spec_new(built(g, cs), 0, talker, Ok(d)),
    ensures
        d.talker == talker,
        <GsaSelectionMode as FromField>::field_rel(g[1], d.selection_mode),
        <GsaMode as FromField>::field_rel(g[2], d.mode),
        d.satellite_ids@ == fields::id_values(g, 3, 15),
        <FloatLiteral as FromField>::field_rel(g[15], d.pdop),
        <FloatLiteral as FromField>::field_rel(g[16], d.hdop),
        <FloatLiteral as FromField>::field_rel(g[17], d.vdop),
        <SystemId as FromField>::field_rel(g[18], d.system_id),
{
    let b = built(g, cs);
    lemma_fields(g, cs, 18);
    lemma_field_end(g, cs, 18, STAR);
    lemma_id_fields(g, cs, 2, 12);
    let s = |i: int| field_start(g, i);
    assert(until_at(COMMA, b, s(0)) == Some(s(0) + g[0].len()));
    assert(char_at(',', b, s(0) + g[0].len()) == Some(s(1)));
    assert(end_of(Until(COMMA), b, s(1)) == s(1) + g[1].len());
    assert(char_at(',', b, s(1) + g[1].len()) == Some(s(2)));
    assert(end_of(Until(COMMA), b, s(2)) == s(2) + g[2].len());
    assert(char_at(',', b, s(14) + g[14].len()) == Some(s(15)));
    assert(end_of(Until(COMMA), b, s(15)) == s(15) + g[15].len());
    assert(char_at(',', b, s(15) + g[15].len()) == Some(s(16)));
    assert(end_of(Until(COMMA), b, s(16)) == s(16) + g[16].len());
    assert(char_at(',', b, s(16) + g[16].len()) == Some(s(17)));
    assert(end_of(Until(COMMA), b, s(17)) == s(17) + g[17].len());
    assert(char_at(',', b, s(17) + g[17].len()) == Some(s(18)));
}

/// A GNS sentence built from the fields `g` (the first being `$` and the
/// sentence's type) gives the time of field 1, the latitude of fields 2 and
/// 3, the longitude of fields 4 and 5, the two mode letters of field 6, the
/// number of satellites of field 7, the dilution of field 8, the altitude of
/// field 9, the geoidal separation of field 10, the age of the differential
/// data of field 11, the station of field 12 and the navigational status of
/// field 13, the last.
pub proof fn law_gns_fields(g: Seq<Seq<u8>>, cs: Seq<u8>, talker: Talker, d: data::Gns)
    requires
        plain(g, cs),
        g.len() == 14,
        data::Gns::spec_new(built(g, cs), 0, talker, Ok(d)),
    ensures
        d.talker == talker,
        time_field(g[1], d.utc_time),
        coordinate_fields(g[2], g[3], d.latitude),
        coordinate_fields(g[4], g[5], d.longitude),
        FaaMode::spec_from(g[6].take(1)) == Some(d.mode@[0]),
        FaaMode::spec_from(g[6].subrange(1, 2)) == Some(d.mode@[1]),
        <u8 as FromField>::field_rel(g[7], d.satellites),
        <FloatLiteral as FromField>::field_rel(g[8], d.hdop),
        <FloatLiteral as FromField>::field_rel(g[9], d.altitude),
        <FloatLiteral as FromField>::field_rel(g[10], d.goeidal_separation),
        <FloatLiteral as FromField>::field_rel(g[11], d.differential_data_age),
        <u16 as FromField>::field_rel(g[12], d.differential_reference_station_id),
        <NavigationStatus as FromField>::field_rel(g[13], d.navigational_status),
{
    let b = built(g, cs);
    lemma_fields(g, cs, 13);
    lemma_pair_fields(g, cs, 2);
    lemma_pair_fields(g, cs, 4);
    lemma_field_end(g, cs, 13, STAR);
    lemma_field_end_either(g, cs, 9);
    lemma_field_end_either(g, cs, 10);
    lemma_field_end_either(g, cs, 11);
    lemma_field_end_either(g, cs, 12);
    let s = |i: int| field_start(g, i);
    lemma_coordinate(g, cs, 2, d.latitude);
    lemma_coordinate(g, cs, 4, d.longitude);
    assert(until_at(COMMA, b, s(0)) == Some(s(0) + g[0].len()));
    assert(char_at(',', b, s(0) + g[0].len()) == Some(s(1)));
    assert(end_of(NmeaUtc(), b, s(1)) == s(1) + g[1].len());
    assert(char_at(',', b, s(1) + g[1].len()) == Some(s(2)));
    assert(char_at(',', b, s(3) + g[3].len()) == Some(s(4)));
    assert(char_at(',', b, s(5) + g[5].len()) == Some(s(6)));
    assert(data::Gns::leading_fields(b, 0) matches Ok(ps) && ps == (s(1), s(2), s(4), s(6)));
    assert(field_text(COMMA, b, s(6)) == Some(g[6]));
    assert(end_of(Until(COMMA), b, s(6)) == s(6) + g[6].len());
    assert(char_at(',', b, s(6) + g[6].len()) == Some(s(7)));
    assert(end_of(Until(COMMA), b, s(7)) == s(7) + g[7].len());
    assert(char_at(',', b, s(7) + g[7].len()) == Some(s(8)));
    assert(end_of(Until(COMMA), b, s(8)) == s(8) + g[8].len());
    assert(char_at(',', b, s(8) + g[8].len()) == Some(s(9)));
    assert(end_of(Char(','), b, s(8) + g[8].len()) == s(9));
    assert(char_at(',', b, s(9) + g[9].len()) == Some(s(10)));
    assert(end_of(Char(','), b, s(9) + g[9].len()) == s(10));
    assert(char_at(',', b, s(10) + g[10].len()) == Some(s(11)));
    assert(end_of(Char(','), b, s(10) + g[10].len()) == s(11));
    assert(char_at(',', b, s(11) + g[11].len()) == Some(s(12)));
    assert(end_of(Char(','), b, s(11) + g[11].len()) == s(12));
    assert(char_at(',', b, s(12) + g[12].len()) == Some(s(13)));
    assert(end_of(Char(','), b, s(12) + g[12].len()) == s(13));
}

/// In a GSV sentence built from the fields `g`, the four fields after field
/// `i` describe one satellite: its ID, its elevation, its azimuth and its
/// signal-to-noise ratio, in that order; the reading ends after them, at the
/// `*` when they are the last.
pub proof fn law_gsv_satellite_fields(g: Seq<Seq<u8>>, cs: Seq<u8>, i: int)
    requires
        plain(g, cs),
        0 <= i,
        i + 4 < g.len(),
    ensures
        data::Gsv::satellite_at(built(g, cs), field_start(g, i) + g[i].len(), i + 4 == g.len() - 1)
            matches Some((e, sat)) && e == field_start(g, i + 4) + g[i + 4].len()
            && <u16 as FromField>::field_rel(g[i + 1], sat.id)
            && <u8 as FromField>::field_rel(g[i + 2], sat.elevation_degrees)
            && <u16 as FromField>::field_rel(g[i + 3], sat.azimuth_degree)
            && <u8 as FromField>::field_rel(g[i + 4], sat.snr),
{
    let b = built(g, cs);
    let s = |k: int| field_start(g, k);
    lemma_next_field(g, cs, i);
    lemma_next_field(g, cs, i + 1);
    lemma_next_field(g, cs, i + 2);
    lemma_next_field(g, cs, i + 3);
    lemma_field_end(g, cs, i + 1, COMMA);
    lemma_field_end(g, cs, i + 2, COMMA);
    lemma_field_end(g, cs, i + 3, COMMA);
    if i + 4 == g.len() - 1 {
        lemma_field_end(g, cs, i + 4, STAR);
    } else {
        lemma_field_end(g, cs, i + 4, COMMA);
    }
    assert(char_at(',', b, s(i) + g[i].len()) == Some(s(i + 1)));
    assert(end_of(Until(COMMA), b, s(i + 1)) == s(i + 1) + g[i + 1].len());
    assert(char_at(',', b, s(i + 1) + g[i + 1].len()) == Some(s(i + 2)));
    assert(end_of(Until(COMMA), b, s(i + 2)) == s(i + 2) + g[i + 2].len());
    assert(char_at(',', b, s(i + 2) + g[i + 2].len()) == Some(s(i + 3)));
    assert(end_of(Until(COMMA), b, s(i + 3)) == s(i + 3) + g[i + 3].len());
    assert(char_at(',', b, s(i + 3) + g[i + 3].len()) == Some(s(i + 4)));
}

/// A TXT line built from the fields `g` (the first being `$` and the
/// sentence's type, then the line count and the line's number) gives the
/// message kind that the number of field 3 names and the text of field 4,
/// the last.
pub proof fn law_txt_line_fields(g: Seq<Seq<u8>>, cs: Seq<u8>)
    requires
        plain(g, cs),
        g.len() == 5,
    ensures
        data::Txt::line_info(built(g, cs), 0) matches Some((e, info)) && info == (
            data::Txt::kind_of(Some(g[3])),
            Some(g[4]),
        ),
{
    let b = built(g, cs);
    lemma_fields(g, cs, 4);
    lemma_field_end(g, cs, 4, STAR);
    let s = |i: int| field_start(g, i);
    assert(until_at(COMMA, b, s(0)) == Some(s(0) + g[0].len()));
    assert(char_at(',', b, s(0) + g[0].len()) == Some(s(1)));
    assert(until_at(COMMA, b, s(1)) == Some(s(1) + g[1].len()));
    assert(char_at(',', b, s(1) + g[1].len()) == Some(s(2)));
    assert(until_at(COMMA, b, s(2)) == Some(s(2) + g[2].len()));
    assert(char_at(',', b, s(2) + g[2].len()) == Some(s(3)));
    assert(end_of(Until(COMMA), b, s(3)) == s(3) + g[3].len());
    assert(char_at(',', b, s(3) + g[3].len()) == Some(s(4)));
}

/// The two decimal digits of a number below 100, tens first.
pub open spec fn two_digits(x: nat) -> Seq<u8> {
    seq![(48 + x / 10) as u8, (48 + x % 10) as u8]
}

/// Two decimal digits read as an integer give their number.
proof fn lemma_two_digits(x: nat, signed: bool, min: int, max: int)
    requires
        x < 100,
        min <= 0,
        99 <= max,
    ensures
        int_from_str(two_digits(x), signed, min, max) == Some(x as int),
        all_digits(two_digits(x)),
{
    let t = two_digits(x);
    assert(t.drop_last() =~= seq![t[0]]);
    assert(seq![t[0]].drop_last() =~= Seq::<u8>::empty());
    reveal_with_fuel(digits_value, 3);
    assert(digits_value(seq![t[0]]) == x / 10);
    assert(digits_value(t) == x);
}

/// A time field written as six digits `hhmmss` gives that hour, minute and
/// second, with no fraction, both to the checksum-checked readers and to the
/// readers that split fields.
pub proof fn law_time_text(h: nat, m: nat, s: nat)
    requires
        h < 24,
        m < 60,
        s < 60,
    ensures
        utc_value(two_digits(h) + two_digits(m) + two_digits(s)) == Some(
            UtcTime { hour: h as u32, minute: m as u32, second: s as u32, nano: 0 },
        ),
        utc_fields(two_digits(h) + two_digits(m) + two_digits(s)) == Ok::<_, ErrorKind>((h, m, s, 0nat)),
{
    let t = two_digits(h) + two_digits(m) + two_digits(s);
    lemma_two_digits(h, false, 0, 4294967295);
    lemma_two_digits(m, false, 0, 4294967295);
    lemma_two_digits(s, false, 0, 4294967295);
    assert(t.subrange(0, 2) =~= two_digits(h));
    assert(t.subrange(2, 4) =~= two_digits(m));
    assert(t.subrange(4, 6) =~= two_digits(s));
    assert forall|j: int| 0 <= j < t.len() implies t[j] != 46 by {
        if j < 2 {
            assert(t[j] == two_digits(h)[j]);
        } else if j < 4 {
            assert(t[j] == two_digits(m)[j - 2]);
        } else {
            assert(t[j] == two_digits(s)[j - 4]);
        }
    }
    lemma_find_none(t, 46, 0);
    let z = seq![48u8];
    reveal_with_fuel(find2_from, 2);
    assert(find2_from(z, 101, 69, 0) is None);
    reveal_with_fuel(digits_value, 2);
    assert(z.drop_last() =~= Seq::<u8>::empty());
    assert(digits_value(z) == 0);
    assert(frac_nanos(z) == 0);
}

/// A date field written as six digits `ddmmyy` gives that day and month of
/// the year `2000 + yy`, when that date exists.
pub proof fn law_date_text(d: nat, mo: nat, y: nat)
    requires
        y < 100,
        date_valid(2000 + y as int, mo, d),
    ensures
        date_value(two_digits(d) + two_digits(mo) + two_digits(y)) == Some(
            Date { year: (2000 + y) as i32, month: mo as u32, day: d as u32 },
        ),
{
    let t = two_digits(d) + two_digits(mo) + two_digits(y);
    assert(d <= 31);
    lemma_two_digits(d, false, 0, 4294967295);
    lemma_two_digits(mo, false, 0, 4294967295);
    lemma_two_digits(y, true, -2147483648, 2147483647);
    assert(t.subrange(0, 2) =~= two_digits(d));
    assert(t.subrange(2, 4) =~= two_digits(mo));
    assert(t.subrange(4, 6) =~= two_digits(y));
}

/// Where the two commas after a number field `n` and a letter field `h`
/// are.
proof fn lemma_pair_text(n: Seq<u8>, h: Seq<u8>, rest: Seq<u8>)
    requires
        !n.contains(COMMA),
        !h.contains(COMMA),
    ensures
        two_commas(n + seq![COMMA] + h + seq![COMMA] + rest) == Some(
            (n.len() as int, n.len() + 1 + h.len() as int),
        ),
        (n + seq![COMMA] + h + seq![COMMA] + rest).take(n.len() as int) == n,
        (n + seq![COMMA] + h + seq![COMMA] + rest).subrange(
            n.len() + 1 as int,
            n.len() + 1 + h.len() as int,
        ) == h,
{
    let t = n + seq![COMMA] + h + seq![COMMA] + rest;
    let c1 = n.len() as int;
    let c2 = n.len() + 1 + h.len() as int;
    assert forall|j: int| 0 <= j < c1 implies t[j] != COMMA by {
        assert(t[j] == n[j]);
        assert(n.contains(n[j]));
    }
    assert(t[c1] == COMMA);
    crate::text::lemma_find_unique(t, COMMA, 0, c1);
    assert forall|j: int| c1 + 1 <= j < c2 implies t[j] != COMMA by {
        assert(t[j] == h[j - c1 - 1]);
        assert(h.contains(h[j - c1 - 1]));
    }
    assert(t[c2] == COMMA);
    crate::text::lemma_find_unique(t, COMMA, c1 + 1, c2);
    assert(t.take(c1) =~= n);
    assert(t.subrange(c1 + 1, c2) =~= h);
}

/// On a number field `n`, a comma, a letter field `h` and a comma, the
/// degree rule matches exactly when `n` is a number and `h` a hemisphere
/// letter; it takes both fields, and reads the number `n`, negative exactly
/// when `h` is `S` or `W`.
pub proof fn law_degree_sign(n: Seq<u8>, h: Seq<u8>, rest: Seq<u8>, out: SignedDegrees)
    requires
        !n.contains(COMMA),
        !h.contains(COMMA),
    ensures
        NmeaDegree().spec_matches(n + seq![COMMA] + h + seq![COMMA] + rest) <==> is_f64_literal(n)
            && hemisphere_letter(h),
        NmeaDegree().spec_consumed(n + seq![COMMA] + h + seq![COMMA] + rest) == n.len() + 1
            + h.len(),
        NmeaDegree().spec_output(n + seq![COMMA] + h + seq![COMMA] + rest, out) ==> out.degrees@
            == n && (out.negative <==> negative_letter(h)),
{
    lemma_pair_text(n, h, rest);
    lemma_letter_sign(h);
}

/// On a number field `n`, a comma, a letter field `h` and a comma, the
/// coordinate rule matches exactly when `n` is a number and `h` a hemisphere
/// letter; it takes both fields, and reads the number `n`, negative exactly
/// when `h` is `S` or `W`.
pub proof fn law_coordinate_sign(n: Seq<u8>, h: Seq<u8>, rest: Seq<u8>, out: PackedCoordinate)
    requires
        !n.contains(COMMA),
        !h.contains(COMMA),
    ensures
        NmeaCoord().spec_matches(n + seq![COMMA] + h + seq![COMMA] + rest) <==> is_f64_literal(n)
            && hemisphere_letter(h),
        NmeaCoord().spec_consumed(n + seq![COMMA] + h + seq![COMMA] + rest) == n.len() + 1
            + h.len(),
        NmeaCoord().spec_output(n + seq![COMMA] + h + seq![COMMA] + rest, out) ==> out.ddmm@ == n
            && (out.negative <==> negative_letter(h)),
{
    lemma_pair_text(n, h, rest);
    lemma_letter_sign(h);
}

/// `o` is the value of field `i` of `ps`, read as a `T`: nothing when the
/// field is missing or empty, else the value its text reads as.
pub open spec fn value_at<T: FromField>(ps: Seq<Seq<u8>>, i: int, o: Option<T>) -> bool {
    if i >= ps.len() || ps[i].len() == 0 {
        o is None
    } else {
        o is Some && T::field_rel(ps[i], o)
    }
}

/// `o` is the time of field `i` of `ps`: nothing when the field is missing,
/// else its time of day on some valid date.
pub open spec fn time_at(ps: Seq<Seq<u8>>, i: int, o: Option<UtcDateTime>) -> bool {
    if i >= ps.len() {
        o is None
    } else {
        utc_fields(ps[i]) matches Ok(x) && o matches Some(dt) && dt.time == NmeaParser::time_of(x)
            && dt.date.valid()
    }
}

/// `o` is the coordinate of the number field `i` and the hemisphere field
/// `j`, whose whole degrees take `w` bytes: nothing when a field is missing,
/// else the degrees and minutes of field `i`, negative when field `j` is
/// `neg` in upper case.
pub open spec fn coordinate_at(
    ps: Seq<Seq<u8>>,
    i: int,
    j: int,
    w: int,
    neg: Seq<char>,
    o: Option<SplitCoordinate>,
) -> bool {
    if i >= ps.len() || j >= ps.len() {
        o is None
    } else {
        o matches Some(c) && c.degrees@ == ps[i].take(w) && c.minutes@ == ps[i].skip(w) && (
        c.negative <==> uppercase(decode_utf8(ps[j])) == neg)
    }
}

/// Read field by field, a DHV sentence gives the time of field 1 and the
/// five speeds of fields 2 to 6, in the order 3D, X, Y, Z, ground.
pub proof fn law_dhv_positions(b: Seq<u8>, ns: NavigationSystem, d: fields::Dhv)
    requires
        fields::Dhv::spec_parse(b, ns, Ok(d)),
    ensures
        d.navigation_system == ns,
        time_at(fields_of(b), 1, d.utc_time),
        value_at(fields_of(b), 2, d.speed3d),
        value_at(fields_of(b), 3, d.speed_x),
        value_at(fields_of(b), 4, d.speed_y),
        value_at(fields_of(b), 5, d.speed_z),
        value_at(fields_of(b), 6, d.gdspd),
{
}

/// Read field by field, a GLL sentence gives the latitude of fields 1 and 2,
/// the longitude of fields 3 and 4, the time of field 5, the status of field
/// 6 and the mode of field 7.
pub proof fn law_gll_positions(b: Seq<u8>, ns: NavigationSystem, d: fields::Gll)
    requires
        fields::Gll::spec_parse(b, ns, Ok(d)),
    ensures
        d.navigation_system == ns,
        coordinate_at(fields_of(b), 1, 2, 2, "S"@, d.lat),
        coordinate_at(fields_of(b), 3, 4, 3, "W"@, d.lon),
        time_at(fields_of(b), 5, d.utc_time),
        value_at(fields_of(b), 6, d.data_valid),
        value_at(fields_of(b), 7, d.faa_mode),
{
}

/// Read field by field, a VTG sentence gives the true course of field 1 (the
/// one followed by `T`), the magnetic course of field 3 (followed by `M`),
/// the speed in knots of field 5 and in km/h of field 7, and the mode of
/// field 9.
pub proof fn law_vtg_positions(b: Seq<u8>, ns: NavigationSystem, d: fields::Vtg)
    requires
        fields::Vtg::spec_parse(b, ns, Ok(d)),
    ensures
        d.navigation_system == ns,
        value_at(fields_of(b), 1, d.course_over_ground_true),
        value_at(fields_of(b), 3, d.course_over_ground_magnetic),
        value_at(fields_of(b), 5, d.speed_over_ground_knots),
        value_at(fields_of(b), 7, d.speed_over_ground_kph),
        value_at(fields_of(b), 9, d.mode),
{
}

/// Read field by field, a ZDA sentence gives the time of field 1, the day,
/// month and year of fields 2 to 4 and the zone's hours and minutes of fields
/// 5 and 6.
pub proof fn law_zda_positions(b: Seq<u8>, ns: NavigationSystem, d: fields::Zda)
    requires
        fields::Zda::spec_parse(b, ns, Ok(d)),
    ensures
        d.navigation_system == ns,
        time_at(fields_of(b), 1, d.utc_time),
        value_at(fields_of(b), 2, d.day),
        value_at(fields_of(b), 3, d.month),
        value_at(fields_of(b), 4, d.year),
        value_at(fields_of(b), 5, d.local_zone_description),
        value_at(fields_of(b), 6, d.local_zone_minutes_description),
{
}

/// Read field by field, a GSA sentence gives the selection mode of field 1,
/// the kind of fix of field 2, the IDs of fields 3 to 14, the position,
/// horizontal and vertical dilutions of fields 15 to 17 and the system of
/// field 18.
pub proof fn law_gsa_positions(b: Seq<u8>, ns: NavigationSystem, d: fields::Gsa)
    requires
        fields::Gsa::spec_parse(b, ns, Ok(d)),
    ensures
        d.navigation_system == ns,
        value_at(fields_of(b), 1, d.selection_mode),
        value_at(fields_of(b), 2, d.mode),
        d.satellite_ids@ == fields::id_values(fields_of(b), 3, 15),
        value_at(fields_of(b), 15, d.pdop),
        value_at(fields_of(b), 16, d.hdop),
        value_at(fields_of(b), 17, d.vdop),
        value_at(fields_of(b), 18, d.system_id),
{
}

/// Read field by field, a GGA sentence gives the time of field 1, the
/// latitude of fields 2 and 3, the longitude of fields 4 and 5, the quality
/// of field 6, the dilution of field 8, the altitude of field 9, the geoidal
/// separation of field 11, the age of the differential data of field 13 and
/// the station of field 14.
pub proof fn law_gga_positions(b: Seq<u8>, ns: NavigationSystem, d: fields::Gga)
    requires
        fields::Gga::spec_parse(b, ns, Ok(d)),
    ensures
        d.navigation_system == ns,
        time_at(fields_of(b), 1, d.utc_time),
        coordinate_at(fields_of(b), 2, 3, 2, "S"@, d.lat),
        coordinate_at(fields_of(b), 4, 5, 3, "W"@, d.lon),
        value_at(fields_of(b), 6, d.quality),
        value_at(fields_of(b), 8, d.hdop),
        value_at(fields_of(b), 9, d.altitude),
        value_at(fields_of(b), 11, d.geoid_separation),
        value_at(fields_of(b), 13, d.age_of_differential_gps_data),
        value_at(fields_of(b), 14, d.differential_reference_station_id),
{
}

} // verus!
