use rax_nmea::data::{
    Dhv, FaaMode, Gbs, Gga, GgaQualityIndicator, Gll, Gns, Grs, GrsResidualMode, Gsa, GsaMode,
    GsaSelectionMode, Gst, Gsv, Rmc, Status, Talker, Txt, Vtg, Zda,
};
use rax_nmea::error::ParseError;
use rax_nmea::fields;
use rax_nmea::generic::{get_sentence_parts, NavigationSystem, NmeaParser};
use rax_nmea::nmea_data;
use rax_nmea::number::FloatLiteral;
use rax_nmea::rules::{PackedCoordinate, SignedDegrees};
use rax_nmea::str_parser::StrParserContext;

/// The value `f64::from_str` gives for a number field's text.
fn value(x: &FloatLiteral) -> f64 {
    x.as_str().parse::<f64>().unwrap()
}

/// Degrees of a `ddmm.mmmm` coordinate, computed in `f64` as NMEA readers do.
fn degrees(c: &PackedCoordinate) -> f64 {
    let v = value(&c.ddmm);
    let deg = (v / 100.0).floor();
    let min = v - deg * 100.0;
    let r = deg + min / 60.0;
    if c.negative {
        -r
    } else {
        r
    }
}

fn signed(d: &SignedDegrees) -> f64 {
    let v = value(&d.degrees);
    if d.negative {
        -v
    } else {
        v
    }
}

/// Equal within one machine epsilon or four units in the last place.
fn approx_eq(a: f64, b: f64) -> bool {
    if a == b || (a - b).abs() <= f64::EPSILON {
        return true;
    }
    if a.is_sign_positive() != b.is_sign_positive() {
        return false;
    }
    let ia = a.to_bits() as i64;
    let ib = b.to_bits() as i64;
    (ia - ib).abs() <= 4
}

#[test]
fn dhv_test_new_dhv() -> Result<(), ParseError> {
    let s = "$GNDHV,021150.000,0.03,0.006,-0.042,-0.026,0.06*65";
    let mut ctx = StrParserContext::new();
    let dhv = Dhv::new(ctx.init(s.to_string()), Talker::GN)?;
    println!("{:?}", dhv);
    assert_eq!(dhv.talker, Talker::GN);
    assert!(dhv.utc_time.unwrap().to_string().contains("02:11:50"));
    assert_eq!(value(&dhv.speed3d.unwrap()), 0.03);
    assert_eq!(value(&dhv.speed_x.unwrap()), 0.006);
    assert_eq!(value(&dhv.speed_y.unwrap()), -0.042);
    assert_eq!(value(&dhv.speed_z.unwrap()), -0.026);
    assert_eq!(value(&dhv.gdspd.unwrap()), 0.06);

    // without the checksum check
    let mut ctx = StrParserContext::new();
    let dhv = nmea_data::Dhv::new(ctx.init(s.to_string()), Talker::GN)?;
    println!("{:?}", dhv);

    // field by field
    for (i, v) in get_sentence_parts(s).iter().enumerate() {
        println!("{i}:{v}");
    }
    let dhv = fields::Dhv::parse_sentence(s, NavigationSystem::GN)?;
    println!("{:?}", dhv);
    assert!(dhv.is_valid);

    // field by field, for the navigation system the sentence names
    let dhv = fields::new_dhv(s)?;
    println!("{:?}", dhv);
    assert!(dhv.is_valid);
    assert_eq!(dhv.navigation_system, NavigationSystem::GN);
    Ok(())
}

#[test]
fn test_gbs() {
    let s = "$GPGBS,125027,23.43,M,13.91,M,34.01,M*07";
    let mut ctx = StrParserContext::new();
    let gbs = Gbs::new(ctx.init(s.to_string()), Talker::GP).unwrap();
    println!("{gbs:?}");
    assert_eq!(gbs.talker, Talker::GP);
    assert!(gbs.utc_time.unwrap().to_string().contains("12:50:27"));
    assert_eq!(value(&gbs.latitude_error.unwrap()), 23.43);
    assert_eq!(value(&gbs.altitude_error.unwrap()), 13.91);
    assert_eq!(value(&gbs.missed_detection_probability.unwrap()), 34.01);
}

#[test]
fn gga_test_new_gga1() -> Result<(), ParseError> {
    let s = "$GPGGA,110256,5505.676996,N,03856.028884,E,2,08,0.7,2135.0,M,14.0,M,,*7D";
    let mut ctx = StrParserContext::new();
    let gga = Gga::new(ctx.init(s.to_string()), Talker::GN)?;
    println!("{:?}", gga);
    assert_eq!(gga.talker, Talker::GN);
    assert!(gga.utc_time.unwrap().to_string().contains("11:02:56"));
    assert!(approx_eq(degrees(&gga.lat.unwrap()), 55.0946166));
    assert!(approx_eq(degrees(&gga.lon.unwrap()), 38.93381473333333));
    assert_eq!(gga.quality.unwrap(), GgaQualityIndicator::DifferentialGpsFix);
    assert_eq!(gga.satellite_count.unwrap(), 8);
    assert!(approx_eq(value(&gga.hdop.unwrap()), 0.7));
    assert!(approx_eq(value(&gga.altitude.unwrap()), 2135.0));
    assert!(approx_eq(value(&gga.geoid_separation.unwrap()), 14.0));
    assert!(gga.age_of_differential_gps_data.is_none());
    assert!(gga.differential_reference_station_id.is_none());

    // without the checksum check
    let s = "$GPGGA,123519,4807.038,N,01131.000,E,1,08,0.9,545.4,M,46.9,M,,*47";
    let mut ctx = StrParserContext::new();
    let gga = nmea_data::Gga::new(ctx.init(s.to_string()), Talker::GN)?;
    println!("{:?}", gga);
    Ok(())
}

#[test]
fn gll_test_new_ggl() -> Result<(), ParseError> {
    let s = "$GPGLL,2959.9925,S,12000.0090,E,235316.000,A,A*4E";
    let mut ctx = StrParserContext::new();
    let gll = Gll::new(ctx.init(s.to_string()), Talker::GN)?;
    println!("{:?}", gll);
    assert_eq!(gll.talker, Talker::GN);
    assert!(approx_eq(degrees(&gll.lat.unwrap()), -29.999874999999996));
    assert!(approx_eq(degrees(&gll.lon.unwrap()), 120.00015));
    assert!(gll.utc_time.unwrap().to_string().contains("23:53:16"));
    assert_eq!(gll.data_valid.unwrap(), Status::Valid);
    assert_eq!(gll.faa_mode.unwrap(), FaaMode::Autonomous);

    // field by field
    for (i, v) in get_sentence_parts(s).iter().enumerate() {
        println!("{i}:{v}");
    }
    let gll = fields::Gll::parse_sentence(s, NavigationSystem::GN)?;
    println!("{:?}", gll);
    assert!(gll.is_valid);
    Ok(())
}

#[test]
fn test_gns_parsing1() -> Result<(), ParseError> {
    let s = "$GPGNS,112257.00,3844.24011,N,00908.43828,W,AN,03,10.5,,*57";
    let mut ctx = StrParserContext::new();
    let gns = Gns::new(ctx.init(s.to_string()), Talker::GN)?;
    println!("{:?}", gns);
    assert_eq!(gns.talker, Talker::GN);
    assert!(gns.utc_time.unwrap().to_string().contains("11:22:57"));
    assert_eq!(degrees(gns.latitude.as_ref().unwrap()), 38.73733516666667);
    assert_eq!(degrees(gns.longitude.as_ref().unwrap()), -9.140638);
    assert_eq!(gns.mode, [FaaMode::Autonomous, FaaMode::NotValid]);
    assert_eq!(gns.satellites.unwrap(), 3);
    assert_eq!(value(gns.hdop.as_ref().unwrap()), 10.5);
    assert!(gns.altitude.is_none());
    assert!(gns.goeidal_separation.is_none());
    assert!(gns.differential_data_age.is_none());
    assert!(gns.differential_reference_station_id.is_none());
    Ok(())
}

#[test]
fn test_gns_parsing2() -> Result<(), ParseError> {
    let s = "$GNGNS,181604.00,,,,,NN,00,99.99,,,,*59";
    let mut ctx = StrParserContext::new();
    let gns = Gns::new(ctx.init(s.to_string()), Talker::GN)?;
    println!("{:?}", gns);
    assert_eq!(gns.talker, Talker::GN);
    assert!(gns.utc_time.unwrap().to_string().contains("18:16:04"));
    assert!(gns.latitude.is_none());
    assert!(gns.longitude.is_none());
    assert_eq!(gns.mode, [FaaMode::NotValid, FaaMode::NotValid]);
    assert_eq!(gns.satellites.unwrap(), 0);
    assert!(approx_eq(value(gns.hdop.as_ref().unwrap()), 99.99));
    assert!(gns.altitude.is_none());
    assert!(gns.goeidal_separation.is_none());
    assert!(gns.differential_data_age.is_none());
    assert!(gns.differential_reference_station_id.is_none());
    assert!(gns.navigational_status.is_none());
    Ok(())
}

#[test]
fn test_grs() -> Result<(), ParseError> {
    let input = "$GPGRS,220320.0,0,-0.8,-0.2,-0.1,-0.2,0.8,0.6,,,,,,,*55";
    let mut ctx = StrParserContext::new();
    let grs = Grs::new(ctx.init(input.to_string()), Talker::GP)?;
    println!("{:?}", grs);
    assert_eq!(grs.talker, Talker::GP);
    assert!(grs.utc_time.unwrap().to_string().contains("22:03:20"));
    assert_eq!(grs.grs_residual_mode.unwrap(), GrsResidualMode::UsedInGga);
    assert_eq!(grs.satellite_residuals.len(), 6);
    assert!(approx_eq(value(&grs.satellite_residuals[0]), -0.8));
    assert!(approx_eq(value(&grs.satellite_residuals[1]), -0.2));
    assert!(approx_eq(value(&grs.satellite_residuals[2]), -0.1));
    assert!(approx_eq(value(&grs.satellite_residuals[3]), -0.2));
    assert!(approx_eq(value(&grs.satellite_residuals[4]), 0.8));
    assert!(approx_eq(value(&grs.satellite_residuals[5]), 0.6));
    assert!(grs.system_id.is_none());
    assert!(grs.signal_id.is_none());
    Ok(())
}

#[test]
fn gsa_test_new_gsa() -> Result<(), ParseError> {
    let s = "$GNGSA,A,3,05,07,13,14,15,17,19,23,24,,,,1.0,0.7,0.7,1*38";
    let mut ctx = StrParserContext::new();
    let gsa = Gsa::new(ctx.init(s.to_string()), Talker::GN)?;
    println!("{:?}", gsa);
    assert_eq!(gsa.talker, Talker::GN);
    assert_eq!(gsa.selection_mode.unwrap(), GsaSelectionMode::Automatic);
    assert_eq!(gsa.mode.unwrap(), GsaMode::Fix3D);
    assert_eq!(gsa.satellite_ids, vec![5, 7, 13, 14, 15, 17, 19, 23, 24]);
    assert!(approx_eq(value(gsa.pdop.as_ref().unwrap()), 1.0));
    assert!(approx_eq(value(gsa.hdop.as_ref().unwrap()), 0.7));
    assert!(approx_eq(value(gsa.vdop.as_ref().unwrap()), 0.7));

    // field by field
    let s = "$GNGSA,A,3,80,71,73,79,69,,,,,,,,1.83,1.09,1.47*17";
    for (i, v) in get_sentence_parts(s).iter().enumerate() {
        println!("{i}:{v}");
    }
    let gsa = fields::Gsa::parse_sentense(s, NavigationSystem::GN)?;
    println!("{:?}", gsa);
    assert!(gsa.is_valid);

    // field by field, for the navigation system the sentence names
    let gsa = NmeaParser::new_gsa(s)?;
    println!("{:?}", gsa);
    assert!(gsa.is_valid);
    assert_eq!(gsa.satellite_ids, vec![80, 71, 73, 79, 69]);
    Ok(())
}

#[test]
fn test_new_gst() -> Result<(), ParseError> {
    let s = "$GPGST,182141.000,15.5,15.3,7.2,21.8,0.9,0.5,0.8*54";
    let mut ctx = StrParserContext::new();
    let vtg = Gst::new(ctx.init(s.to_string()), Talker::GN)?;
    println!("{:?}", vtg);
    Ok(())
}

#[test]
fn test_new_gsv() -> Result<(), ParseError> {
    let s = "$GPGSV,3,1,10,25,68,053,47,21,59,306,49,29,56,161,49,31,36,265,49*79\r\n$GPGSV,3,2,10,12,29,048,49,05,22,123,49,18,13,000,49,01,00,000,49*72\r\n$GPGSV,3,3,10,14,00,000,03,16,00,000,27*7C";
    let mut ctx = StrParserContext::new();
    let gsv = Gsv::new(ctx.init(s.to_string()), Talker::GP)?;
    println!("{:?}", gsv);
    assert_eq!(gsv.talker, Talker::GP);
    assert_eq!(gsv.satellites.len(), 10);
    // line 1
    assert_eq!(gsv.satellites[0].id, Some(25));
    assert_eq!(gsv.satellites[0].elevation_degrees, Some(68));
    assert_eq!(gsv.satellites[0].azimuth_degree, Some(53));
    assert_eq!(gsv.satellites[0].snr, Some(47));
    assert_eq!(gsv.satellites[1].id, Some(21));
    assert_eq!(gsv.satellites[1].elevation_degrees, Some(59));
    assert_eq!(gsv.satellites[1].azimuth_degree, Some(306));
    assert_eq!(gsv.satellites[1].snr, Some(49));
    assert_eq!(gsv.satellites[2].id, Some(29));
    assert_eq!(gsv.satellites[2].elevation_degrees, Some(56));
    assert_eq!(gsv.satellites[2].azimuth_degree, Some(161));
    assert_eq!(gsv.satellites[2].snr, Some(49));
    assert_eq!(gsv.satellites[3].id, Some(31));
    assert_eq!(gsv.satellites[3].elevation_degrees, Some(36));
    assert_eq!(gsv.satellites[3].azimuth_degree, Some(265));
    assert_eq!(gsv.satellites[3].snr, Some(49));
    // line 2
    assert_eq!(gsv.satellites[4].id, Some(12));
    assert_eq!(gsv.satellites[4].elevation_degrees, Some(29));
    assert_eq!(gsv.satellites[4].azimuth_degree, Some(48));
    assert_eq!(gsv.satellites[4].snr, Some(49));
    assert_eq!(gsv.satellites[5].id, Some(5));
    assert_eq!(gsv.satellites[5].elevation_degrees, Some(22));
    assert_eq!(gsv.satellites[5].azimuth_degree, Some(123));
    assert_eq!(gsv.satellites[5].snr, Some(49));
    assert_eq!(gsv.satellites[6].id, Some(18));
    assert_eq!(gsv.satellites[6].elevation_degrees, Some(13));
    assert_eq!(gsv.satellites[6].azimuth_degree, Some(0));
    assert_eq!(gsv.satellites[6].snr, Some(49));
    assert_eq!(gsv.satellites[7].id, Some(1));
    assert_eq!(gsv.satellites[7].elevation_degrees, Some(0));
    assert_eq!(gsv.satellites[7].azimuth_degree, Some(0));
    assert_eq!(gsv.satellites[7].snr, Some(49));
    // line 3
    assert_eq!(gsv.satellites[8].id, Some(14));
    assert_eq!(gsv.satellites[8].elevation_degrees, Some(0));
    assert_eq!(gsv.satellites[8].azimuth_degree, Some(0));
    assert_eq!(gsv.satellites[8].snr, Some(3));
    assert_eq!(gsv.satellites[9].id, Some(16));
    assert_eq!(gsv.satellites[9].elevation_degrees, Some(0));
    assert_eq!(gsv.satellites[9].azimuth_degree, Some(0));
    assert_eq!(gsv.satellites[9].snr, Some(27));
    Ok(())
}

#[test]
fn test_new_gsv_4() -> Result<(), ParseError> {
    let s = "$GPGSV,1,1,4,02,35,291,,03,09,129,,05,14,305,,06,38,226,*4E";
    let mut ctx = StrParserContext::new();
    let gsv = Gsv::new(ctx.init(s.to_string()), Talker::GP)?;
    println!("{:?}", gsv);
    assert_eq!(gsv.talker, Talker::GP);
    assert_eq!(gsv.satellites.len(), 4);
    assert_eq!(gsv.satellites[0].id, Some(2));
    assert_eq!(gsv.satellites[0].elevation_degrees, Some(35));
    assert_eq!(gsv.satellites[0].azimuth_degree, Some(291));
    assert!(gsv.satellites[0].snr.is_none());
    assert_eq!(gsv.satellites[1].id, Some(3));
    assert_eq!(gsv.satellites[1].elevation_degrees, Some(9));
    assert_eq!(gsv.satellites[1].azimuth_degree, Some(129));
    assert!(gsv.satellites[1].snr.is_none());
    assert_eq!(gsv.satellites[2].id, Some(5));
    assert_eq!(gsv.satellites[2].elevation_degrees, Some(14));
    assert_eq!(gsv.satellites[2].azimuth_degree, Some(305));
    assert!(gsv.satellites[2].snr.is_none());
    assert_eq!(gsv.satellites[3].id, Some(6));
    assert_eq!(gsv.satellites[3].elevation_degrees, Some(38));
    assert_eq!(gsv.satellites[3].azimuth_degree, Some(226));
    assert!(gsv.satellites[3].snr.is_none());
    Ok(())
}

#[test]
fn test_new_gsv_3() -> Result<(), ParseError> {
    let s = "$GPGSV,1,1,3,02,35,291,,03,09,129,,05,14,305,*72";
    let mut ctx = StrParserContext::new();
    let gsv = Gsv::new(ctx.init(s.to_string()), Talker::GP)?;
    println!("{:?}", gsv);
    assert_eq!(gsv.talker, Talker::GP);
    assert_eq!(gsv.satellites.len(), 3);
    assert_eq!(gsv.satellites[0].id, Some(2));
    assert_eq!(gsv.satellites[0].elevation_degrees, Some(35));
    assert_eq!(gsv.satellites[0].azimuth_degree, Some(291));
    assert!(gsv.satellites[0].snr.is_none());
    assert_eq!(gsv.satellites[1].id, Some(3));
    assert_eq!(gsv.satellites[1].elevation_degrees, Some(9));
    assert_eq!(gsv.satellites[1].azimuth_degree, Some(129));
    assert!(gsv.satellites[1].snr.is_none());
    assert_eq!(gsv.satellites[2].id, Some(5));
    assert_eq!(gsv.satellites[2].elevation_degrees, Some(14));
    assert_eq!(gsv.satellites[2].azimuth_degree, Some(305));
    assert!(gsv.satellites[2].snr.is_none());
    Ok(())
}

#[test]
fn test_new_gsv_0() -> Result<(), ParseError> {
    let s = "$GPGSV,1,1,0,*65";
    let mut ctx = StrParserContext::new();
    let gsv = Gsv::new(ctx.init(s.to_string()), Talker::GP)?;
    println!("{:?}", gsv);
    assert_eq!(gsv.talker, Talker::GP);
    assert_eq!(gsv.satellites.len(), 0);
    Ok(())
}

#[test]
fn test_new_rmc1() -> Result<(), ParseError> {
    let s = "$GPRMC,110125,A,5505.337580,N,03858.653666,E,148.8,84.6,310317,8.9,E,D*2E";
    let mut ctx = StrParserContext::new();
    let rmc = Rmc::new(ctx.init(s.to_string()), Talker::GN)?;
    println!("{:?}", rmc);
    assert_eq!(rmc.talker, Talker::GN);
    assert!(rmc.utc_time.unwrap().to_string().contains("11:01:25"));
    assert_eq!(rmc.status.unwrap(), Status::Valid);
    assert!(approx_eq(degrees(rmc.latitude.as_ref().unwrap()), 55.088959666666675));
    assert!(approx_eq(degrees(rmc.longitude.as_ref().unwrap()), 38.9775611));
    assert!(approx_eq(value(rmc.speed_over_ground.as_ref().unwrap()), 148.8));
    assert!(approx_eq(value(rmc.track_made_good.as_ref().unwrap()), 84.6));
    assert_eq!(rmc.date.unwrap().to_string(), "2017-03-31");
    assert!(approx_eq(signed(rmc.magnetic_variation.as_ref().unwrap()), 8.9));
    assert_eq!(rmc.faa_mode.unwrap(), FaaMode::Differential);
    Ok(())
}

#[test]
fn test_new_rmc2() -> Result<(), ParseError> {
    let s = "$GPRMC,,V,,,,,,,,,,N*53";
    let mut ctx = StrParserContext::new();
    let rmc = Rmc::new(ctx.init(s.to_string()), Talker::GN)?;
    println!("{:?}", rmc);
    assert_eq!(rmc.talker, Talker::GN);
    assert!(rmc.utc_time.is_none());
    assert_eq!(rmc.status, Some(Status::Invalid));
    assert!(rmc.latitude.is_none());
    assert!(rmc.longitude.is_none());
    assert!(rmc.speed_over_ground.is_none());
    assert!(rmc.track_made_good.is_none());
    assert!(rmc.date.is_none());
    assert!(rmc.magnetic_variation.is_none());
    assert_eq!(rmc.faa_mode, Some(FaaMode::NotValid));
    Ok(())
}

#[test]
fn txt_test_new_zda() -> Result<(), ParseError> {
    let s = "$GPTXT,03,01,02,MA=CASIC*25\r\n$GPTXT,03,02,02,IC=ATGB03+ATGR201*70\r\n$GPTXT,03,03,02,SW=URANUS2,V2.2.1.0*1D";
    let mut ctx = StrParserContext::new();
    let txt = Txt::new(ctx.init(s.to_string()), Talker::GP)?;
    println!("{:?}", txt);
    Ok(())
}

#[test]
fn vtg_test_new_vtg() -> Result<(), ParseError> {
    let s = "$GPVTG,83.7,T,83.7,M,146.3,N,271.0,K,D*22";
    let mut ctx = StrParserContext::new();
    let vtg = Vtg::new(ctx.init(s.to_string()), Talker::GN)?;
    println!("{:?}", vtg);
    assert_eq!(vtg.talker, Talker::GN);
    assert!(approx_eq(value(vtg.course_over_ground_true.as_ref().unwrap()), 83.7));
    assert!(approx_eq(value(vtg.course_over_ground_magnetic.as_ref().unwrap()), 83.7));
    assert!(approx_eq(value(vtg.speed_over_ground_knots.as_ref().unwrap()), 146.3));
    assert!(approx_eq(value(vtg.speed_over_ground_kph.as_ref().unwrap()), 271.0));
    assert_eq!(vtg.mode.unwrap(), FaaMode::Differential);

    // field by field
    let s = "$GPVTG,220.86,T,,M,2.550,N,4.724,K,A*34";
    for (i, v) in get_sentence_parts(s).iter().enumerate() {
        println!("{i}:{v}");
    }
    let vtg = fields::Vtg::parse_sentense(s, NavigationSystem::GN)?;
    println!("{:?}", vtg);
    assert!(vtg.is_valid);

    // field by field, for the navigation system the sentence names
    let vtg = fields::new_vtg(s)?;
    println!("{:?}", vtg);
    assert!(vtg.is_valid);
    assert_eq!(vtg.navigation_system, NavigationSystem::GP);
    Ok(())
}

#[test]
fn zda_test_new_zda() -> Result<(), ParseError> {
    let s = "$GPZDA,160012.71,11,03,2004,-1,00*7D";
    let mut ctx = StrParserContext::new();
    let zda = Zda::new(ctx.init(s.to_string()), Talker::GN)?;
    println!("{:?}", zda);
    assert!(zda.utc_time.unwrap().to_string().contains("16:00:12.71"));
    assert_eq!(zda.day.unwrap(), 11);
    assert_eq!(zda.month.unwrap(), 3);
    assert_eq!(zda.year.unwrap(), 2004);
    assert_eq!(zda.local_zone_description.unwrap(), -1);
    assert_eq!(zda.local_zone_minutes_description.unwrap(), 0);

    // without the checksum check
    let mut ctx = StrParserContext::new();
    let zda = nmea_data::Zda::new(ctx.init(s.to_string()), Talker::GN)?;
    println!("{:?}", zda);

    // field by field
    for (i, v) in get_sentence_parts(s).iter().enumerate() {
        println!("{i}:{v}");
    }
    let zda = fields::Zda::parse_sentense(s, NavigationSystem::GN)?;
    println!("{:?}", zda);
    assert!(zda.is_valid);
    Ok(())
}
