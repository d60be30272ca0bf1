use rax_nmea::data::{GgaQualityIndicator, Talker};
use rax_nmea::generic::{NavigationSystem, Nmea0183, NmeaParser, SplitCoordinate};
use rax_nmea::error::ParseError;
use rax_nmea::nmea_data::{Gga, Rmc};
use rax_nmea::str_parser::StrParserContext;

#[test]
fn test_new_rmc() -> Result<(), ParseError> {
    let s = "$GPRMC,235316.000,A,2959.9925,S,12000.0090,E,0.009,75.020,020711,,,A*45";
    let mut ctx = StrParserContext::new();
    let zda = Rmc::new(ctx.init(s.to_string()), Talker::GN)?;
    println!("{:?}", zda);
    Ok(())
}

#[test]
fn test_new_gga2() -> Result<(), ParseError> {
    let s = "$GNGGA,130301.000,,,,,0,00,25.5,,,,,,*7A";
    let mut ctx = StrParserContext::new();
    let gga = Gga::new(ctx.init(s.to_string()), Talker::GN)?;
    println!("{:?}", gga);
    Ok(())
}

#[test]
fn enums_test_nmea0813() -> Result<(), ParseError> {
    //valid
    assert_eq!(Nmea0183::try_from("$BDGGA")?, Nmea0183::GGA);
    //other
    assert_eq!(Nmea0183::try_from("$BDunknown")?, Nmea0183::Other("unknown".to_string()));
    //invalid
    assert!(Nmea0183::try_from("").is_err());
    Ok(())
}

#[test]
fn nmea0183_test_nmea0813() -> Result<(), ParseError> {
    //valid
    assert_eq!(Nmea0183::try_from("$BDGGA")?, Nmea0183::GGA);
    //other
    assert_eq!(Nmea0183::try_from("$BDunknown")?, Nmea0183::Other("unknown".to_string()));
    //invalid
    assert!(Nmea0183::try_from("").is_err());
    assert!(Nmea0183::try_from("$").is_err());
    Ok(())
}

fn split_degrees(c: &SplitCoordinate) -> f64 {
    let deg = c.degrees.as_str().parse::<f64>().unwrap();
    let min = c.minutes.as_str().parse::<f64>().unwrap();
    let v = deg + min / 60.0;
    if c.negative {
        -v
    } else {
        v
    }
}

#[test]
fn parser_test_parse_hhmmss_fractional() -> Result<(), ParseError> {
    let inputs = ["235959", "235959.1", "235959.12", "235959.123456789"];
    for i in 0..inputs.len() {
        let utc = NmeaParser::parse_utc(inputs.as_slice(), i)?;
        println!("{} -> {:?}", inputs[i], utc);
    }
    Ok(())
}

#[test]
fn utils_test_parse_hhmmss_fractional() -> Result<(), ParseError> {
    let inputs = ["235959", "235959.1", "235959.12", "235959.123456789"];
    for input in inputs {
        let utc = NmeaParser::parse_hhmmss_fractional(input)?;
        println!("{} -> {:?}", input, utc);
    }
    Ok(())
}

#[test]
fn test_parse_latitude() -> Result<(), ParseError> {
    // N hemisphere
    let lat = NmeaParser::parse_latitude(&["4916.45", "N"], 0, 1)?;
    // 49 deg + 16.45/60 min
    assert!((split_degrees(&lat.unwrap()) - (49.0 + 16.45 / 60.0)).abs() <= 1e-6);
    // S hemisphere
    let lat = NmeaParser::parse_latitude(&["4916.45", "S"], 0, 1)?;
    assert!((split_degrees(&lat.unwrap()) - -(49.0 + 16.45 / 60.0)).abs() <= 1e-6);
    Ok(())
}

#[test]
fn test_parse_longitude() -> Result<(), ParseError> {
    // E hemisphere
    let lat = NmeaParser::parse_longitude(&["12345.67", "E"], 0, 1)?;
    assert!((split_degrees(&lat.unwrap()) - (123.0 + 45.67 / 60.0)).abs() <= 1e-6);
    // W hemisphere
    let lat = NmeaParser::parse_longitude(&["12345.67", "W"], 0, 1)?;
    assert!((split_degrees(&lat.unwrap()) - -(123.0 + 45.67 / 60.0)).abs() <= 1e-6);
    Ok(())
}

#[test]
fn test_new_gga() -> Result<(), ParseError> {
    let s = "$GPGGA,235316.000,2959.9925,S,12000.0090,E,1,06,1.21,62.77,M,0.00,M,,*7B";
    let gga = NmeaParser::new_gga(s)?;
    assert_eq!(gga.navigation_system, NavigationSystem::GP);
    assert!(gga.is_valid);
    assert!(gga.utc_time.unwrap().to_string().contains("23:53:16"));
    let lat = gga.lat.unwrap();
    assert_eq!((lat.degrees.as_str(), lat.minutes.as_str(), lat.negative), ("29", "59.9925", true));
    let lon = gga.lon.unwrap();
    assert_eq!((lon.degrees.as_str(), lon.minutes.as_str(), lon.negative), ("120", "00.0090", false));
    assert_eq!(gga.quality, Some(GgaQualityIndicator::GpsFix));
    assert_eq!(gga.hdop.unwrap().as_str(), "1.21");
    assert_eq!(gga.altitude.unwrap().as_str(), "62.77");
    assert_eq!(gga.geoid_separation.unwrap().as_str(), "0.00");
    assert!(gga.age_of_differential_gps_data.is_none());
    assert!(gga.differential_reference_station_id.is_none());
    assert!(rax_nmea::fields::Gga::can_parse(s));
    Ok(())
}
