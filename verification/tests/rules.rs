use rax_nmea::number::FloatLiteral;
use rax_nmea::rules::{NmeaCoord, NmeaDegree, NmeaValidate, PackedCoordinate, SignedDegrees};
use rax_nmea::str_parser::{StrFlowRule, StrGlobalRule};

fn value(x: &FloatLiteral) -> f64 {
    x.as_str().parse::<f64>().unwrap()
}

fn degrees(c: &PackedCoordinate) -> f64 {
    let v = value(&c.ddmm);
    let deg = (v / 100.0).floor();
    let min = v - deg * 100.0;
    let r = deg + min / 60.0;
    if c.negative {
        -r
    } else {
        r
    }
}

fn signed(d: &SignedDegrees) -> f64 {
    let v = value(&d.degrees);
    if d.negative {
        -v
    } else {
        v
    }
}

fn approx_eq(a: f64, b: f64) -> bool {
    if a == b || (a - b).abs() <= f64::EPSILON {
        return true;
    }
    if a.is_sign_positive() != b.is_sign_positive() {
        return false;
    }
    let ia = a.to_bits() as i64;
    let ib = b.to_bits() as i64;
    (ia - ib).abs() <= 4
}

#[test]
fn nmea_coord_test_nmea_coord_east() {
    let rule = NmeaCoord();
    // 12319.123,E,rest
    let input = "12319.123,E,rest";
    let (val, rest) = rule.apply(input);
    // 12319.123 means 123 degrees, 19.123 minutes
    let expected = 123.0 + 19.123 / 60.0;
    assert_eq!(val.map(|c| degrees(&c)), Some(expected));
    assert_eq!(rest, ",rest");
}

#[test]
fn nmea_coord_test_nmea_coord_west() {
    let rule = NmeaCoord();
    let input = "12319.123,W,foo";
    let (val, rest) = rule.apply(input);
    let expected = -(123.0 + 19.123 / 60.0);
    assert_eq!(val.map(|c| degrees(&c)), Some(expected));
    assert_eq!(rest, ",foo");
}

#[test]
fn nmea_coord_test_nmea_coord_north() {
    let rule = NmeaCoord();
    let input = "4807.038,N,bar";
    let (val, rest) = rule.apply(input);
    let expected = 48.0 + 7.038 / 60.0;
    assert!(approx_eq(degrees(&val.unwrap()), expected));
    assert_eq!(rest, ",bar");
}

#[test]
fn nmea_coord_test_nmea_coord_south() {
    let rule = NmeaCoord();
    let input = "4807.038,S,xyz";
    let (val, rest) = rule.apply(input);
    let expected = -(48.0 + 7.038 / 60.0);
    assert!(approx_eq(degrees(&val.unwrap()), expected));
    assert_eq!(rest, ",xyz");
}

#[test]
fn nmea_coord_test_nmea_coord_invalid_sign() {
    let rule = NmeaCoord();
    let input = "12319.123,X,rest";
    let (val, rest) = rule.apply(input);
    assert!(val.is_none());
    assert_eq!(rest, ",rest");
}

#[test]
fn nmea_coord_test_nmea_coord_invalid_number() {
    let rule = NmeaCoord();
    let input = "notanumber,E,rest";
    let (val, rest) = rule.apply(input);
    assert!(val.is_none());
    assert_eq!(rest, ",rest");
}

#[test]
fn nmea_coord_test_nmea_coord_missing_comma() {
    let rule = NmeaCoord();
    let input = "12319.123Erest";
    let (val, rest) = rule.apply(input);
    assert!(val.is_none());
    assert_eq!(rest, "12319.123Erest");
}

#[test]
fn test_nmea_degree() {
    let rule = NmeaDegree();
    let input = "123.45,N,other_data";
    let (result, rest) = rule.apply(input);
    assert!(result.is_some());
    assert!(approx_eq(signed(&result.unwrap()), 123.45));
    assert_eq!(rest, ",other_data");
}

#[test]
fn test_nmea_degree_negative() {
    let rule = NmeaDegree();
    let input = "123.45,S,other_data";
    let (result, rest) = rule.apply(input);
    assert!(result.is_some());
    assert!(approx_eq(signed(&result.unwrap()), -123.45));
    assert_eq!(rest, ",other_data");
}

#[test]
fn test_nmea_degree_invalid() {
    let rule = NmeaDegree();
    let input = "invalid_input";
    let (result, rest) = rule.apply(input);
    assert!(result.is_none());
    assert_eq!(rest, input);
}

#[test]
fn test_nmea_degree_no_second_comma() {
    let rule = NmeaDegree();
    let input = "12345.6789,Nother_data";
    let (result, rest) = rule.apply(input);
    assert!(result.is_none());
    assert_eq!(rest, input);
}

#[test]
fn test_nmea_degree_null() {
    let rule = NmeaDegree();
    let input = ",,Nother_data";
    let (result, rest) = rule.apply(input);
    assert!(result.is_none());
    assert_eq!(rest, ",Nother_data");
}

#[test]
fn test_valid_sentence() {
    let rule = NmeaValidate();
    // Example: $GPGGA,123519,4807.038,N,01131.000,E,1,08,0.9,545.4,M,46.9,M,,*47
    let input = "$GPGGA,123519,4807.038,N,01131.000,E,1,08,0.9,545.4,M,46.9,M,,*47";
    assert!(rule.apply(input).is_ok());
}

#[test]
fn test_invalid_checksum() {
    let rule = NmeaValidate();
    let input = "$GPGGA,123519,4807.038,N,01131.000,E,1,08,0.9,545.4,M,46.9,M,,*00";
    let result = rule.apply(input);
    assert!(result.is_err());
    let msg = format!("{result:?}");
    assert!(msg.contains("Checksum mismatch"));
}

#[test]
fn test_missing_dollar() {
    let rule = NmeaValidate();
    let input = "GPGGA,123519,4807.038,N,01131.000,E,1,08,0.9,545.4,M,46.9,M,,*47";
    let result = rule.apply(input);
    assert!(result.is_err());
    let msg = format!("{result:?}");
    assert!(msg.contains("doesn't start with"));
}

#[test]
fn test_missing_star() {
    let rule = NmeaValidate();
    let input = "$GPGGA,123519,4807.038,N,01131.000,E,1,08,0.9,545.4,M,46.9,M,,47";
    let result = rule.apply(input);
    assert!(result.is_err());
    let msg = format!("{result:?}");
    assert!(msg.contains("Missing checksum delimiter"));
}

#[test]
fn test_invalid_hex_checksum() {
    let rule = NmeaValidate();
    let input = "$GPGGA,123519,4807.038,N,01131.000,E,1,08,0.9,545.4,M,46.9,M,,*ZZ";
    let result = rule.apply(input);
    assert!(result.is_err());
    let msg = format!("{result:?}");
    assert!(msg.contains("Invalid hex checksum"));
}

#[test]
fn test_short_checksum() {
    let rule = NmeaValidate();
    let input = "$GPGGA,123519,4807.038,N,01131.000,E,1,08,0.9,545.4,M,46.9,M,,*4";
    let result = rule.apply(input);
    assert!(result.is_err());
    let msg = format!("{result:?}");
    assert!(msg.contains("require checksum_str length 2"));
}
