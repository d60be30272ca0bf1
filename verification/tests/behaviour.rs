use rax_nmea::context::NmeaCache;
use rax_nmea::data::{FaaMode, Gga, Gsv, Identifier, Talker, Txt, TxtType};
use rax_nmea::error::ErrorKind;
use rax_nmea::filters::CharSetFilter;
use rax_nmea::generic::{
    get_sentence_parts, GenericNmeaData, NavigationSystem, Nmea0183, NmeaDataType, NmeaParser,
};
use rax_nmea::number::FloatLiteral;
use rax_nmea::rules::{NmeaUtc, NmeaValidate};
use rax_nmea::str_parser::{StrFlowRule, StrGlobalRule, StrParserContext, Until};
use rax_nmea::time::{Date, UtcTime};

/// `$`, the data, `*` and the exclusive or of the data in two hex digits.
fn framed(data: &str) -> String {
    let x = data.bytes().fold(0u8, |a, b| a ^ b);
    format!("${}*{:02X}", data, x)
}

#[test]
fn checksum_of_data_is_accepted_with_or_without_line_ending() {
    let s = framed("GPGGA,123519,4807.038,N,01131.000,E,1,08,0.9,545.4,M,46.9,M,,");
    assert!(s.ends_with("*47"));
    assert!(NmeaValidate().apply(&s).is_ok());
    let with_crlf = format!("{}\r\n", s);
    assert!(NmeaValidate().apply(&with_crlf).is_ok());
}

#[test]
fn other_checksum_is_a_mismatch_naming_both() {
    let e = NmeaValidate()
        .apply("$GPGGA,123519,4807.038,N,01131.000,E,1,08,0.9,545.4,M,46.9,M,,*00\r\n")
        .unwrap_err();
    assert_eq!(e.kind, ErrorKind::ChecksumMismatch { calculated: 0x47, expected: 0 });
    assert_eq!(e.message, "Checksum mismatch: calculated 47, expected 00");
}

#[test]
fn checking_parsers_refuse_a_bad_checksum() {
    let mut ctx = StrParserContext::new();
    let e = Gga::new(
        ctx.init("$GPGGA,123519,4807.038,N,01131.000,E,1,08,0.9,545.4,M,46.9,M,,*48".to_string()),
        Talker::GP,
    )
    .unwrap_err();
    assert_eq!(e.kind, ErrorKind::ChecksumMismatch { calculated: 0x47, expected: 0x48 });
}

#[test]
fn check_errors_each_have_their_kind() {
    let v = NmeaValidate();
    assert_eq!(v.apply("GPGGA*47").unwrap_err().kind, ErrorKind::MissingDollar);
    assert_eq!(v.apply("$GPGGA,47").unwrap_err().kind, ErrorKind::MissingChecksumDelimiter);
    let e = v.apply("$GPGGA*471").unwrap_err();
    assert_eq!(e.kind, ErrorKind::ChecksumLength(3));
    assert_eq!(e.message, "require checksum_str length 2, get 3");
    assert_eq!(v.apply("$GPGGA*G7").unwrap_err().kind, ErrorKind::InvalidHexChecksum);
    // Unicode white space after the checksum is trimmed too.
    assert!(v.apply(&format!("{}\u{3000}", framed("GPTXT,1"))).is_ok());
}

#[test]
fn a_missing_separator_fails_the_take() {
    let mut ctx = StrParserContext::new();
    let e = Gga::new(ctx.init(framed("GPGGA")), Talker::GP).unwrap_err();
    assert_eq!(e.kind, ErrorKind::TakeFailed);
    assert_eq!(e.message, "take fail");
}

#[test]
fn gsv_counts_four_per_full_line_and_the_remainder_on_the_last() {
    let l1 = framed("GPGSV,2,1,08,01,10,100,20,02,11,101,21,03,12,102,22,04,13,103,23");
    let l2 = framed("GPGSV,2,2,08,05,14,104,24,06,15,105,25,07,16,106,26,08,17,107,27");
    let mut ctx = StrParserContext::new();
    let gsv = Gsv::new(ctx.init(format!("{}\r\n{}", l1, l2)), Talker::GP).unwrap();
    // eight satellites over two lines: both lines are read, four each
    assert_eq!(gsv.satellites.len(), 8);
    assert_eq!(gsv.satellites[3].snr, Some(23));
    assert_eq!(gsv.satellites[4].id, Some(5));
    assert_eq!(gsv.satellites[7].snr, Some(27));
    let one = framed("GPGSV,1,1,08,01,10,100,20,02,11,101,21,03,12,102,22,04,13,103,23");
    let gsv = Gsv::new(ctx.init(one), Talker::GP).unwrap();
    assert_eq!(gsv.satellites.len(), 4);
}

#[test]
fn txt_gives_one_message_per_line() {
    let s = "$GPTXT,03,01,02,MA=CASIC*25\r\n$GPTXT,03,02,02,IC=ATGB03+ATGR201*70\r\n$GPTXT,03,03,02,SW=URANUS2,V2.2.1.0*1D";
    let mut ctx = StrParserContext::new();
    let txt = Txt::new(ctx.init(s.to_string()), Talker::GP).unwrap();
    assert_eq!(txt.infos.len(), 3);
    assert_eq!(txt.infos[0].0, Some(TxtType::Info));
    assert_eq!(txt.infos[0].1.as_deref(), Some("MA=CASIC"));
    assert_eq!(txt.infos[2].1.as_deref(), Some("SW=URANUS2,V2.2.1.0"));
    assert_eq!(TxtType::Info.to_string(), "Info");
    let e = TxtType::try_from(5).unwrap_err();
    assert_eq!(e.kind, ErrorKind::UnknownValue);
    assert_eq!(e.message, "Unknown txt type: 5");
}

#[test]
fn short_fraction_is_scaled_to_nanoseconds() {
    let (dt, rest) = NmeaUtc().apply("123519.5,rest");
    let dt = dt.unwrap();
    let t = dt.time;
    assert_eq!((t.hour, t.minute, t.second, t.nano), (12, 35, 19, 500_000_000));
    assert_eq!(rest, ",rest");
    assert_eq!(t.to_string(), "12:35:19.500");
    // the date is today's, as the clock gives it
    let today = chrono::Utc::now().date_naive();
    assert_eq!(dt.date.to_string(), today.to_string());
    assert_eq!(dt.to_string(), format!("{} 12:35:19.500 UTC", today));
    let (t, _) = NmeaUtc().apply("123519.123,");
    assert_eq!(t.unwrap().time.nano, 123_000_000);
    let (t, _) = NmeaUtc().apply("123519.0000001,");
    assert_eq!(t.unwrap().time.to_string(), "12:35:19.000000100");
    // a leap second is held as nanoseconds past the 59th second
    let leap = UtcTime::from_hms_nano(23, 59, 59, 1_500_000_000).unwrap();
    assert_eq!(leap.to_string(), "23:59:60.500");
    assert!(UtcTime::from_hms_nano(24, 0, 0, 0).is_none());
    assert!(UtcTime::from_hms_nano(23, 59, 58, 1_000_000_000).is_none());
}

#[test]
fn dates_are_checked_and_written_by_chrono() {
    assert!(Date::from_ymd(2023, 2, 29).is_none());
    let d = Date::from_ymd(2024, 2, 29).unwrap();
    assert_eq!(d.to_string(), "2024-02-29");
    assert_eq!(Date::from_ymd(-5, 1, 2).unwrap().to_string(), "-0005-01-02");
    assert_eq!(Date::from_ymd(12345, 1, 2).unwrap().to_string(), "+12345-01-02");
}

#[test]
fn names_read_back_as_their_values() {
    assert_eq!(Identifier::from_str("$GPTXT,1*00").unwrap(), Identifier::Txt);
    assert_eq!(Identifier::Txt.to_string(), "TXT");
    assert_eq!(Talker::from_str("$GNGGA").unwrap(), Talker::GN);
    assert_eq!(Talker::GN.to_string(), "GN");
    let e = Identifier::from_str("$GPXXX,").unwrap_err();
    assert_eq!(e.kind, ErrorKind::UnknownIdentifier);
    assert_eq!(e.message, "Unknown identifier: XXX");
    assert_eq!(Identifier::from_str("$GP").unwrap_err().kind, ErrorKind::InvalidSentence);
    assert_eq!(Talker::from_str("$XXGGA").unwrap_err().kind, ErrorKind::UnknownTalker);
    assert_eq!(FaaMode::from_str("X").unwrap_err().kind, ErrorKind::UnknownValue);
    for ns in [NavigationSystem::BD, NavigationSystem::GL, NavigationSystem::GN, NavigationSystem::GP] {
        assert_eq!(NavigationSystem::from_str(ns.as_ref()).unwrap(), ns);
    }
    assert_eq!(NavigationSystem::from_str("GP").unwrap(), NavigationSystem::GP);
    assert_eq!(NavigationSystem::GP.as_ref(), "Global Positioning System receiver");
    let e = NavigationSystem::from_str("gp").unwrap_err();
    assert_eq!(e.kind, ErrorKind::VariantNotFound);
    assert_eq!(e.message, "Matching variant not found");
    assert_eq!(NmeaParser::get_navigation_system("$GNGGA,").unwrap(), NavigationSystem::GN);
    assert_eq!(NmeaParser::get_navigation_system("$BDGSV,1").unwrap(), NavigationSystem::BD);
    let e = NmeaParser::get_navigation_system("$GNGG").unwrap_err();
    assert_eq!(e.kind, ErrorKind::InvalidSentence);
    assert_eq!(e.message, "Invalid sentense: $GNGG");
    let e = NmeaParser::get_navigation_system("$XXGGA,").unwrap_err();
    assert_eq!(e.kind, ErrorKind::VariantNotFound);
}

#[test]
fn until_reads_up_to_the_delimiter_and_leaves_it() {
    let (field, rest) = Until(b',').apply("ab,cd");
    assert_eq!(field, Some("ab"));
    assert_eq!(rest, ",cd");
    let (field, rest) = Until(b',').apply("abcd");
    assert_eq!(field, None);
    assert_eq!(rest, "abcd");
    let mut ctx = StrParserContext::new();
    ctx.init("ab,cd".to_string());
    assert_eq!(ctx.take(&Until(b',')), Some("ab"));
    assert_eq!(ctx.rest_str(), ",cd");
    assert_eq!(ctx.full_str(), "ab,cd");
    // the strict forms fail where nothing is read, and move as the lenient ones
    assert_eq!(ctx.take_strict(&Until(b'd')).unwrap(), ",c");
    assert_eq!(ctx.rest_str(), "d");
    let e = ctx.take_strict(&Until(b',')).unwrap_err();
    assert_eq!(e.kind, ErrorKind::TakeFailed);
    assert_eq!(e.message, "take fail");
    assert_eq!(ctx.rest_str(), "d");
    assert!(ctx.skip_strict(&Until(b'x')).is_err());
    assert!(ctx.skip_strict(&Until(b'd')).is_ok());
    assert_eq!(ctx.rest_str(), "d");
}

#[test]
fn char_sets_from_text() {
    let e = "01234567".parse::<CharSetFilter<10>>().err().unwrap();
    assert_eq!(e.kind, ErrorKind::CharSetLength { expected: 10, got: 8 });
    assert_eq!(e.message, "String length does not match CharSet size, expected 10 but got 8");
    let e = "01234567890".parse::<CharSetFilter<10>>().err().unwrap();
    assert_eq!(e.kind, ErrorKind::CharSetLength { expected: 10, got: 10 });
    assert_eq!(e.message, "String too long for CharSet, expected 10 but got 10");
    let set: CharSetFilter<3> = "aeé".parse().unwrap();
    assert!(set.contains('é'));
    assert!(!set.contains('b'));
}

#[test]
fn sentence_fields() {
    let parts = get_sentence_parts("$GPGLL,4916.45,N,12311.12,W*4E");
    assert_eq!(parts, vec!["$GPGLL", "4916.45", "N", "12311.12", "W"]);
    // joined again, the fields give the sentence up to its `*`
    assert_eq!(parts.join(","), "$GPGLL,4916.45,N,12311.12,W");
    assert_eq!(get_sentence_parts("a,b*c,d*e").join(","), "a,b");
    assert_eq!(get_sentence_parts(""), vec![""]);
    assert_eq!(get_sentence_parts("a,,b"), vec!["a", "", "b"]);
    assert!(NmeaParser::is_valid("$GPGGA,123519,4807.038,N,01131.000,E,1,08,0.9,545.4,M,46.9,M,,*47"));
    assert!(!NmeaParser::is_valid("$GPGGA,123519,4807.038,N,01131.000,E,1,08,0.9,545.4,M,46.9,M,,*48"));
    // the data `A` has checksum 41
    assert!(NmeaParser::is_valid("$A*41"));
    assert!(!NmeaParser::is_valid("$A*4"));
    assert!(!NmeaParser::is_valid("$A*410"));
    assert!(!NmeaParser::is_valid("A*41"));
    assert!(!NmeaParser::is_valid("$A41"));
}

#[test]
fn primitive_fields() {
    let parts = ["12", "", "x", "1.5"];
    assert_eq!(NmeaParser::parse_primitive::<u8>(&parts, 0).unwrap(), Some(12));
    assert_eq!(NmeaParser::parse_primitive::<u8>(&parts, 1).unwrap(), None);
    assert_eq!(NmeaParser::parse_primitive::<u8>(&parts, 9).unwrap(), None);
    let e = NmeaParser::parse_primitive::<u8>(&parts, 2).unwrap_err();
    assert_eq!(e.kind, ErrorKind::InvalidField);
    assert_eq!(e.message, "Invalid field: x");
    let f: Option<FloatLiteral> = NmeaParser::parse_primitive(&parts, 3).unwrap();
    assert_eq!(f.unwrap().as_str(), "1.5");
}

#[test]
fn coordinates_in_fields() {
    let c = NmeaParser::parse_latitude(&["4916.45", "s"], 0, 1).unwrap().unwrap();
    assert_eq!((c.degrees.as_str(), c.minutes.as_str(), c.negative), ("49", "16.45", true));
    // `ſ` upper-cases to `S`
    assert!(NmeaParser::parse_latitude(&["4916.45", "ſ"], 0, 1).unwrap().unwrap().negative);
    let e = NmeaParser::parse_latitude(&["4916.45", "X"], 0, 1).unwrap_err();
    assert_eq!(e.kind, ErrorKind::UnknownHemisphere);
    assert_eq!(e.message, "Unknown hemi: X.");
    let e = NmeaParser::parse_latitude(&["491", "N"], 0, 1).unwrap_err();
    assert_eq!(e.message, "Invalid latitude Format: 491.");
    let e = NmeaParser::parse_latitude(&["4x16.45", "N"], 0, 1).unwrap_err();
    assert_eq!(e.kind, ErrorKind::InvalidFloat);
    assert!(NmeaParser::parse_latitude(&["4916.45"], 0, 1).unwrap().is_none());
    let e = NmeaParser::parse_longitude(&["1234", "E"], 0, 1).unwrap_err();
    assert_eq!(e.message, "Invalid longitude format: 1234");
    let e = NmeaParser::parse_longitude(&["12345.67", "N"], 0, 1).unwrap_err();
    assert_eq!(e.message, "Unknown hemisphere: N");
}

#[test]
fn times_in_fields() {
    let dt = NmeaParser::parse_utc(&["x", "235959.12"], 1).unwrap().unwrap();
    let t = dt.time;
    assert_eq!((t.hour, t.minute, t.second, t.nano), (23, 59, 59, 120_000_000));
    assert_eq!(dt.date.to_string(), chrono::Utc::now().date_naive().to_string());
    assert!(NmeaParser::parse_utc(&["x"], 1).unwrap().is_none());
    let e = NmeaParser::parse_utc(&["ab5959"], 0).unwrap_err();
    assert_eq!(e.kind, ErrorKind::InvalidInteger);
    assert_eq!(e.message, "invalid digit found in string");
    let e = NmeaParser::parse_utc(&["235959.x"], 0).unwrap_err();
    assert_eq!(e.kind, ErrorKind::InvalidFloat);
    // a whole part that is not six bytes gives the current date and time
    let before = chrono::Utc::now();
    let now = NmeaParser::parse_hhmmss_fractional("12345").unwrap();
    let after = chrono::Utc::now();
    let got = chrono::NaiveDate::from_ymd_opt(now.date.year, now.date.month, now.date.day)
        .unwrap()
        .and_hms_nano_opt(now.time.hour, now.time.minute, now.time.second, now.time.nano)
        .unwrap()
        .and_utc();
    assert!(before <= got && got <= after);
    assert_eq!(NmeaParser::parse_hhmmss_fractional("000001").unwrap().time.second, 1);
}

#[test]
fn sentences_by_type() {
    assert_eq!(Nmea0183::try_from("$BDGLL,1").unwrap(), Nmea0183::Other("GLL".to_string()));
    assert_eq!(Nmea0183::try_from("$BD").unwrap_err().kind, ErrorKind::EmptySentence);
    assert_eq!(NmeaDataType::from_str("$GPZDA,").unwrap(), NmeaDataType::ZDA);
    assert_eq!(NmeaDataType::from_str("$GPXYZ,").unwrap(), NmeaDataType::Other);
    assert_eq!(NmeaDataType::from_str("$GP").unwrap_err().kind, ErrorKind::InvalidSentence);
    let (key, data) = GenericNmeaData::parse("$GPZDA,160012.71,11,03,2004,-1,00*7D").unwrap();
    assert_eq!(key, NmeaDataType::ZDA);
    match data {
        GenericNmeaData::ZDA(z) => {
            assert_eq!(z.navigation_system, NavigationSystem::GP);
            assert!(z.is_valid);
            assert_eq!(z.year, Some(2004));
            assert_eq!(z.local_zone_description, Some(-1));
        },
        _ => panic!("not a ZDA"),
    }
    let s = "$GPGGA,123519,4807.038,N,01131.000,E,1,08,0.9,545.4,M,46.9,M,,*47";
    let (key, data) = GenericNmeaData::parse(s).unwrap();
    assert_eq!(key, NmeaDataType::GGA);
    match data {
        GenericNmeaData::GGA(g) => {
            assert_eq!(g.navigation_system, Talker::GP);
            assert_eq!(g.satellite_count, Some(8));
        },
        _ => panic!("not a GGA"),
    }
    // a sentence whose time field cannot be cut where it is read
    assert!(!GenericNmeaData::can_parse("$GPZDA,1é2345,11,03,2004,-1,00*7D"));
    assert!(GenericNmeaData::can_parse(s));
    assert!(GenericNmeaData::can_parse("$XXZDA,1é2345"));
    let (key, data) = GenericNmeaData::parse("$GPTXT,01,01,02,hello*00").unwrap();
    assert_eq!(key, NmeaDataType::Other);
    assert!(matches!(data, GenericNmeaData::Other(s) if s == "$GPTXT,01,01,02,hello*00"));
    let e = GenericNmeaData::parse("$GAGGA,1*00").unwrap_err();
    assert_eq!(e.kind, ErrorKind::VariantNotFound);
}

#[test]
fn cache_keeps_the_latest_data_of_each_type() {
    let mut cache = NmeaCache::new(2);
    assert!(cache.is_empty());
    cache.push("$GPZDA,160012.71,11,03,2004,-1,00*7D").unwrap();
    assert!(cache.contains(NmeaDataType::ZDA));
    assert_eq!(cache.len(), 1);
    cache.push("$GPGGA,123519,4807.038,N,01131.000,E,1,08,0.9,545.4,M,46.9,M,,*47").unwrap();
    assert_eq!(cache.len(), 2);
    // getting ZDA makes it the most recently used, so GGA gives way to GLL
    match cache.get(NmeaDataType::ZDA) {
        Some(GenericNmeaData::ZDA(z)) => assert_eq!(z.day, Some(11)),
        _ => panic!("no ZDA data"),
    }
    cache.push("$GPGLL,2959.9925,S,12000.0090,E,235316.000,A,A*4E").unwrap();
    assert_eq!(cache.len(), 2);
    assert!(!cache.contains(NmeaDataType::GGA));
    assert!(cache.get(NmeaDataType::GGA).is_none());
    assert!(cache.contains(NmeaDataType::ZDA));
    assert!(cache.contains(NmeaDataType::GLL));
    // a sentence that cannot be read leaves the cache as it is
    let e = cache.push("$GAGGA,1").unwrap_err();
    assert_eq!(e.kind, ErrorKind::VariantNotFound);
    assert_eq!(cache.len(), 2);
    // new data of a type replaces the old
    cache.push("$GPZDA,160012.71,12,03,2004,-1,00*00").unwrap();
    match cache.get(NmeaDataType::ZDA) {
        Some(GenericNmeaData::ZDA(z)) => {
            assert_eq!(z.day, Some(12));
            assert!(!z.is_valid);
        },
        _ => panic!("no ZDA data"),
    }
    assert_eq!(cache.len(), 2);
    cache.push("$GPTXT,01,01,02,hello*00").unwrap();
    assert!(cache.contains(NmeaDataType::Other));
    assert!(!cache.contains(NmeaDataType::GLL));
}

#[test]
fn a_refused_checksum_leaves_the_cursor_and_strict_skips_chain() {
    let mut ctx = StrParserContext::new();
    ctx.init("$GPGGA,123519,4807.038,N,01131.000,E,1,08,0.9,545.4,M,46.9,M,,*00".to_string());
    let e = Gga::new(&mut ctx, Talker::GP).unwrap_err();
    assert_eq!(e.kind, ErrorKind::ChecksumMismatch { calculated: 0x47, expected: 0 });
    assert_eq!(ctx.rest_str(), ctx.full_str());
    // the strict skip gives the context back, so skips chain
    let ctx = ctx.skip_strict(&Until(b',')).unwrap().skip_strict(&Until(b'*')).unwrap();
    assert_eq!(ctx.rest_str(), "*00");
}

fn read_data<T: rax_nmea::data::INmeaData>(s: &str) -> Result<T, rax_nmea::error::ParseError> {
    let mut ctx = StrParserContext::new();
    T::new(ctx.init(s.to_string()), Talker::GP)
}

fn read_fields<T: rax_nmea::fields::INmeaData>(s: &str) -> Result<T, rax_nmea::error::ParseError> {
    T::parse_sentence(s, NavigationSystem::GP)
}

#[test]
fn sentence_types_read_through_their_traits() {
    let s = "$GPGGA,123519,4807.038,N,01131.000,E,1,08,0.9,545.4,M,46.9,M,,*47";
    let g: Gga = read_data(s).unwrap();
    assert_eq!(g.satellite_count, Some(8));
    assert!(read_data::<Gga>("$GPGGA,123519*00").is_err());
    let g: rax_nmea::nmea_data::Gga = {
        let mut ctx = StrParserContext::new();
        <rax_nmea::nmea_data::Gga as rax_nmea::nmea_data::INmeaData>::new(ctx.init(s.to_string()), Talker::GP)
            .unwrap()
    };
    assert_eq!(g.satellite_count, Some(8));
    let z: rax_nmea::fields::Zda = read_fields("$GPZDA,160012.71,11,03,2004,-1,00*7D").unwrap();
    assert_eq!(z.year, Some(2004));
    assert!(z.is_valid);
    let v: rax_nmea::fields::Vtg = read_fields("$GPVTG,220.86,T,,M,2.550,N,4.724,K,A*34").unwrap();
    assert_eq!(v.speed_over_ground_kph.unwrap().as_str(), "4.724");
}
