use weather_report::decimal::Decimal;
use weather_report::error::{DomainFault, ParseError, StructureFault};
use weather_report::parameter::{decode, Color, Parameter, ParameterName, ParameterValue};
use weather_report::report::{
    parse_parameter, RawGeometry, RawParameter, RawReport, RawTimeSeries, WeatherReport,
};
use weather_report::table::forecast_table;
use weather_report::time::Timestamp;
use weather_report::types::{Args, Location};

fn raw_param(name: &str, values: &[&str]) -> RawParameter {
    RawParameter {
        name: name.to_string(),
        level_type: "hl".to_string(),
        level: 2,
        values: values.iter().map(|v| v.to_string()).collect(),
    }
}

fn raw_series(valid_time: &str, parameters: Vec<RawParameter>) -> RawTimeSeries {
    RawTimeSeries { valid_time: valid_time.to_string(), parameters }
}

fn raw_report(time_series: Vec<RawTimeSeries>) -> RawReport {
    RawReport {
        approved_time: "2023-05-01T10:00:00Z".to_string(),
        reference_time: "2023-05-01T09:00:00Z".to_string(),
        geometry: RawGeometry {
            geometry_type: "Point".to_string(),
            coordinates: vec![vec!["17.638927".to_string(), "59.858562".to_string()]],
        },
        time_series,
    }
}

fn two_hour_report() -> WeatherReport {
    let raw = raw_report(vec![
        raw_series(
            "2023-05-01T12:00:00Z",
            vec![
                raw_param("t", &["5.5"]),
                raw_param("ws", &["3.0"]),
                raw_param("Wsymb2", &["1"]),
            ],
        ),
        raw_series(
            "2023-05-01T13:00:00Z",
            vec![raw_param("t", &["6.0"]), raw_param("pcat", &["0"])],
        ),
    ]);
    WeatherReport::parse(&raw, Some(Location::Uppsala)).unwrap()
}

fn dec(s: &str) -> Decimal {
    Decimal::parse(s).unwrap()
}

fn decoded_text(name: ParameterName, raw: &str) -> String {
    decode(name, dec(raw)).unwrap().to_text()
}

#[test]
fn end_to_end_lookup_and_rendering() {
    let report = two_hour_report();
    assert_eq!(report.enumerate_time_series().len(), 2);
    assert!(report.parameter_at(1, ParameterName::ws).is_none());
    assert_eq!(report.parameter_at(0, ParameterName::t).unwrap().to_text(), "5.5C");
    assert_eq!(
        report.parameter_at(1, ParameterName::pcat).unwrap().to_text(),
        "No precipitation"
    );
    assert_eq!(report.parameter_at(0, ParameterName::ws).unwrap().to_text(), "3m/s");
    assert_eq!(report.parameter_at(0, ParameterName::Wsymb2).unwrap().to_text(), "Clear sky");
    assert_eq!(report.parameter_at(1, ParameterName::t).unwrap().to_text(), "6C");
    assert_eq!(report.location, Some(Location::Uppsala));
    assert_eq!(report.approved_time, Timestamp { seconds: 1682935200, nanos: 0 });
    assert_eq!(report.geometry.coordinates[0][0], Decimal { mantissa: 17638927, exponent: -6 });
}

#[test]
fn enumeration_is_restartable() {
    let report = two_hour_report();
    let first: Vec<Timestamp> = report.enumerate_time_series().iter().map(|t| t.valid_time).collect();
    let second: Vec<Timestamp> =
        report.enumerate_time_series().iter().map(|t| t.valid_time).collect();
    assert_eq!(first, second);
    assert_eq!(first[0].seconds, 1682942400);
    assert_eq!(first[1].seconds, 1682946000);
}

#[test]
fn empty_parameter_list_gives_time_column_only() {
    let report = two_hour_report();
    let none: Vec<ParameterName> = Vec::new();
    let table = forecast_table(&report, Some(none.as_slice()), None);
    assert_eq!(table.titles, vec!["Time".to_string()]);
    assert_eq!(table.rows.len(), 2);
    assert!(table.rows.iter().all(|r| r.cells.is_empty()));
}

#[test]
fn table_cells_and_limits() {
    let report = two_hour_report();
    let names = vec![ParameterName::t, ParameterName::ws];
    let table = forecast_table(&report, Some(names.as_slice()), Some(1));
    assert_eq!(table.titles, vec!["Time".to_string(), "t".to_string(), "ws".to_string()]);
    assert_eq!(table.rows.len(), 1);
    assert_eq!(table.rows[0].cells[0].text, "5.5C");
    assert_eq!(table.rows[0].cells[0].color, Some((Color::Yellow, Color::Black)));
    assert_eq!(table.rows[0].cells[1].text, "3m/s");
    assert_eq!(table.rows[0].cells[1].color, Some((Color::Red, Color::Black)));

    let table = forecast_table(&report, Some(names.as_slice()), Some(200));
    assert_eq!(table.rows.len(), 2);
    assert_eq!(table.rows[1].cells[1].text, "N/A");
    assert_eq!(table.rows[1].cells[1].color, None);

    let table = forecast_table(&report, None, None);
    assert_eq!(table.titles.len(), 20);
    assert_eq!(table.titles[19], "Wsymb2");
    assert_eq!(table.rows[0].cells[18].text, "Clear sky");
}

#[test]
fn precipitation_category_domain() {
    let expected = [
        "No precipitation",
        "Snow",
        "Snow and rain",
        "Rain",
        "Drizzle",
        "Freezing rain",
        "Freezing drizzle",
    ];
    for (code, text) in expected.iter().enumerate() {
        let v = decode(ParameterName::pcat, dec(&code.to_string())).unwrap();
        assert_eq!(v, ParameterValue::PrecipitationCategory(code as u8));
        assert_eq!(v.to_text(), *text);
    }
    for bad in ["7", "255", "300"] {
        assert_eq!(
            decode(ParameterName::pcat, dec(bad)),
            Err(ParseError::DomainViolation(DomainFault::OutOfRange(ParameterName::pcat)))
        );
    }
}

#[test]
fn weather_symbol_domain() {
    let expected = [
        "Clear sky",
        "Nearly clear sky",
        "Variable cloudiness",
        "Halfclear sky",
        "Cloudy sky",
        "Overcast",
        "Fog",
        "Light rain showers",
        "Moderate rain showers",
        "Heavy rain showers",
        "Thunderstorm",
        "Light sleet showers",
        "Moderate sleet showers",
        "Heavy sleet showers",
        "Light snow showers",
        "Moderate snow showers",
        "Heavy snow showers",
        "Light rain",
        "Moderate rain",
        "Heavy rain",
        "Thunder",
        "Light sleet",
        "Moderate sleet",
        "Heavy sleet",
        "Light snowfall",
        "Moderate snowfall",
        "Heavy snowfall",
    ];
    for (i, text) in expected.iter().enumerate() {
        let code = i + 1;
        let v = decode(ParameterName::Wsymb2, dec(&code.to_string())).unwrap();
        assert_eq!(v, ParameterValue::WeatherSymbol(code as u8));
        assert_eq!(v.to_text(), *text);
    }
    for bad in ["0", "28"] {
        assert_eq!(
            decode(ParameterName::Wsymb2, dec(bad)),
            Err(ParseError::DomainViolation(DomainFault::OutOfRange(ParameterName::Wsymb2)))
        );
    }
}

#[test]
fn value_count_must_be_one() {
    for values in [&[][..], &["1.0", "2.0"][..]] {
        let err = parse_parameter(&raw_param("t", values)).unwrap_err();
        assert_eq!(err, ParseError::DomainViolation(DomainFault::ValueCount(ParameterName::t)));
        assert_eq!(err.message(), "parameter must have exactly one value");
        let raw = raw_report(vec![raw_series("2023-05-01T12:00:00Z", vec![raw_param("t", values)])]);
        assert!(matches!(
            WeatherReport::parse(&raw, None),
            Err(ParseError::DomainViolation(DomainFault::ValueCount(ParameterName::t)))
        ));
    }
}

#[test]
fn unknown_parameter_name_aborts_parse() {
    let raw = raw_report(vec![raw_series(
        "2023-05-01T12:00:00Z",
        vec![raw_param("t", &["5.5"]), raw_param("humidity", &["3"])],
    )]);
    assert!(matches!(
        WeatherReport::parse(&raw, None),
        Err(ParseError::StructureViolation(StructureFault::UnknownParameterName))
    ));
}

#[test]
fn malformed_timestamps_and_numbers() {
    let raw = raw_report(vec![raw_series("2023-05-01 12:00", vec![raw_param("t", &["5.5"])])]);
    assert!(matches!(
        WeatherReport::parse(&raw, None),
        Err(ParseError::StructureViolation(StructureFault::MalformedTimestamp))
    ));
    let mut raw = raw_report(vec![]);
    raw.approved_time = "yesterday".to_string();
    assert!(matches!(
        WeatherReport::parse(&raw, None),
        Err(ParseError::StructureViolation(StructureFault::MalformedTimestamp))
    ));
    let raw = raw_report(vec![raw_series("2023-05-01T12:00:00Z", vec![raw_param("t", &["warm"])])]);
    assert!(matches!(
        WeatherReport::parse(&raw, None),
        Err(ParseError::StructureViolation(StructureFault::MalformedNumber))
    ));
    let mut raw = raw_report(vec![]);
    raw.geometry.coordinates = vec![vec!["x".to_string()]];
    assert!(matches!(
        WeatherReport::parse(&raw, None),
        Err(ParseError::StructureViolation(StructureFault::MalformedNumber))
    ));
}

#[test]
fn later_duplicate_entry_wins() {
    let raw = raw_report(vec![raw_series(
        "2023-05-01T12:00:00Z",
        vec![raw_param("t", &["5.5"]), raw_param("t", &["7.25"])],
    )]);
    let report = WeatherReport::parse(&raw, None).unwrap();
    assert_eq!(report.parameter_at(0, ParameterName::t).unwrap().to_text(), "7.25C");
}

#[test]
fn timestamps_from_rfc3339() {
    assert_eq!(
        Timestamp::parse("2023-05-01T12:00:00Z"),
        Ok(Timestamp { seconds: 1682942400, nanos: 0 })
    );
    assert_eq!(
        Timestamp::parse("2023-05-01T14:00:00.5+02:00"),
        Ok(Timestamp { seconds: 1682942400, nanos: 500_000_000 })
    );
    assert_eq!(
        Timestamp::parse("not a time"),
        Err(ParseError::StructureViolation(StructureFault::MalformedTimestamp))
    );
}

#[test]
fn numerals_read_and_written() {
    assert_eq!(dec("5.5"), Decimal { mantissa: 55, exponent: -1 });
    assert_eq!(dec("3.0"), Decimal { mantissa: 3, exponent: 0 });
    assert_eq!(dec("1500"), Decimal { mantissa: 15, exponent: 2 });
    assert_eq!(dec("-0.0"), Decimal { mantissa: 0, exponent: 0 });
    assert_eq!(dec("1e-7").to_text(), "0.0000001");
    assert_eq!(dec("1.25E+2").to_text(), "125");
    assert_eq!(dec("5e+02").to_text(), "500");
    assert_eq!(dec("-12.50").to_text(), "-12.5");
    assert_eq!(dec("0.30000000000000004").to_text(), "0.30000000000000004");
    assert_eq!(dec("1e21").to_text(), "1000000000000000000000");
    assert_eq!(dec("1013.2").to_text(), "1013.2");
    for bad in ["", "-", "1.", ".5", "1e", "1e+", "abc", "1.2.3", "+1", " 1", "1 "] {
        assert_eq!(Decimal::parse(bad), None, "{bad}");
    }
    assert_eq!(Decimal::parse("1e401"), None);
    assert_eq!(Decimal::parse("1e-401"), None);
    assert_eq!(Decimal::parse("1000e398"), None);
    assert_eq!(dec("1000e397"), Decimal { mantissa: 1, exponent: 400 });
    assert_eq!(dec("0e99999999999999999999999"), Decimal { mantissa: 0, exponent: 0 });
    assert_eq!(Decimal::parse("1e99999999999999999999999"), None);
    assert_eq!(Decimal::parse(&"1".repeat(39)), None);
    assert_eq!(dec(&"1".repeat(38)).exponent, 0);
    let long = format!("0.{}5", "0".repeat(60));
    assert_eq!(dec(&long), Decimal { mantissa: 5, exponent: -61 });
    let long = format!("{}e-100", "0".repeat(200) + "7" + &"0".repeat(100));
    assert_eq!(dec(&long), Decimal { mantissa: 7, exponent: 0 });
    assert_eq!(
        dec("99999999999999999999"),
        Decimal { mantissa: 99999999999999999999, exponent: 0 }
    );
    assert_eq!(dec("-9223372036854775808").to_text(), "-9223372036854775808");
    assert_eq!(dec("-2.2250738585072014e-308").exponent, -324);
    assert_eq!(dec("1.7976931348623157e308").mantissa, 17976931348623157);
}

#[test]
fn truncation_and_comparison() {
    assert_eq!(dec("255.9").clamped_integer(0, 255), 255);
    assert_eq!(dec("-1.5").clamped_integer(0, 255), 0);
    assert_eq!(dec("6.99").clamped_integer(0, 255), 6);
    assert_eq!(dec("-3.7").clamped_integer(-10, 10), -3);
    assert_eq!(dec("1e30").clamped_integer(i32::MIN as i64, i32::MAX as i64), i32::MAX as i64);
    assert_eq!(dec("5.5").compare_int(5), 1);
    assert_eq!(dec("5").compare_int(5), 0);
    assert_eq!(dec("-0.01").compare_int(0), -1);
    assert_eq!(dec("1e-30").compare_int(0), 1);
}

#[test]
fn integer_and_decimal_decoding() {
    assert_eq!(decoded_text(ParameterName::wd, "270.9"), "270");
    assert_eq!(decoded_text(ParameterName::r, "-3.7"), "-3");
    assert_eq!(decoded_text(ParameterName::msl, "1013.20"), "1013.2");
    assert_eq!(
        decode(ParameterName::tcc_mean, dec("8")).unwrap(),
        ParameterValue::Integer(8)
    );
    assert_eq!(
        decode(ParameterName::gust, dec("-0.5")).unwrap(),
        ParameterValue::Decimal(Decimal { mantissa: -5, exponent: -1 })
    );
}

#[test]
fn formatting_is_stable() {
    for (name, raw) in [
        (ParameterName::t, "5.5"),
        (ParameterName::wd, "180"),
        (ParameterName::pcat, "3"),
        (ParameterName::Wsymb2, "27"),
    ] {
        let a = decoded_text(name, raw);
        let b = decoded_text(name, raw);
        assert_eq!(a, b);
        assert!(!a.is_empty());
    }
    assert_eq!(decoded_text(ParameterName::t, "5.5"), "5.5");
}

#[test]
fn names_units_and_order() {
    let all = ParameterName::all();
    assert_eq!(all.len(), ParameterName::count());
    assert_eq!(ParameterName::count(), 19);
    for (i, n) in all.iter().enumerate() {
        assert_eq!(n.index(), i);
        assert_eq!(ParameterName::from_name(n.as_str()), Some(*n));
    }
    assert_eq!(ParameterName::from_name("T"), None);
    assert_eq!(ParameterName::t.get_unit(), Some("C"));
    assert_eq!(ParameterName::ws.get_unit(), Some("m/s"));
    assert_eq!(ParameterName::hcc_mean.get_unit(), Some("octas"));
    assert_eq!(ParameterName::pmedian.get_unit(), Some("mm/h"));
    assert_eq!(ParameterName::msl.get_unit(), Some("hPa"));
    assert_eq!(ParameterName::vis.get_unit(), Some("km"));
    assert_eq!(ParameterName::wd.get_unit(), Some("degree"));
    assert_eq!(ParameterName::spp.get_unit(), Some("%"));
    assert_eq!(ParameterName::pcat.get_unit(), None);
    assert_eq!(ParameterName::Wsymb2.get_unit(), None);
}

fn param(name: ParameterName, raw: &str) -> Parameter {
    Parameter {
        name,
        level_type: "hl".to_string(),
        level: 0,
        value: decode(name, dec(raw)).unwrap(),
    }
}

#[test]
fn colours_follow_cutoffs() {
    assert_eq!(param(ParameterName::t, "12").get_color(), Some((Color::Green, Color::Black)));
    assert_eq!(param(ParameterName::t, "10").get_color(), Some((Color::Yellow, Color::Black)));
    assert_eq!(param(ParameterName::t, "5").get_color(), Some((Color::Red, Color::Black)));
    assert_eq!(param(ParameterName::ws, "-0.1").get_color(), Some((Color::Green, Color::Black)));
    assert_eq!(param(ParameterName::ws, "0.5").get_color(), Some((Color::Yellow, Color::Black)));
    assert_eq!(param(ParameterName::ws, "1").get_color(), Some((Color::Red, Color::Black)));
    assert_eq!(param(ParameterName::r, "80").get_color(), Some((Color::Green, Color::Black)));
    assert_eq!(param(ParameterName::pcat, "2").get_color(), None);
    assert_eq!(param(ParameterName::Wsymb2, "2").get_color(), None);
    assert_eq!(param(ParameterName::t, "-3").unit(), Some("C"));
}

#[test]
fn arguments_defaults() {
    let args = Args { hours: None, parameters: None, location: Location::Uppsala };
    assert_eq!(args.hours_to_show(), 7);
    assert_eq!(
        args.shown_parameters(),
        vec![
            ParameterName::t,
            ParameterName::ws,
            ParameterName::gust,
            ParameterName::tcc_mean,
            ParameterName::pmin,
            ParameterName::pmax,
            ParameterName::Wsymb2,
        ]
    );
    let args = Args {
        hours: Some(3),
        parameters: Some(vec![ParameterName::vis]),
        location: Location::Sollentuna,
    };
    assert_eq!(args.hours_to_show(), 3);
    assert_eq!(args.shown_parameters(), vec![ParameterName::vis]);
}

#[test]
fn locations() {
    assert_eq!(Location::Sollentuna.name(), "Sollentuna");
    assert_eq!(Location::Uppsala.name(), "Uppsala");
    let (lon, lat) = Location::Sollentuna.coordinates();
    assert_eq!(lon.to_text(), "17.950055");
    assert_eq!(lat.to_text(), "59.429316");
    let (lon, lat) = Location::Uppsala.coordinates();
    assert_eq!(lon.to_text(), "17.638927");
    assert_eq!(lat.to_text(), "59.858562");
}

#[test]
fn error_messages() {
    assert_eq!(
        ParseError::StructureViolation(StructureFault::UnknownParameterName).message(),
        "unknown parameter name"
    );
    assert_eq!(
        ParseError::DomainViolation(DomainFault::OutOfRange(ParameterName::pcat)).message(),
        "value outside the parameter's domain"
    );
}

#[test]
fn hour_description() {
    let report = two_hour_report();
    let hours = report.enumerate_time_series();
    assert_eq!(
        hours[0].describe(),
        "Valid time: 2023-05-01 12:00:00 UTC. 5.5C, 3m/s, Clear sky, "
    );
    assert_eq!(hours[1].describe_with("later"), "Valid time: later. 6C, No precipitation, ");
    assert_eq!(
        Timestamp { seconds: 1431648000, nanos: 0 }.to_text(),
        "2015-05-15 00:00:00 UTC"
    );
}

#[test]
fn decode_format_round_trip() {
    for (name, raw) in [
        (ParameterName::t, "-12.75"),
        (ParameterName::msl, "1013.2"),
        (ParameterName::vis, "0.0001"),
        (ParameterName::wd, "270"),
        (ParameterName::r, "-3.9"),
        (ParameterName::tstm, "100"),
    ] {
        let first = decode(name, dec(raw)).unwrap();
        let again = decode(name, dec(&first.to_text())).unwrap();
        assert_eq!(first, again);
    }
    for raw in ["1e100", "1e-50", "-9.99e400", "12345678901234567890123456789012345678e-400"] {
        let first = decode(ParameterName::t, dec(raw)).unwrap();
        let text = first.to_text();
        assert!(text.len() > 38);
        assert_eq!(decode(ParameterName::t, dec(&text)).unwrap(), first);
    }
}

#[test]
fn twenty_digit_readings() {
    let raw = raw_report(vec![raw_series(
        "2023-05-01T12:00:00Z",
        vec![
            raw_param("t", &["18446744073709551615"]),
            raw_param("wd", &["18446744073709551615"]),
            raw_param("r", &["-9223372036854775808"]),
        ],
    )]);
    let mut raw = raw;
    raw.geometry.coordinates = vec![vec!["18446744073709551615".to_string()]];
    let report = WeatherReport::parse(&raw, None).unwrap();
    let t = report.parameter_at(0, ParameterName::t).unwrap();
    assert_eq!(
        t.value,
        ParameterValue::Decimal(Decimal { mantissa: 18446744073709551615, exponent: 0 })
    );
    assert_eq!(t.to_text(), "18446744073709551615C");
    assert_eq!(
        report.parameter_at(0, ParameterName::wd).unwrap().value,
        ParameterValue::Integer(i32::MAX)
    );
    assert_eq!(
        report.parameter_at(0, ParameterName::r).unwrap().value,
        ParameterValue::Integer(i32::MIN)
    );
    assert_eq!(
        report.geometry.coordinates[0][0],
        Decimal { mantissa: 18446744073709551615, exponent: 0 }
    );
}
