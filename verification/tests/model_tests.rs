use adif_parser::display::{format_date, format_time, format_timestamp, truncate};
use adif_parser::{parse_adi, AdifFile, DataType, Field, Record};

#[test]
fn test_data_type_from_char_all_indicators() {
    assert_eq!(DataType::from_char('B'), Some(DataType::Boolean));
    assert_eq!(DataType::from_char('N'), Some(DataType::Number));
    assert_eq!(DataType::from_char('D'), Some(DataType::Date));
    assert_eq!(DataType::from_char('T'), Some(DataType::Time));
    assert_eq!(DataType::from_char('S'), Some(DataType::String));
    assert_eq!(DataType::from_char('M'), Some(DataType::MultilineString));
    assert_eq!(DataType::from_char('E'), Some(DataType::Enumeration));
    assert_eq!(DataType::from_char('L'), Some(DataType::Location));
    assert_eq!(DataType::from_char('I'), Some(DataType::IntlString));
    assert_eq!(DataType::from_char('G'), Some(DataType::IntlMultilineString));
    assert_eq!(DataType::from_char('Z'), None);
    assert_eq!(DataType::from_char('7'), None);
}

#[test]
fn test_data_type_round_trip_lowercase() {
    // to_char(from_char(c)) recovers the uppercased indicator
    for c in ['b', 'n', 'd', 't', 's', 'm', 'e', 'l', 'i', 'g'] {
        let dt = DataType::from_char(c).unwrap();
        assert_eq!(dt.to_char(), Some(c.to_ascii_uppercase()));
    }
    assert_eq!(DataType::Unspecified.to_char(), None);
}

#[test]
fn test_field_new_uppercases_name() {
    let f = Field::new("qso_date", "20240115");
    assert_eq!(f.name, "QSO_DATE");
    assert_eq!(f.data_type, DataType::Unspecified);
    assert_eq!(f.value, "20240115");

    let g = Field::with_type("freq", DataType::Number, "14.256");
    assert_eq!(g.name, "FREQ");
    assert_eq!(g.data_type, DataType::Number);
}

#[test]
fn test_record_get_is_case_insensitive() {
    let mut r = Record::new();
    r.add_field(Field::new("Call", "W1AW"));
    assert_eq!(r.get_value("call"), Some("W1AW"));
    assert_eq!(r.get_value("CALL"), Some("W1AW"));
    assert_eq!(r.get_value("cAlL"), Some("W1AW"));
    assert_eq!(r.get_value("band"), None);
}

#[test]
fn test_record_get_returns_first_match() {
    let mut r = Record::new();
    r.add_field(Field::new("CALL", "FIRST"));
    r.add_field(Field::new("CALL", "SECOND"));
    assert_eq!(r.get_value("CALL"), Some("FIRST"));
    assert_eq!(r.fields.len(), 2);
}

#[test]
fn test_record_accessors() {
    let mut r = Record::new();
    r.add_field(Field::new("CALL", "W1AW"));
    r.add_field(Field::new("QSO_DATE", "20240115"));
    r.add_field(Field::new("TIME_ON", "1430"));
    r.add_field(Field::new("BAND", "20m"));
    r.add_field(Field::new("FREQ", "14.256"));
    r.add_field(Field::new("MODE", "CW"));
    r.add_field(Field::new("RST_SENT", "599"));
    r.add_field(Field::new("RST_RCVD", "579"));
    assert_eq!(r.call(), Some("W1AW"));
    assert_eq!(r.qso_date(), Some("20240115"));
    assert_eq!(r.time_on(), Some("1430"));
    assert_eq!(r.band(), Some("20m"));
    assert_eq!(r.freq(), Some("14.256"));
    assert_eq!(r.mode(), Some("CW"));
    assert_eq!(r.rst_sent(), Some("599"));
    assert_eq!(r.rst_rcvd(), Some("579"));
}

#[test]
fn test_record_to_map_last_value_wins() {
    let mut r = Record::new();
    r.add_field(Field::new("CALL", "FIRST"));
    r.add_field(Field::new("CALL", "SECOND"));
    r.add_field(Field::new("BAND", "20m"));
    let m = r.to_map();
    assert_eq!(m.len(), 2);
    assert_eq!(m.get("CALL").map(|s| s.as_str()), Some("SECOND"));
    assert_eq!(m.get("BAND").map(|s| s.as_str()), Some("20m"));
}

#[test]
fn test_header_get_value() {
    let result = parse_adi("<ADIF_VER:5>3.1.4<MYFIELD:2>ok<EOH>").unwrap();
    let h = &result.header;
    assert_eq!(h.get_value("adif_ver"), Some("3.1.4"));
    assert_eq!(h.get_value("MYFIELD"), Some("ok"));
    assert_eq!(h.get_value("MISSING"), None);
    assert_eq!(h.get("myfield").unwrap().name, "MYFIELD");
    assert_eq!(h.fields.len(), 2);
}

#[test]
fn test_file_len_is_empty_iter() {
    let empty = AdifFile::new();
    assert_eq!(empty.len(), 0);
    assert!(empty.is_empty());

    let result = parse_adi("<CALL:5>W1AW1<EOR><CALL:5>W1AW2<EOR>").unwrap();
    assert_eq!(result.len(), 2);
    assert!(!result.is_empty());
    let calls: Vec<&str> = result.iter().iter().map(|r| r.call().unwrap()).collect();
    assert_eq!(calls, vec!["W1AW1", "W1AW2"]);
}

#[test]
fn test_format_date() {
    assert_eq!(format_date("20240115"), "2024-01-15");
    assert_eq!(format_date("2024"), "2024");
    assert_eq!(format_date(""), "");
}

#[test]
fn test_format_time() {
    assert_eq!(format_time("143000"), "14:30");
    assert_eq!(format_time("1430"), "14:30");
    assert_eq!(format_time("14"), "14");
}

#[test]
fn test_format_timestamp() {
    assert_eq!(format_timestamp("202401151430"), "2024-01-15 14:30");
    assert_eq!(format_timestamp("20240115143000"), "2024-01-15 14:30");
    assert_eq!(format_timestamp("20240115"), "2024-01-15");
    assert_eq!(format_timestamp("2024"), "2024");
}

#[test]
fn test_truncate() {
    assert_eq!(truncate("short", 12), "short");
    assert_eq!(truncate("exactlytwelve", 13), "exactlytwelve");
    assert_eq!(truncate("a much longer string", 10), "a much ...");
}
