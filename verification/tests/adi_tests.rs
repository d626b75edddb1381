use adif_parser::{parse_adi, AdifError, DataType};

#[test]
fn test_parse_simple_record() {
    let input = "<CALL:6>W1AW00<QSO_DATE:8>20240115<TIME_ON:6>143000<BAND:3>20m<MODE:2>CW<EOR>";
    let result = parse_adi(input).unwrap();

    assert_eq!(result.records.len(), 1);
    let record = &result.records[0];
    assert_eq!(record.call(), Some("W1AW00"));
    assert_eq!(record.qso_date(), Some("20240115"));
    assert_eq!(record.time_on(), Some("143000"));
    assert_eq!(record.band(), Some("20m"));
    assert_eq!(record.mode(), Some("CW"));
}

#[test]
fn test_parse_with_header() {
    let input = "ADIF Export\n<ADIF_VER:5>3.1.4\n<PROGRAMID:4>Test\n<EOH>\n<CALL:6>N0CALL<QSO_DATE:8>20240115<EOR>\n";
    let result = parse_adi(input).unwrap();

    assert_eq!(result.header.adif_version, Some("3.1.4".to_string()));
    assert_eq!(result.header.program_id, Some("Test".to_string()));
    assert!(result.header.preamble.contains("ADIF Export"));
    assert_eq!(result.records.len(), 1);
    assert_eq!(result.records[0].call(), Some("N0CALL"));
}

#[test]
fn test_parse_multiple_records() {
    let input = "<CALL:5>W1AW1<EOR><CALL:5>W1AW2<EOR><CALL:5>W1AW3<EOR>";
    let result = parse_adi(input).unwrap();

    assert_eq!(result.records.len(), 3);
    assert_eq!(result.records[0].call(), Some("W1AW1"));
    assert_eq!(result.records[1].call(), Some("W1AW2"));
    assert_eq!(result.records[2].call(), Some("W1AW3"));
}

#[test]
fn test_parse_with_type_indicator() {
    let input = "<FREQ:6:N>14.256<EOR>";
    let result = parse_adi(input).unwrap();

    assert_eq!(result.records.len(), 1);
    let freq_field = result.records[0].get("FREQ").unwrap();
    assert_eq!(freq_field.value, "14.256");
    assert_eq!(freq_field.data_type, DataType::Number);
}

#[test]
fn test_case_insensitive_field_names() {
    let input = "<call:5>W1AW1<Call:5>W1AW2<CALL:5>W1AW3<EOR>";
    let result = parse_adi(input).unwrap();

    assert_eq!(result.records.len(), 1);
    // All three fields should be stored as uppercase
    let calls: Vec<&str> = result.records[0]
        .fields
        .iter()
        .filter(|f| f.name == "CALL")
        .map(|f| f.value.as_str())
        .collect();
    assert_eq!(calls.len(), 3);
}

#[test]
fn test_parse_with_eof() {
    let input = "<CALL:5>W1AW1<EOR><EOF>";
    let result = parse_adi(input).unwrap();

    assert_eq!(result.records.len(), 1);
}

#[test]
fn test_empty_file() {
    let input = "";
    let result = parse_adi(input).unwrap();

    assert!(result.records.is_empty());
}

#[test]
fn test_header_only() {
    let input = "<ADIF_VER:5>3.1.4<EOH>";
    let result = parse_adi(input).unwrap();

    assert_eq!(result.header.adif_version, Some("3.1.4".to_string()));
    assert!(result.records.is_empty());
}

#[test]
fn test_length_too_short_fails() {
    let err = parse_adi("<CALL:10>ABC").unwrap_err();
    match err {
        AdifError::InvalidFieldLength { expected, found, .. } => {
            assert_eq!(expected, 10);
            assert_eq!(found, 3);
        }
        other => panic!("wrong error: {:?}", other),
    }
}

#[test]
fn test_eor_with_no_fields_emits_nothing() {
    let result = parse_adi("<EOR><EOR><CALL:5>N0CALL<EOR>").unwrap();
    assert_eq!(result.records.len(), 1);
    assert_eq!(result.records[0].call(), Some("N0CAL"));
}

#[test]
fn test_trailing_record_without_eor_is_kept() {
    let result = parse_adi("<CALL:5>W1AW1").unwrap();
    assert_eq!(result.records.len(), 1);
    assert_eq!(result.records[0].call(), Some("W1AW1"));
}

#[test]
fn test_eof_discards_everything_after() {
    let result = parse_adi("<CALL:5>W1AW1<EOR><EOF><CALL:5>W1AW2<EOR>").unwrap();
    assert_eq!(result.records.len(), 1);
    assert_eq!(result.records[0].call(), Some("W1AW1"));
}

#[test]
fn test_no_eoh_means_no_header() {
    let result = parse_adi("<ADIF_VER:5>3.1.4<CALL:5>W1AW1<EOR>").unwrap();
    // Without <EOH> the whole input is record data
    assert_eq!(result.header.adif_version, None);
    assert_eq!(result.header.fields.len(), 0);
    assert_eq!(result.header.preamble, "");
    assert_eq!(result.records.len(), 1);
    assert_eq!(result.records[0].fields.len(), 2);
}

#[test]
fn test_eoh_with_no_fields_gives_empty_header() {
    let result = parse_adi("<EOH><CALL:5>W1AW1<EOR>").unwrap();
    assert_eq!(result.header.fields.len(), 0);
    assert_eq!(result.header.adif_version, None);
    assert_eq!(result.records.len(), 1);
}

#[test]
fn test_empty_field_name_fails() {
    let err = parse_adi("<:5>ABCDE").unwrap_err();
    assert!(matches!(err, AdifError::InvalidDataSpecifier { position: 0, .. }));
}

#[test]
fn test_unterminated_name_fails() {
    let err = parse_adi("<CALL").unwrap_err();
    assert!(matches!(err, AdifError::InvalidDataSpecifier { position: 5, .. }));
}

#[test]
fn test_missing_digits_fails() {
    let err = parse_adi("<CALL:>AB").unwrap_err();
    assert!(matches!(err, AdifError::InvalidDataSpecifier { position: 6, .. }));
}

#[test]
fn test_truncated_type_clause_fails() {
    let err = parse_adi("<CALL:5:").unwrap_err();
    assert!(matches!(err, AdifError::UnexpectedEof(8)));
}

#[test]
fn test_missing_close_fails() {
    let err = parse_adi("<CALL:5:SX1AW1").unwrap_err();
    assert!(matches!(err, AdifError::InvalidDataSpecifier { position: 9, .. }));
}

#[test]
fn test_unknown_type_indicator_degrades() {
    let result = parse_adi("<FREQ:6:Q>14.256<EOR>").unwrap();
    let f = result.records[0].get("freq").unwrap();
    assert_eq!(f.data_type, DataType::Unspecified);
    assert_eq!(f.value, "14.256");
}

#[test]
fn test_marker_like_field_joins_record() {
    // A marker tag with an unrecognized name is a field with an empty value
    let result = parse_adi("<QRP><CALL:5>W1AW1<EOR>").unwrap();
    assert_eq!(result.records.len(), 1);
    assert_eq!(result.records[0].get_value("QRP"), Some(""));
}

#[test]
fn test_lowercase_markers_recognized() {
    let result = parse_adi("pre<adif_ver:5>3.1.4<eoh><call:5>W1AW1<eor><eof>").unwrap();
    assert_eq!(result.header.adif_version, Some("3.1.4".to_string()));
    assert_eq!(result.header.preamble, "pre");
    assert_eq!(result.records.len(), 1);
    assert_eq!(result.records[0].call(), Some("W1AW1"));
}

#[test]
fn test_multibyte_values_counted_in_characters() {
    // Lengths count Unicode scalar values, not bytes
    let result = parse_adi("<NAME:4>héllo<EOR>").unwrap();
    assert_eq!(result.records[0].get_value("NAME"), Some("héll"));
}

#[test]
fn test_repeated_well_known_header_field_last_wins() {
    let result = parse_adi("<ADIF_VER:3>3.1<ADIF_VER:5>3.1.4<EOH>").unwrap();
    assert_eq!(result.header.adif_version, Some("3.1.4".to_string()));
    assert_eq!(result.header.fields.len(), 2);
}
