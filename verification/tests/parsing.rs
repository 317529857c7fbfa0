use katastone::parse::{
    is_coordinate_text, parse_record, parse_records, serialize_record, ParseError, RowError,
};
use katastone::record::Record;

fn gontard_record() -> Record {
    Record {
        city: "Berlin".to_string(),
        street: "Gontardstrasse".to_string(),
        street_number: "9".to_string(),
        zipcode: "10178".to_string(),
        urban_unit: "Mitte".to_string(),
        old_unit: "Mitte".to_string(),
        district: "Mitte".to_string(),
        latitude: "52.5207635".to_string(),
        longitude: "13.4098665".to_string(),
        distance: "0".to_string(),
        angle: "0".to_string(),
        distance_key: 0,
    }
}

#[test]
fn parses_gontardstrasse_9() {
    let entry = "Berlin;Gontardstrasse;9;10178;Mitte;Mitte;Mitte;52.5207635;13.4098665";
    let vec = parse_records(entry).expect("well-formed row must parse");
    assert_eq!(vec, vec![gontard_record()]);
}

#[test]
fn round_trips_parsed_row() {
    let entry = "Berlin;Gontardstrasse;9;10178;Mitte;Mitte;Mitte;52.5207635;13.4098665";
    let rec = parse_record(entry).expect("well-formed row must parse");
    assert_eq!(serialize_record(&rec), entry);
}

#[test]
fn rejects_row_with_eight_fields() {
    let entry = "Berlin;Gontardstrasse;9;10178;Mitte;Mitte;52.5207635;13.4098665";
    let err = parse_record(entry).expect_err("a row with 8 fields must fail");
    assert_eq!(err, RowError::WrongFieldCount { found: 8 });
    let batch = parse_records(entry).expect_err("the batch must abort");
    assert_eq!(
        batch,
        ParseError {
            row: 0,
            error: RowError::WrongFieldCount { found: 8 }
        }
    );
}

#[test]
fn rejects_bad_coordinates() {
    let bad_lat = "Berlin;Gontardstrasse;9;10178;Mitte;Mitte;Mitte;abc;13.4098665";
    assert_eq!(parse_record(bad_lat), Err(RowError::InvalidLatitude));
    let bad_lon = "Berlin;Gontardstrasse;9;10178;Mitte;Mitte;Mitte;52.5207635;";
    assert_eq!(parse_record(bad_lon), Err(RowError::InvalidLongitude));
}

#[test]
fn aborts_batch_on_first_malformed_row() {
    let input = "a;b;c;d;e;f;g;1.0;2.0\na;b;c;d;e;f;g;x;2.0\na;b;c;d;e;f;g";
    let err = parse_records(input).expect_err("the second row is malformed");
    assert_eq!(err.row, 1);
    assert_eq!(err.error, RowError::InvalidLatitude);
}

#[test]
fn accepts_decimal_number_forms() {
    for good in [
        "0", "52.5207635", "-13.4", "+7", "1e5", "1.5e-3", ".5", "5.", "-0.0", "2E8",
    ] {
        assert!(is_coordinate_text(good), "{good} should be accepted");
    }
    for bad in [
        "", "abc", "1.2.3", "--5", "5e", "e5", ".", "+", "1,5", "inf", "NaN", "1 2",
    ] {
        assert!(!is_coordinate_text(bad), "{bad} should be rejected");
    }
}

#[test]
fn handles_line_endings() {
    let unix = "a;b;c;d;e;f;g;1.0;2.0\n";
    assert_eq!(parse_records(unix).unwrap().len(), 1);
    let dos = "a;b;c;d;e;f;g;1.0;2.0\r\na;b;c;d;e;f;g;3.0;4.0\r\n";
    let recs = parse_records(dos).unwrap();
    assert_eq!(recs.len(), 2);
    assert_eq!(recs[1].latitude, "3.0");
    let empty = "";
    assert_eq!(parse_records(empty).unwrap().len(), 0);
}
