use katastone::calculations::Geometry;
use katastone::de_float::germanize_float;
use katastone::encoding::{encoded_report_line, records_from_windows1252};
use katastone::record::{render_report, Record};
use katastone::sort::sort_by_distance;

fn record(zipcode: &str, city: &str, district: &str, street: &str, number: &str) -> Record {
    Record {
        city: city.to_string(),
        street: street.to_string(),
        street_number: number.to_string(),
        zipcode: zipcode.to_string(),
        urban_unit: "Mitte".to_string(),
        old_unit: "Mitte".to_string(),
        district: district.to_string(),
        latitude: "52.5207635".to_string(),
        longitude: "13.4098665".to_string(),
        distance: "0".to_string(),
        angle: "0".to_string(),
        distance_key: 0,
    }
}

/// An order-preserving integer key for a finite distance.
fn distance_key(d: f64) -> u64 {
    let bits = d.to_bits();
    if bits & (1u64 << 63) != 0 {
        !bits
    } else {
        bits | (1u64 << 63)
    }
}

#[test]
fn displays() {
    let rec = record("10178", "Berlin", "Mitte", "Gontardstrasse", "9");
    let line = rec.render();
    let expected = format!("10178 Berlin - {:75}Gontardstrasse 9 = 0m / 0\u{00B0}", "Mitte,");
    assert_eq!(line, expected);
}

#[test]
fn pads_short_districts_to_seventy_five() {
    let rec = record("10178", "Berlin", "Mitte", "Gontardstrasse", "9");
    let line = rec.render();
    let head = "10178 Berlin - ";
    let segment: String = line.chars().skip(head.len()).take(75).collect();
    assert!(segment.starts_with("Mitte,"));
    assert!(segment.ends_with(' '));
    assert_eq!(segment.trim_end(), "Mitte,");
    let after: String = line.chars().skip(head.len() + 75).collect();
    assert!(after.starts_with("Gontardstrasse"));
}

#[test]
fn sorts_rendered_output_by_ascending_distance() {
    let mut a = record("10178", "Berlin", "Mitte", "Near", "1");
    a.set_angle_direction(Geometry {
        distance: "28".to_string(),
        angle: "98".to_string(),
        distance_key: distance_key(28.0),
    });
    let mut b = record("10178", "Berlin", "Mitte", "Far", "2");
    b.set_angle_direction(Geometry {
        distance: "243".to_string(),
        angle: "8".to_string(),
        distance_key: distance_key(243.0),
    });
    let mut c = record("10178", "Berlin", "Mitte", "Here", "3");
    c.set_angle_direction(Geometry {
        distance: "0".to_string(),
        angle: "0".to_string(),
        distance_key: distance_key(0.0),
    });
    let mut records = vec![a, b, c];
    sort_by_distance(&mut records);
    let lines = render_report(&records);
    assert_eq!(lines.len(), 3);
    assert!(lines[0].contains("Here 3 = 0m"));
    assert!(lines[1].contains("Near 1 = 28m"));
    assert!(lines[2].contains("Far 2 = 243m"));
}

#[test]
fn keeps_equal_distances_in_input_order() {
    let mut first = record("10178", "Berlin", "Mitte", "First", "1");
    first.distance_key = 7;
    let mut second = record("10178", "Berlin", "Mitte", "Second", "2");
    second.distance_key = 7;
    let mut third = record("10178", "Berlin", "Mitte", "Third", "3");
    third.distance_key = 1;
    let mut records = vec![first, second, third];
    sort_by_distance(&mut records);
    assert_eq!(records[0].street, "Third");
    assert_eq!(records[1].street, "First");
    assert_eq!(records[2].street, "Second");
}

#[test]
fn germanizes() {
    let f = 134563435.34534523f64;
    let mut formatted = format!("{f}");
    germanize_float(&mut formatted);
    assert_eq!(formatted, "134.563.435,34534523");
}

#[test]
fn germanizes_small_and_plain_numbers() {
    let mut s = "234.5".to_string();
    germanize_float(&mut s);
    assert_eq!(s, "234,5");
    let mut s = "1234.5".to_string();
    germanize_float(&mut s);
    assert_eq!(s, "1.234,5");
    let mut s = "1234".to_string();
    germanize_float(&mut s);
    assert_eq!(s, "1234");
}

#[test]
fn orders_records_naturally_by_text_fields() {
    let a = record("10178", "Berlin", "Mitte", "Anton", "1");
    let b = record("10178", "Berlin", "Mitte", "Bruno", "1");
    assert_eq!(a.partial_cmp(&b), Some(std::cmp::Ordering::Less));
    let c = record("99999", "Aachen", "Mitte", "Zoo", "9");
    assert!(c < a, "city decides before zipcode");
    let d = record("10178", "Berlin", "Mitte", "Anton", "1");
    assert_eq!(a.partial_cmp(&d), Some(std::cmp::Ordering::Equal));
}

#[test]
fn reads_input_with_windows_encoding_bytes() {
    // 0xdf is the sharp s and 0xf6 the o-umlaut in windows-1252
    let bytes = b"Berlin;Stra\xdfe des 17. Juni;1;10623;K\xf6penick;Mitte;Mitte;52.5;13.3\n";
    let recs = records_from_windows1252(bytes).expect("row must parse");
    assert_eq!(recs.len(), 1);
    assert_eq!(recs[0].street, "Stra\u{00DF}e des 17. Juni");
    assert_eq!(recs[0].urban_unit, "K\u{00F6}penick");
}

#[test]
fn encodes_report_line_back_to_windows1252() {
    let rec = record("10178", "Berlin", "Tr\u{00E4}ume", "Stra\u{00DF}e", "9");
    let bytes = encoded_report_line(&rec);
    // the umlaut a, the sharp s and the degree sign take their single-byte
    // windows-1252 values; the line ends with a line feed
    assert!(bytes.contains(&0xe4));
    assert!(bytes.contains(&0xdf));
    assert!(bytes.contains(&0xb0));
    assert_eq!(*bytes.last().unwrap(), b'\n');
    let ascii = record("10178", "Berlin", "Mitte", "Plain", "1");
    let ascii_bytes = encoded_report_line(&ascii);
    let expected = format!("10178 Berlin - {:75}Plain 1 = 0m / 0\u{00B0}\n", "Mitte,");
    let expected_bytes: Vec<u8> =
        expected.chars().map(|c| if c == '\u{00B0}' { 0xb0 } else { c as u8 }).collect();
    assert_eq!(ascii_bytes, expected_bytes);
}
