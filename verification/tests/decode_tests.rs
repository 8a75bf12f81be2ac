//! Tests of the CSV decoder and the compressed-stream adapter.

use wine_trees::decode::{array_from_csv, array_from_csv_gz, RawMatrix};
use wine_trees::errors::ReadError;

use std::io::Write;

fn cells(m: &RawMatrix) -> Vec<Vec<String>> {
    m.cells
        .iter()
        .map(|row| row.iter().map(|c| String::from_utf8(c.clone()).unwrap()).collect())
        .collect()
}

fn gzip(data: &[u8]) -> Vec<u8> {
    let mut enc = flate2::write::GzEncoder::new(Vec::new(), flate2::Compression::default());
    enc.write_all(data).unwrap();
    enc.finish().unwrap()
}

#[test]
fn decode_header_shape() {
    // row count is the record count minus one; the header fixes the width
    let input = b"a,b,c\n1,2,3\n4.5,6e1,-7\n";
    let m = array_from_csv(input, true, b',').unwrap();
    assert_eq!(m.cells.len(), 2);
    assert_eq!(
        cells(&m),
        vec![
            vec!["1".to_string(), "2".to_string(), "3".to_string()],
            vec!["4.5".to_string(), "6e1".to_string(), "-7".to_string()],
        ]
    );
}

#[test]
fn decode_without_header() {
    let input = b"1,2\n3,4\n";
    let m = array_from_csv(input, false, b',').unwrap();
    assert_eq!(m.cells.len(), 2);
    assert_eq!(cells(&m)[1], vec!["3".to_string(), "4".to_string()]);
}

#[test]
fn decode_crlf_and_blank_lines() {
    let input = b"h1,h2\r\n1,2\r\n\r\n3,4";
    let m = array_from_csv(input, true, b',').unwrap();
    assert_eq!(cells(&m), vec![vec!["1".to_string(), "2".to_string()], vec![
        "3".to_string(),
        "4".to_string()
    ]]);
}

#[test]
fn decode_other_delimiter() {
    let input = b"h1;h2\n1.5;2.5\n";
    let m = array_from_csv(input, true, b';').unwrap();
    assert_eq!(cells(&m), vec![vec!["1.5".to_string(), "2.5".to_string()]]);
}

#[test]
fn decode_ragged_row_is_format_error() {
    let input = b"a,b,c\n1,2,3\n4,5\n";
    assert_eq!(array_from_csv(input, true, b',').unwrap_err(), ReadError::Format { row: 1 });
}

#[test]
fn decode_non_numeric_cell_is_parse_error() {
    let input = b"a,b\n1,2\n3,oops\n";
    assert_eq!(array_from_csv(input, true, b',').unwrap_err(), ReadError::Parse {
        row: 1,
        col: 1
    });
}

#[test]
fn decode_numeric_grammar() {
    // accepted forms of standard decimal notation
    let ok = b"h\n.5\n+3.\n-1.25e-3\n42\n1E6\n";
    assert!(array_from_csv(ok, true, b',').is_ok());
    // a malformed number is a parse error
    let bad = b"h\n1.2.3\n";
    assert_eq!(array_from_csv(bad, true, b',').unwrap_err(), ReadError::Parse {
        row: 0,
        col: 0
    });
    // so is an empty field
    let empty = b"a,b\n1,\n";
    assert_eq!(array_from_csv(empty, true, b',').unwrap_err(), ReadError::Parse {
        row: 0,
        col: 1
    });
}

#[test]
fn decode_empty_input() {
    assert_eq!(array_from_csv(b"", true, b',').unwrap_err(), ReadError::EmptyInput);
    assert_eq!(array_from_csv(b"only,a,header\n", true, b',').unwrap_err(), ReadError::EmptyInput);
    assert_eq!(array_from_csv(b"", false, b',').unwrap_err(), ReadError::EmptyInput);
}

#[test]
fn decode_matches_csv_crate() {
    // the decoder agrees with a general-purpose CSV reader on numeric input
    let input = b"x,y,z\n1,2.5,3e2\n-4,.5,6.\n7,8,9\n";
    let ours = array_from_csv(input, true, b',').unwrap();
    let mut reader = csv::ReaderBuilder::new()
        .has_headers(true)
        .delimiter(b',')
        .from_reader(&input[..]);
    let theirs: Vec<Vec<f64>> = reader
        .records()
        .map(|r| r.unwrap().iter().map(|f| f.parse::<f64>().unwrap()).collect())
        .collect();
    let ours_parsed: Vec<Vec<f64>> = cells(&ours)
        .iter()
        .map(|row| row.iter().map(|c| c.parse::<f64>().unwrap()).collect())
        .collect();
    assert_eq!(ours_parsed, theirs);
}

#[test]
fn gz_round_trip() {
    // decoding a CSV and its gzip-compressed equivalent yields identical matrices
    let input = b"a,b,c\n1,2,3\n4,5,6\n7.5,8.25,9e0\n";
    let plain = array_from_csv(input, true, b',').unwrap();
    let compressed = gzip(input);
    let via_gz = array_from_csv_gz(&compressed, true, b',').unwrap();
    assert_eq!(cells(&plain), cells(&via_gz));
}

#[test]
fn gz_round_trip_errors_match() {
    let input = b"a,b\n1,nope\n";
    let plain = array_from_csv(input, true, b',').unwrap_err();
    let via_gz = array_from_csv_gz(&gzip(input), true, b',').unwrap_err();
    assert_eq!(plain, via_gz);
}

#[test]
fn corrupt_gzip_is_decompression_error() {
    let garbage = b"this is not a gzip stream";
    assert_eq!(
        array_from_csv_gz(garbage, true, b',').unwrap_err(),
        ReadError::Decompression
    );
    // truncated framing
    let mut c = gzip(b"a\n1\n2\n");
    c.truncate(c.len() / 2);
    assert_eq!(array_from_csv_gz(&c, true, b',').unwrap_err(), ReadError::Decompression);
}
