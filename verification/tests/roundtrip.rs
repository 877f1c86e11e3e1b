use pratmo_core::format::{write_a8_line, write_i5_line};
use pratmo_core::text::{fixed_texts, parse_fixed_i32s};

#[test]
fn i5_line_reads_back_every_value() {
    let vals = [1, -23, 99999, -9999, 0, 7, 4000, -1];
    let text = String::from_utf8(write_i5_line(&vals)).unwrap();
    assert_eq!(parse_fixed_i32s(&text, 0, 5, vals.len()), vals.to_vec());
}

#[test]
fn i5_line_of_sixteen_values_reads_back() {
    let vals: Vec<i32> = (0..16).map(|k| k * 1111 - 5000).collect();
    let text = String::from_utf8(write_i5_line(&vals)).unwrap();
    assert_eq!(parse_fixed_i32s(&text, 0, 5, 16), vals);
}

#[test]
fn i5_value_too_wide_does_not_read_back() {
    // Six digits overflow the five columns, so the fields shift.
    let text = String::from_utf8(write_i5_line(&[123456, 7])).unwrap();
    assert_ne!(parse_fixed_i32s(&text, 0, 5, 2), vec![123456, 7]);
}

#[test]
fn a8_line_reads_back_every_name() {
    let names: Vec<Vec<u8>> =
        ["NO", "O3", "", "CH3O2H", "ABCDEFGH", "N2O5"].iter().map(|s| s.as_bytes().to_vec()).collect();
    let line = write_a8_line(&names);
    assert_eq!(fixed_texts(&line, 0, 8, names.len()), names);
}

#[test]
fn a8_name_with_a_leading_blank_does_not_read_back() {
    let names = vec![b" NO".to_vec()];
    let line = write_a8_line(&names);
    assert_eq!(fixed_texts(&line, 0, 8, 1), vec![b"NO".to_vec()]);
}
