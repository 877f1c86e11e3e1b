use pratmo_core::lines::{next_line, skip_line, LineError, LineSource};
use pratmo_core::text::{
    e_field_text, field, fix_bare_exponent, parse_fixed_i32s, parse_fortran_logicals, parse_i32,
    parse_usize, trim,
};

/// The float an `E10.3` field reads as: zero when blank, else the field's
/// text (with its exponent letter restored) as a float.
fn parse_e_field(s: &str) -> f64 {
    match e_field_text(s.as_bytes()) {
        None => 0.0,
        Some(t) => std::str::from_utf8(&t).unwrap().parse::<f64>().unwrap_or(0.0),
    }
}

#[test]
fn test_parse_e_field_standard() {
    assert!((parse_e_field("1.80E-11") - 1.80e-11).abs() < 1e-20);
    assert!((parse_e_field("3.50E+02") - 350.0).abs() < 1e-10);
    assert!((parse_e_field("0.0      ") - 0.0).abs() < 1e-30);
}

#[test]
fn test_parse_e_field_bare_exponent() {
    assert!((parse_e_field("1.80-11") - 1.80e-11).abs() < 1e-20);
    assert!((parse_e_field("3.50+02") - 350.0).abs() < 1e-10);
    assert!((parse_e_field("2.997+08") - 2.997e8).abs() < 1e-0);
}

#[test]
fn test_parse_e_field_zero() {
    assert_eq!(parse_e_field(""), 0.0);
    assert_eq!(parse_e_field("   "), 0.0);
}

#[test]
fn test_parse_fixed_i32s_boxdo() {
    let line = "BOXDO-30-29-28-27-26";
    let vals = parse_fixed_i32s(line, 5, 3, 5);
    assert_eq!(vals, vec![-30, -29, -28, -27, -26]);
}

#[test]
fn test_parse_fixed_i32s_positive() {
    let line = "     001002003004";
    let vals = parse_fixed_i32s(line, 5, 3, 4);
    assert_eq!(vals, vec![1, 2, 3, 4]);
}

#[test]
fn test_parse_fixed_i32s_truncated() {
    let line = "LABEL  1  2";
    let vals = parse_fixed_i32s(line, 5, 3, 5);
    assert_eq!(vals[0], 1);
    assert_eq!(vals[1], 2);
    assert_eq!(vals[2], 0);
}

/// The fixed-width integer reader written directly with std.
fn std_fields(line: &str, offset: usize, width: usize, count: usize) -> Vec<i32> {
    let bytes = line.as_bytes();
    (0..count)
        .map(|i| {
            let start = offset + i * width;
            if start >= bytes.len() {
                return 0;
            }
            let end = (start + width).min(bytes.len());
            let chunk = std::str::from_utf8(&bytes[start..end]).unwrap_or("0").trim();
            chunk.parse::<i32>().unwrap_or(0)
        })
        .collect()
}

#[test]
fn fixed_fields_with_garbage_or_signs_read_as_std_does() {
    // A lone sign, a letter and an overflowing field all read as zero.
    let vals = parse_fixed_i32s("  -  x 99999999999 +7", 0, 3, 7);
    assert_eq!(vals, vec![0, 0, 99, 999, 999, 999, 7]);
    let vals = parse_fixed_i32s("  -  x99999999999 +7", 0, 6, 4);
    assert_eq!(vals, std_fields("  -  x99999999999 +7", 0, 6, 4));
    for line in ["  -  x 99999999999 +7", " 1\u{a0}2 -3 ++4", "\u{2003}12\u{2003}", "BOXDO-30-29"] {
        for width in 1..6 {
            assert_eq!(parse_fixed_i32s(line, 1, width, 6), std_fields(line, 1, width, 6));
        }
    }
    // The header line of the control file: `A10,14I5`.
    let ints = parse_fixed_i32s("NW--QQQQQQ   40   77    1   77    0   15    6", 10, 5, 14);
    assert_eq!(&ints[..8], &[40, 77, 1, 77, 0, 15, 6, 0]);
    assert_eq!(ints.len(), 14);
}

#[test]
fn fixed_field_cut_inside_a_character_reads_as_zero() {
    // "é" is two bytes; a 1-byte field cuts it and is not UTF-8 text.
    let vals = parse_fixed_i32s("é5", 0, 1, 3);
    assert_eq!(vals, vec![0, 0, 5]);
}

#[test]
fn integer_text_follows_the_std_grammar() {
    assert_eq!(parse_i32(b"-2147483648"), Some(i32::MIN));
    assert_eq!(parse_i32(b"2147483648"), None);
    assert_eq!(parse_i32(b"+12"), Some(12));
    assert_eq!(parse_i32(b"-"), None);
    assert_eq!(parse_i32(b""), None);
    assert_eq!(parse_i32(b"1 2"), None);
    assert_eq!(parse_usize(b"-1"), None);
    assert_eq!(parse_usize(b"+40"), Some(40));
    assert_eq!("0012".parse::<i32>().ok(), parse_i32(b"0012"));
}

#[test]
fn trimming_removes_unicode_whitespace_at_both_ends() {
    let s = "\u{3000}\t ab c\u{a0}\n";
    assert_eq!(trim(s.as_bytes()), s.trim().as_bytes());
    assert_eq!(trim(b"   "), b"");
    assert_eq!(field(b"abcdef", 2, 4), Some(&b"cd"[..]));
    assert_eq!(field(b"abc", 2, 4), None);
    assert_eq!(field("é".as_bytes(), 0, 1), None);
}

#[test]
fn fortran_logicals_read_t_and_true_in_any_case() {
    let v = parse_fortran_logicals(" T F .true. .T. x", 5);
    assert_eq!(v, vec![true, false, true, true, false]);
    let v = parse_fortran_logicals(" t", 3);
    assert_eq!(v, vec![true, false, false]);
    let v = parse_fortran_logicals("T T T", 2);
    assert_eq!(v, vec![true, true]);
}

#[test]
fn bare_exponent_gets_its_letter() {
    assert_eq!(fix_bare_exponent(b"1.80-11"), b"1.80e-11".to_vec());
    assert_eq!(fix_bare_exponent(b"-1.0+02"), b"-1.0e+02".to_vec());
    assert_eq!(fix_bare_exponent(b"+5"), b"+5".to_vec());
    assert_eq!(fix_bare_exponent(b"12"), b"12".to_vec());
}

#[test]
fn lines_are_read_without_their_endings() {
    let mut src = LineSource::new(b"first\r\nsecond\n\nlast".to_vec());
    assert_eq!(next_line(&mut src), Ok(b"first".to_vec()));
    assert_eq!(skip_line(&mut src), Ok(()));
    assert_eq!(next_line(&mut src), Ok(Vec::new()));
    assert_eq!(next_line(&mut src), Ok(b"last".to_vec()));
    assert!(src.at_end());
    assert_eq!(next_line(&mut src), Ok(Vec::new()));
}

#[test]
fn a_line_that_is_not_utf8_is_refused() {
    let mut src = LineSource::new(vec![0x41, 0xff, 0x0a, 0x42]);
    assert_eq!(next_line(&mut src), Err(LineError::NotUtf8));
    assert_eq!(next_line(&mut src), Ok(b"B".to_vec()));
}

/// The floats of fixed-width fields, as the control-file reader stores them.
fn parse_fixed_f64s_fw(line: &str, offset: usize, width: usize, count: usize) -> Vec<f64> {
    pratmo_core::text::fixed_texts(line.as_bytes(), offset, width, count)
        .iter()
        .map(|t| std::str::from_utf8(t).unwrap().parse::<f64>().unwrap_or(0.0))
        .collect()
}

#[test]
fn test_parse_fixed_f64s_atime() {
    // "A10,14F5.2" -> skip 10 chars, then 5-char floats
    let line = "DAY INTVAL 0.15 0.30 0.45 0.60 0.70";
    let vals = parse_fixed_f64s_fw(line, 10, 5, 5);
    assert!((vals[0] - 0.15).abs() < 1e-6, "vals[0]={}", vals[0]);
    assert!((vals[2] - 0.45).abs() < 1e-6, "vals[2]={}", vals[2]);
    assert!((vals[4] - 0.70).abs() < 1e-6, "vals[4]={}", vals[4]);
}

#[test]
fn fixed_float_fields_past_the_line_or_cut_in_a_character_are_empty() {
    let v = pratmo_core::text::fixed_texts("ABC é12".as_bytes(), 3, 3, 3);
    assert_eq!(v, vec!["é".as_bytes().to_vec(), b"12".to_vec(), Vec::new()]);
    let v = pratmo_core::text::fixed_texts("ABC é12".as_bytes(), 4, 1, 2);
    assert_eq!(v, vec![Vec::<u8>::new(), Vec::new()]);
}
