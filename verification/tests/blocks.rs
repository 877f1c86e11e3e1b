use pratmo_core::blocks::{read_f7_block, read_f8_block, read_fixed_block, BlockError};
use pratmo_core::lines::LineSource;

fn source(text: &str) -> LineSource {
    LineSource::new(text.as_bytes().to_vec())
}

/// The floats of a block, as the climatology readers store them.
fn floats(texts: Vec<Vec<u8>>) -> Vec<f64> {
    texts
        .iter()
        .map(|t| std::str::from_utf8(t).unwrap().parse::<f64>().unwrap_or(0.0))
        .collect()
}

fn read_f8_4(text: &str, count: usize) -> Vec<f64> {
    floats(read_f8_block(&mut source(text), count).unwrap())
}

fn read_f7_1(text: &str, count: usize) -> Vec<f64> {
    floats(read_f7_block(&mut source(text), count).unwrap())
}

#[test]
fn test_read_f8_4_single_line() {
    let data = "     0.3162  0.0631  0.0126  0.0025  0.0005  0.0001\n";
    let vals = read_f8_4(data, 6);
    assert_eq!(vals.len(), 6, "expected 6 values, got {}", vals.len());
    assert!((vals[0] - 0.3162).abs() < 1e-4, "vals[0]={}", vals[0]);
    assert!((vals[1] - 0.0631).abs() < 1e-4, "vals[1]={}", vals[1]);
    assert!((vals[5] - 0.0001).abs() < 1e-5, "vals[5]={}", vals[5]);
}

#[test]
fn test_read_f8_4_multiline() {
    let line1 = "     0.3162  0.0631  0.0126  0.0025  0.0005  0.0001  0.3162  0.0631  0.0126  0.0025  0.0005\n";
    let line2 = "     0.0001  0.3162\n";
    let data = format!("{line1}{line2}");
    let vals = read_f8_4(&data, 13);
    assert_eq!(vals.len(), 13);
    assert!((vals[0] - 0.3162).abs() < 1e-4, "vals[0]={}", vals[0]);
    assert!((vals[11] - 0.0001).abs() < 1e-5, "vals[11]={}", vals[11]);
    assert!((vals[12] - 0.3162).abs() < 1e-4, "vals[12]={}", vals[12]);
}

#[test]
fn test_read_f7_1_temperature() {
    let data = "     250.0  240.5  230.1\n";
    let vals = read_f7_1(data, 3);
    assert_eq!(vals.len(), 3, "expected 3 values, got {}", vals.len());
    assert!((vals[0] - 250.0).abs() < 0.05, "vals[0]={}", vals[0]);
    assert!((vals[1] - 240.5).abs() < 0.05, "vals[1]={}", vals[1]);
    assert!((vals[2] - 230.1).abs() < 0.05, "vals[2]={}", vals[2]);
}

#[test]
fn f7_fields_count_the_line_ending() {
    // Without its ending the record holds two whole fields; the newline
    // completes a third.
    let mut src = source("     250.0  240.5 230.5\n");
    let v = read_f7_block(&mut src, 5).unwrap();
    assert_eq!(v, vec![b"250.0".to_vec(), b"240.5".to_vec(), b"230.5".to_vec()]);
    // The F8 records drop their trailing whitespace, ending included, and
    // cut the same record in eight columns.
    let mut src = source("     250.0  240.5 230.5\n");
    let v = read_f8_block(&mut src, 5).unwrap();
    assert_eq!(v, vec![b"250.0".to_vec(), b"240.5 2".to_vec()]);
}

#[test]
fn blocks_stop_at_the_count_and_leave_the_rest() {
    let mut src = source("   1111111222222233333334444444\n   5555555\n");
    let v = read_f7_block(&mut src, 2).unwrap();
    assert_eq!(v, vec![b"1111111".to_vec(), b"2222222".to_vec()]);
    let v = read_f7_block(&mut src, 1).unwrap();
    assert_eq!(v, vec![b"5555555".to_vec()]);
}

#[test]
fn blocks_end_with_the_file() {
    let mut src = source("   1111111");
    assert_eq!(read_f7_block(&mut src, 4).unwrap(), vec![b"1111111".to_vec()]);
    assert!(src.at_end());
    let mut src = source("");
    assert_eq!(read_f8_block(&mut src, 3).unwrap(), Vec::<Vec<u8>>::new());
}

#[test]
fn blocks_refuse_cuts_inside_characters() {
    let mut src = source("  é1234567\n");
    assert_eq!(read_f7_block(&mut src, 1), Err(BlockError::NotAtCharBoundary));
    let mut src = source("   12345é\n");
    assert_eq!(read_fixed_block(&mut src, 1, 6, true, false), Err(BlockError::NotAtCharBoundary));
    let mut src = LineSource::new(vec![b' ', b' ', b' ', 0xff, b'\n']);
    assert_eq!(read_f7_block(&mut src, 1), Err(BlockError::NotUtf8));
}
