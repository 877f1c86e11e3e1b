use pratmo_core::control::{
    read_box_tables, read_long_lived, read_radical_block, read_rate_override, read_run_control,
    read_run_header, read_run_tail, ControlError,
};
use pratmo_core::lines::{read_lines, LineSource};
use pratmo_core::newatm::{read_newatm_record, rescales_boxes, shift_box_levels};
use pratmo_core::rates::{read_rate_header, read_rate_records, NR};

fn source(text: &str) -> LineSource {
    LineSource::new(text.as_bytes().to_vec())
}

fn text(v: &Option<Vec<u8>>) -> Option<&str> {
    v.as_ref().map(|t| std::str::from_utf8(t).unwrap())
}

/// A reaction record: `5X,I1,1X,I3,2E10.3`.
fn rate_line(nadd: &str, ir: &str, rk1: &str, rk2: &str) -> String {
    format!("{:>6}{:>4}{:>10}{:>10}", nadd, ir, rk1, rk2)
}

fn words(v: &Option<Vec<Vec<u8>>>) -> Option<Vec<String>> {
    v.as_ref().map(|ws| ws.iter().map(|w| String::from_utf8(w.clone()).unwrap()).collect())
}

#[test]
fn rate_header_reads_the_two_counts() {
    let mut src = source("JPL-09 rates\nCOUNTS        5  210\n");
    assert_eq!(read_rate_header(&mut src), Ok((5, 210)));
    let mut src = source("title\nCOUNTS       -1    3\n");
    assert_eq!(read_rate_header(&mut src), Ok((usize::MAX, 3)));
}

#[test]
fn rate_records_skip_the_gap_and_follow_additions() {
    // NRATE1 = 2, NRATES = 3: reactions 1 and 2 are read, reaction 3 lies in
    // the gap (after NRATE1, below 201) and has no record.
    let file = [
        rate_line("1", "1", "1.80-11", "3.50E+02") + "     LABEL-01LABEL-02",
        rate_line("0", "0", "2.0E-12", "1.0E+00"),
        rate_line("0", "2", "1.0E-12", ""),
    ]
    .join("\n");
    let mut src = source(&file);
    let t = read_rate_records(&mut src, 2, 3).unwrap();
    assert_eq!(t.records.len(), 3);
    let r0 = t.records[0].as_ref().unwrap();
    assert_eq!(r0.nadd, 1);
    assert_eq!(text(&r0.rk1), Some("1.80e-11"));
    assert_eq!(text(&r0.rk2), Some("3.50E+02"));
    assert_eq!(r0.labels, vec![b"LABEL-01".to_vec(), b"LABEL-02".to_vec()]);
    assert_eq!(r0.additions.len(), 1);
    assert_eq!(text(&r0.additions[0].rk1), Some("2.0E-12"));
    assert_eq!(text(&r0.additions[0].rk2), Some("1.0E+00"));
    assert_eq!(r0.first_addition, 0);
    let r1 = t.records[1].as_ref().unwrap();
    assert_eq!(r1.nadd, 0);
    assert_eq!(text(&r1.rk1), Some("1.0E-12"));
    assert_eq!(r1.rk2, None);
    assert_eq!(r1.labels, vec![b"        ".to_vec(), b"        ".to_vec()]);
    assert_eq!(r1.first_addition, 1);
    assert!(t.records[2].is_none());
    assert_eq!(t.ndxrat.len(), NR);
    assert_eq!(t.ndxrat[0], 0);
    assert_eq!(t.ndxrat[1], 0);
}

#[test]
fn rate_additions_are_indexed_in_file_order() {
    let file = [
        rate_line("2", "1", "1.0E+00", ""),
        " a".to_string(),
        " b".to_string(),
        rate_line("0", "2", "2.0E+00", ""),
        rate_line("1", "3", "3.0E+00", ""),
        " c".to_string(),
    ]
    .join("\n");
    let mut src = source(&file);
    let t = read_rate_records(&mut src, 10, 3).unwrap();
    let firsts: Vec<usize> = t.records.iter().map(|r| r.as_ref().unwrap().first_addition).collect();
    assert_eq!(firsts, vec![0, 2, 2]);
    assert_eq!(&t.ndxrat[0..3], &[0, 0, 2]);
    assert!(t.ndxrat[3..].iter().all(|&v| v == 0));
}

#[test]
fn missing_rate_lines_read_as_blank() {
    let mut src = source("");
    let t = read_rate_records(&mut src, 5, 2).unwrap();
    for r in &t.records {
        let r = r.as_ref().unwrap();
        assert_eq!(r.nadd, 0);
        assert_eq!(r.rk1, None);
    }
}

#[test]
fn a_rate_file_that_is_not_utf8_is_refused() {
    let mut bytes = (rate_line("0", "1", "1.0E+00", "") + "\n").into_bytes();
    bytes.extend_from_slice(&[0xff, 0xfe, b'\n']);
    let mut src = LineSource::new(bytes);
    assert!(read_rate_records(&mut src, 5, 2).is_err());
    let mut src = LineSource::new(vec![0xc3, b'\n']);
    assert!(read_rate_header(&mut src).is_err());
}

fn control_header() -> String {
    [
        "TITLE-1 TITLE-2 TITLE-3 TITLE-4 TITLE-5 ",
        "  ATMOS-1   OZONE-1 ",
        "LAT/DEC    4.50E+01  1.00E+01  1.00E+00  0.00E+00  8.64E+04 -1.40E-01",
        "GASES      7.81E-01  2.09E-01  3.40E-04  6.30E+05",
        "ATIME     06.0007.50",
        "BTIME     12.00",
        "CLOUDS    0.50",
        "AERSOL    1 2 3 4 5 6 7",
        "RAF       0.1 1e4 1e-10 1e-4 1e-6 1e-3 3e-5",
        "ITERATIONS  100   20    3    2    0    0",
        "DAYS          1   -3    9   19    0    5",
    ]
    .join("\n")
        + "\n"
}

#[test]
fn run_header_reads_titles_counts_and_texts() {
    let mut src = source(&control_header());
    let h = read_run_header(&mut src).unwrap();
    assert_eq!(h.titler[0], b"TITLE-1 ".to_vec());
    assert_eq!(h.titler[4], b"TITLE-5 ".to_vec());
    assert_eq!(h.titatm, b"ATMOS-1".to_vec());
    assert_eq!(h.tito3, b"OZONE-1".to_vec());
    assert_eq!(
        words(&h.orbit).unwrap(),
        vec!["4.50E+01", "1.00E+01", "1.00E+00", "0.00E+00", "8.64E+04", "-1.40E-01"]
    );
    assert_eq!(h.atime.len(), 14);
    assert_eq!(h.atime[0], b"06.00".to_vec());
    assert_eq!(h.atime[1], b"07.50".to_vec());
    assert_eq!(h.atime[2], Vec::<u8>::new());
    assert_eq!(h.btime[0], b"12.00".to_vec());
    assert_eq!(words(&h.clouds).unwrap(), vec!["0.50"]);
    assert_eq!(words(&h.aerosol).unwrap().len(), 7);
    assert_eq!(h.maxraf, 100);
    assert_eq!(h.maxrlx, 20);
    assert_eq!(h.nlbatm, 3);
    assert_eq!(h.nradd, 2);
    assert_eq!(h.nd216, 0);
    assert_eq!(h.nd216s, 0);
    assert_eq!(h.nday, 1);
    assert_eq!(h.nbox, 3);
    assert_eq!(h.n2box, 1);
    assert_eq!(h.ndval, 9);
    assert_eq!(h.nfval, 19);
    assert_eq!(h.nddd, 0);
    assert_eq!(h.ndaysd, 5);
}

#[test]
fn nd216s_defaults_to_nd216_and_positive_nbox_reads_every_box() {
    let text = control_header()
        .replace("ITERATIONS  100   20    3    2    0    0", "ITERATIONS  100   20    3    2   42    0")
        .replace("DAYS          1   -3", "DAYS          1    4");
    let mut src = source(&text);
    let h = read_run_header(&mut src).unwrap();
    assert_eq!(h.nd216, 42);
    assert_eq!(h.nd216s, 42);
    assert_eq!(h.nbox, 4);
    assert_eq!(h.n2box, 4);
}

#[test]
fn short_float_lines_have_no_words() {
    let text = control_header().replace("CLOUDS    0.50", "CLOUDS");
    let mut src = source(&text);
    let h = read_run_header(&mut src).unwrap();
    assert_eq!(h.clouds, None);
}

#[test]
fn box_tables_take_nbox_values() {
    let mut lines = vec![
        "BOXDO-30-29-28-27-26".to_string(),
        "BOXWT  1  1  1".to_string(),
        "BOXPR  0  0  0".to_string(),
        "BOXCT  0  0  0".to_string(),
        "BOXMX  5  5  5".to_string(),
    ];
    // 16 boxes: two lines of BOXRN, BOXAA and BOXTT each.
    for name in ["BOXRN", "BOXAA", "BOXTT"] {
        lines.push(format!("{:<10}{}", name, " 1.00".repeat(14)));
        lines.push(format!("{:<10}{}", "", " 2.00 2.50"));
    }
    let mut src = source(&(lines.join("\n") + "\n"));
    let t = read_box_tables(&mut src, 16).unwrap();
    assert_eq!(t.nboxdo, vec![-30, -29, -28, -27, -26, 0, 0, 0, 0, 0, 0, 0, 0, 0, 0, 0]);
    assert_eq!(t.nboxwt[0..3], [1, 1, 1]);
    assert_eq!(t.boxrn.len(), 16);
    assert_eq!(t.boxrn[13], b"1.00".to_vec());
    assert_eq!(t.boxrn[14], b"2.00".to_vec());
    assert_eq!(t.boxrn[15], b"2.50".to_vec());
    assert_eq!(t.boxtt[15], b"2.50".to_vec());
    assert!(src.at_end());
}

#[test]
fn box_tables_hold_at_most_twenty_five_integers() {
    let mut src = source("");
    let t = read_box_tables(&mut src, 30).unwrap();
    assert_eq!(t.nboxdo.len(), 25);
    assert_eq!(t.boxrn.len(), 30);
}

#[test]
fn rate_override_slots_advance_by_twice_the_additions() {
    let file = [
        rate_line("2", "15", "1.0E-11", "2.0E+02"),
        rate_line("0", "0", "3.0E-12", ""),
        rate_line("0", "0", "4.0E-12", ""),
        rate_line("0", "7", "5.0-13", ""),
    ]
    .join("\n");
    let mut src = source(&file);
    let (o, next) = read_rate_override(&mut src, 0).unwrap();
    assert_eq!(o.rate, 14);
    assert_eq!(o.nadd, 2);
    assert_eq!(o.first_slot, 0);
    assert_eq!(o.ndxrat, 0);
    assert_eq!(text(&o.additions[1].rk1), Some("4.0E-12"));
    assert_eq!(next, 4);
    let (o, next) = read_rate_override(&mut src, next).unwrap();
    assert_eq!(o.rate, 6);
    assert_eq!(o.nadd, 0);
    assert_eq!(o.ndxrat, 0);
    assert_eq!(text(&o.rk1), Some("5.0e-13"));
    assert_eq!(next, 4);
    let mut src = source(&(rate_line("1", "0", "1.0E+00", "") + "\n x\n"));
    let (o, _) = read_rate_override(&mut src, 3).unwrap();
    assert_eq!(o.rate, 0);
    assert_eq!(o.ndxrat, 3);
}

#[test]
fn run_tail_reads_indices_prints_and_flags() {
    let file = [
        "DIFF      1.0E+05 2.0E+05",
        "NDXPP  1  2  3 -1",
        "NDXQQ  4",
        "PRINT         1    2    3    4    5    6    7    8",
        " T F .TRUE. f t",
        "L-LIVED 18 1000",
    ]
    .join("\n");
    let mut src = source(&file);
    let t = read_run_tail(&mut src).unwrap();
    assert_eq!(words(&t.diffusion).unwrap(), vec!["1.0E+05", "2.0E+05"]);
    assert_eq!(&t.ndxpp[0..4], &[1, 2, 3, usize::MAX]);
    assert_eq!(t.ndxqq[0], 4);
    assert_eq!(t.ndxqq[1], 0);
    assert_eq!(t.prints, vec![1, 2, 3, 4, 5, 6, 7]);
    assert_eq!(t.flags, vec![true, false, true, false, true]);
    assert_eq!(t.nfl_header, 18);
}

#[test]
fn long_lived_records_read_name_index_and_flags() {
    let mut src = source("N2O      1    1    2\nCH4      2   -1\n");
    let v = read_long_lived(&mut src, 3).unwrap();
    assert_eq!(v.len(), 3);
    assert_eq!(v[0].name, b"N2O".to_vec());
    assert_eq!(v[0].index, 1);
    assert_eq!(v[0].nflo, 1);
    assert_eq!(v[0].jx, 2);
    assert_eq!(v[1].nflo, -1);
    assert_eq!(v[1].jx, 0);
    assert_eq!(v[2].name, Vec::<u8>::new());
}

#[test]
fn radical_block_reads_the_announced_records() {
    let mut src = source("RADICALS 2\nOH       1 1001\nHO2      2 0000\nNEXT\n");
    let (h, ls) = read_radical_block(&mut src).unwrap();
    assert_eq!(h, b"RADICALS 2".to_vec());
    assert_eq!(ls, vec![b"OH       1 1001".to_vec(), b"HO2      2 0000".to_vec()]);
    let rest = read_lines(&mut src, 1).unwrap();
    assert_eq!(rest[0], b"NEXT".to_vec());
}

#[test]
fn newatm_record_reads_labels_days_and_shift() {
    let rec = format!(
        "  {:<8}  {:<8}{:>5}{:>10}{:>10}{:>10}{:>5}{:>5}{:>5}",
        "ATMOS-2", "OZONE-2", 3, "4.50D+01", "1.00E+01", "3.00E+17", 2, "1.50", "0.80"
    );
    let r = read_newatm_record(rec.as_bytes());
    assert_eq!(r.ndaysd, 3);
    let c = r.change.unwrap();
    assert_eq!(c.titatm, b"ATMOS-2".to_vec());
    assert_eq!(c.tito3, b"OZONE-2".to_vec());
    assert_eq!(c.xlatd, b"4.50e+01".to_vec());
    assert_eq!(c.xdecd, b"1.00E+01".to_vec());
    assert_eq!(c.xo3col, b"3.00E+17".to_vec());
    assert_eq!(c.kalt, 2);
    assert_eq!(c.xarea, b"1.50".to_vec());
    assert_eq!(c.xrain, b"0.80".to_vec());
    assert!(rescales_boxes(&c));
}

#[test]
fn newatm_record_ends_on_zero_days_or_a_short_record() {
    assert_eq!(read_newatm_record(b"x").ndaysd, 0);
    assert!(read_newatm_record(b"x").change.is_none());
    let r = read_newatm_record(b"  ATMOS-2   OZONE-2     0");
    assert_eq!(r.ndaysd, 0);
    assert!(r.change.is_none());
    let r = read_newatm_record(format!("{:>25}", 1).as_bytes());
    let c = r.change.unwrap();
    assert!(!rescales_boxes(&c));
}

#[test]
fn shifted_boxes_are_held_to_the_atmosphere() {
    let mut nboxdo = vec![10, -20, 40, 7];
    let levels = shift_box_levels(&mut nboxdo, 3, 2, 41);
    assert_eq!(nboxdo, vec![12, -18, 42, 7]);
    assert_eq!(levels, vec![11, 17, 40]);
    let mut nboxdo = vec![1, 0];
    let levels = shift_box_levels(&mut nboxdo, 2, -1, 41);
    assert_eq!(nboxdo, vec![0, -1]);
    assert_eq!(levels, vec![0, 0]);
}

fn control_file(days_line: &str, first_rate: &str) -> String {
    let mut lines: Vec<String> = control_header()
        .lines()
        .map(|l| if l.starts_with("DAYS") { days_line.to_string() } else { l.to_string() })
        .collect();
    for l in ["BOXDO 20 25 30", "BOXWT  1  1  1", "BOXPR  0  0  0", "BOXCT  0  0  0", "BOXMX  5  5  5"] {
        lines.push(l.to_string());
    }
    for name in ["BOXRN", "BOXAA", "BOXTT"] {
        lines.push(format!("{:<10} 1.00 2.00 3.00", name));
    }
    lines.push(rate_line("2", first_rate, "1.0E-11", "2.0E+02"));
    lines.push(rate_line("0", "0", "3.0E-12", ""));
    lines.push(rate_line("0", "0", "4.0E-12", ""));
    lines.push(rate_line("0", "7", "5.0-13", ""));
    for l in [
        "DIFF      1.0E+05 2.0E+05",
        "NDXPP  1  2  3",
        "NDXQQ  4",
        "PRINT         1    2    3    4    5    6    7    8",
        " T F .TRUE. f t",
        "L-LIVED 19 1000",
    ] {
        lines.push(l.to_string());
    }
    for j in 1..=19 {
        lines.push(format!("{:<8}{:2}    1    2", format!("LL{j}"), j));
    }
    lines.push("RADICALS 2".to_string());
    lines.push("OH       1 1001".to_string());
    lines.push("HO2      2 0000".to_string());
    lines.push("PATH".to_string());
    lines.join("\n") + "\n"
}

#[test]
fn run_control_reads_the_file_in_order() {
    let mut src = source(&control_file("DAYS          1   -3    9   19    0    5", "15"));
    let c = read_run_control(&mut src).unwrap();
    assert_eq!(c.header.nbox, 3);
    assert_eq!(c.boxes.nboxdo, vec![20, 25, 30]);
    assert_eq!(c.overrides.len(), 2);
    assert_eq!(c.overrides[0].rate, 14);
    assert_eq!(c.overrides[1].first_slot, 4);
    assert_eq!(c.next_slot, 4);
    assert_eq!(c.tail.nfl_header, 19);
    assert_eq!(c.long_lived.len(), 19);
    assert_eq!(c.long_lived[18].name, b"LL19".to_vec());
    assert_eq!(c.block_header, b"RADICALS 2".to_vec());
    assert_eq!(c.table.ntotx, 2);
    assert_eq!(read_lines(&mut src, 1).unwrap()[0], b"PATH".to_vec());
}

#[test]
fn run_control_fails_on_the_radical_checksum() {
    let good = control_file("DAYS          1   -3    9   19    0    5", "15");
    let bad = good.replace("HO2      2 0000", "HO2      3 0000");
    let mut src = source(&bad);
    assert!(matches!(read_run_control(&mut src), Err(ControlError::Checksum)));
}

#[test]
fn run_control_stops_where_the_tables_overflow() {
    let mut src = source(&control_file("DAYS          1   30    9   19    0    5", "15"));
    assert!(matches!(read_run_control(&mut src), Err(ControlError::TooManyBoxes)));
    let mut src = source(&control_file("DAYS          1   -3    9   19    0    5", "300"));
    assert!(matches!(read_run_control(&mut src), Err(ControlError::RateBeyondTable)));
    let mut src = source(&control_file("DAYS          1   -3   45   19    0    5", "15"));
    assert!(matches!(read_run_control(&mut src), Err(ControlError::TooManyLongLived)));
}
