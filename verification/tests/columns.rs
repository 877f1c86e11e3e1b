use pratmo_core::columns::{
    altitude_and_day_lines, angle_lines, column_header, count_lines, levels_above, levels_below,
    output_columns, radical_name, radical_slot, rule_line, sza_step, sza_window, SzaWindow,
};

fn flags() -> ([i32; 8], [i32; 24], [i32; 10]) {
    let ipf = [1, 0, 1, 0, 0, 0, 0, 1];
    let mut ipfr = [0; 24];
    ipfr[0] = 1;
    ipfr[23] = 1;
    let ipjv = [3, 0, -1, 5, 0, 0, 0, 0, 0, 0];
    (ipf, ipfr, ipjv)
}

#[test]
fn columns_follow_the_flags() {
    let (ipf, ipfr, ipjv) = flags();
    let c = output_columns(&ipf, &ipfr, &ipjv, 0, 34);
    assert_eq!(c.families, vec![0, 2, 7]);
    assert_eq!(c.radicals, vec![0, 23]);
    assert_eq!(c.jvalues, vec![2, 4]);
    assert_eq!(c.times, 34);
    assert_eq!(c.data_columns, 2 * 34 + 3 + 2 * 16);
    let single = output_columns(&ipf, &ipfr, &ipjv, 1, 34);
    assert_eq!(single.times, 1);
    assert_eq!(single.data_columns, 2 + 3 + 32);
}

#[test]
fn radical_tables() {
    assert_eq!(radical_name(0), b"NO".to_vec());
    assert_eq!(radical_name(16), b"ClONO2".to_vec());
    assert_eq!(radical_name(23), b"O3".to_vec());
    assert_eq!(radical_slot(0), 9);
    assert_eq!(radical_slot(23), 30);
    assert_eq!(radical_slot(19), 1);
}

#[test]
fn head_count_lines() {
    let (ipf, ipfr, ipjv) = flags();
    let c = output_columns(&ipf, &ipfr, &ipjv, 0, 34);
    let text = String::from_utf8(count_lines(&c)).unwrap();
    assert_eq!(
        text,
        "   5   Standard output fields\n   3   Family output fields\n   2   Radical output fields\n   2   Jvalue output fields\n 108   Total columns of output\n"
    );
    assert_eq!(
        String::from_utf8(angle_lines(34)).unwrap(),
        "  34   Number of Solar Zenith Angles\n  16   Number of Jvalue SZAs\n"
    );
    assert_eq!(
        String::from_utf8(altitude_and_day_lines(75)).unwrap(),
        "  39   Number of Altitudes\n  75   Julian Day\n"
    );
    assert_eq!(
        String::from_utf8(altitude_and_day_lines(-5)).unwrap(),
        "  39   Number of Altitudes\n  -5   Julian Day\n"
    );
}

#[test]
fn column_header_names_every_column() {
    let (ipf, ipfr, ipjv) = flags();
    let c = output_columns(&ipf, &ipfr, &ipjv, 1, 34);
    let mut titlej: Vec<Vec<u8>> = vec![Vec::new(); 52];
    titlej[2] = b"J(O3->O1D) long title".to_vec();
    titlej[4] = b"JH2CO".to_vec();
    let line = String::from_utf8(column_header(&c, &titlej)).unwrap();
    let mut expected = String::from("  ");
    for n in ["z (km)", "T (K)", "p (hPa)", "air (cm-3)", "O3", "N2O", "H2O", "Aer SA (cm2)", "NO", "O3"] {
        expected.push_str(&format!("{:>13}", n));
    }
    for _ in 0..16 {
        expected.push_str(&format!("{:>13}", "J(O3->O1D) l"));
    }
    for _ in 0..16 {
        expected.push_str(&format!("{:>13}", "JH2CO"));
    }
    expected.push('\n');
    assert_eq!(line, expected);
}

#[test]
fn rule_has_eleven_dashes_per_column() {
    let r = String::from_utf8(rule_line(2)).unwrap();
    assert_eq!(r, format!(" {}\n", "-".repeat(77)));
}

#[test]
fn fill_levels_above_and_below_the_boxes() {
    assert_eq!(levels_above(10, 15), vec![13, 12, 11, 10]);
    assert_eq!(levels_above(-14, 15), Vec::<usize>::new());
    assert_eq!(levels_below(5), vec![3, 2, 1]);
    assert_eq!(levels_below(-5), vec![3, 2, 1]);
    assert_eq!(levels_below(0), Vec::<usize>::new());
}

#[test]
fn sza_window_and_step() {
    let am = sza_window(34, 0);
    assert_eq!(am, SzaWindow { start: 17, end: 34, steps: 17 });
    let pm = sza_window(34, 1);
    assert_eq!(pm, SzaWindow { start: 0, end: 18, steps: 18 });
    assert_eq!(sza_step(am, 20), 32);
    assert_eq!(sza_step(am, 3), 20);
    assert_eq!(sza_step(SzaWindow { start: 0, end: 1, steps: 1 }, 5), 0);
}
