use pratmo_core::lines::LineSource;
use pratmo_core::spectral::{float_word, read_spectral_layout, SpectralError};

fn pad20(t: &str) -> String {
    format!("{:<20}250", t)
}

fn file(nsr: usize, truncate: bool) -> String {
    let mut f = String::new();
    f.push_str("SPECTRAL TITLE\n");
    f.push_str(&format!("NW--QQQQQQ{:5}{:5}{:5}{:5}{:5}{:5}{:5}\n", 40, 3, 1, 3, 0, nsr, 2));
    f.push_str("1.0E-3 2.0\n");
    f.push_str("wavelengths\n");
    f.push_str("100. 200.\n300. 400.\n");
    f.push_str("\n");
    f.push_str("1.0 2.0 3.0\n");
    f.push_str("\n");
    f.push_str("       1.0       2.0  5\n");
    f.push_str("       3.0       4.0 12   (230 nm)\n");
    f.push_str("J(NO) short\n");
    f.push_str("\n");
    f.push_str("1 2 3\n4 5 6\n");
    for k in 0..3 {
        f.push_str(&pad20(&format!("J(O2) T{}", k)));
        f.push('\n');
        f.push_str("1 2 3\n\n1 2\n3 4\n");
    }
    if truncate {
        f.push_str(&pad20("J(O3) T0"));
        f.push_str("\n1 2\n");
        return f;
    }
    for t in 0..86 {
        f.push_str(&pad20(&format!("ARRAY {}", t)));
        f.push_str("\n1.5e-20 x 2.5E-20\n-3\n");
    }
    for (a, b) in [
        ("J(HOI) cold", "J(HOI) warm"),
        ("ORGANIC", "ORGANIC"),
        ("J(IONO2) a", "J(IONO2) b"),
    ] {
        f.push_str(&pad20(a));
        f.push_str("\n1 2 3\n");
        f.push_str(&pad20(b));
        f.push_str("\n1 2 3\n");
    }
    f
}

#[test]
fn spectral_layout_of_a_small_file() {
    let mut src = LineSource::new(file(2, false).into_bytes());
    let l = read_spectral_layout(&mut src).unwrap();
    assert_eq!(l.title0, b"SPECTRAL TITLE".to_vec());
    assert_eq!((l.nqqq, l.nwww, l.nw1, l.nw2, l.nwsrb, l.nsr, l.nodf), (40, 3, 1, 3, 0, 2, 2));
    assert_eq!(l.njval, 44);
    assert_eq!(l.isr, vec![5, 12]);
    assert_eq!(l.odf, vec![vec![b"1.0".to_vec(), b"2.0".to_vec()], vec![b"3.0".to_vec(), b"4.0".to_vec()]]);
    assert_eq!(l.titles.len(), 90);
    assert_eq!(l.titles[0], b"J(NO) short".to_vec());
    assert_eq!(l.titles[1], b"J(O2) T0".to_vec());
    assert_eq!(l.titles[3], b"J(O2) T2".to_vec());
    assert_eq!(l.titles[4], b"ARRAY 0".to_vec());
    assert_eq!(l.titles[89], b"ARRAY 85".to_vec());
    assert!(l.iodine[0].is_none());
    let iono2 = l.iodine[2].as_ref().unwrap();
    assert_eq!((iono2.pair, iono2.cold_title.clone()), (2, b"J(IONO2) a".to_vec()));
    let hoi = l.iodine[1].as_ref().unwrap();
    assert_eq!((hoi.pair, hoi.cold_title.clone(), hoi.warm_title.clone()), (0, b"J(HOI) cold".to_vec(), b"J(HOI) warm".to_vec()));
}

#[test]
fn spectral_counts_beyond_the_tables_are_refused() {
    let mut src = LineSource::new(file(16, false).into_bytes());
    assert!(matches!(read_spectral_layout(&mut src), Err(SpectralError::TooLarge)));
}

#[test]
fn spectral_file_ending_inside_an_array() {
    let mut src = LineSource::new(file(2, true).into_bytes());
    assert!(matches!(read_spectral_layout(&mut src), Err(SpectralError::UnexpectedEnd)));
}

#[test]
fn spectral_line_not_utf8() {
    let mut bytes = file(2, false).into_bytes();
    let at = bytes.iter().position(|&b| b == b'w').unwrap();
    bytes[at] = 0xff;
    let mut src = LineSource::new(bytes);
    assert!(matches!(read_spectral_layout(&mut src), Err(SpectralError::NotUtf8)));
}

#[test]
fn float_words_follow_std() {
    for w in ["1", "1.", ".5", "1.5e-3", "-2E+10", "+inf", "Infinity", "NaN", "3e5"] {
        assert!(float_word(w.as_bytes()), "{w}");
        assert!(w.parse::<f64>().is_ok());
    }
    for w in ["x", ".", "1e", "e5", "1.2.3", "--1", "1e+", "infinit", ""] {
        assert!(!float_word(w.as_bytes()), "{w}");
        assert!(w.parse::<f64>().is_err());
    }
}
