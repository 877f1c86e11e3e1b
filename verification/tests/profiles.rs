use pratmo_core::profiles::{
    e10_texts, find_atmosphere, find_ozone, find_profile, on_pressure_levels, ozone_values,
    value_records, ProfileError,
};

fn lines(v: &[&str]) -> Vec<Vec<u8>> {
    v.iter().map(|l| l.as_bytes().to_vec()).collect()
}

/// A temperature file with two profiles of 46 values (six records each).
fn temperature_file() -> Vec<Vec<u8>> {
    let mut v = vec!["TEMPERATURES".to_string()];
    for (label, t) in [("US-STD", "2.880E+02"), ("P-TROP", "2.950E+02")] {
        v.push(format!("  {:<8}{:>10}{:>10}{:>10}", label, "1.013E+03", "9.807E+02", "6.371E+08"));
        for r in 0..6 {
            let n = if r < 5 { 8 } else { 6 };
            v.push(format!("{:>10}", t).repeat(n));
        }
    }
    v.into_iter().map(|l| l.into_bytes()).collect()
}

#[test]
fn value_records_hold_eight_values() {
    assert_eq!(value_records(46), 6);
    assert_eq!(value_records(32), 4);
    assert_eq!(value_records(0), 0);
    assert_eq!(value_records(usize::MAX), usize::MAX / 8 + 1);
}

#[test]
fn temperature_profiles_are_found_by_label() {
    let f = temperature_file();
    assert_eq!(find_atmosphere(&f, b"US-STD"), Some(1));
    assert_eq!(find_atmosphere(&f, b"P-TROP"), Some(8));
    assert_eq!(find_atmosphere(&f, b"MISSING"), None);
    assert!(on_pressure_levels(b"P-TROP"));
    assert!(!on_pressure_levels(b"US-STD"));
    assert!(!on_pressure_levels(b""));
}

#[test]
fn a_profile_cut_short_is_not_found() {
    let mut f = temperature_file();
    f.truncate(13);
    assert_eq!(find_atmosphere(&f, b"P-TROP"), None);
    assert_eq!(find_profile(&f, b"US-STD", 1, 100), None);
}

#[test]
fn e10_values_span_records() {
    let f = temperature_file();
    let v = e10_texts(&f, 2, 46).unwrap();
    assert_eq!(v.len(), 46);
    assert!(v.iter().all(|t| t == b"2.880E+02"));
    let v = e10_texts(&f, 1, 3).unwrap();
    // Every field is read as a number: the label's D is written e too.
    assert_eq!(v, vec![b"US-STe".to_vec(), b"1.013E+03".to_vec(), b"9.807E+02".to_vec()]);
    assert_eq!(e10_texts(&f, 14, 10), Err(6));
}

#[test]
fn e10_values_skip_blank_fields_and_read_d_exponents() {
    let f = lines(&["  1.00D+01          -2.5d-3", "3.0"]);
    assert_eq!(
        e10_texts(&f, 0, 3),
        Ok(vec![b"1.00e+01".to_vec(), b"-2.5e-3".to_vec(), b"3.0".to_vec()])
    );
    assert_eq!(e10_texts(&f, 0, 4), Err(3));
    assert_eq!(e10_texts(&f, 5, 0), Ok(vec![]));
}

#[test]
fn ozone_profiles_use_the_count_of_the_second_line() {
    let mut v = vec!["OZONE".to_string(), "PTS/PROFIL    10".to_string()];
    for label in ["MID-LAT", "TROPICS"] {
        v.push(format!("  {:<8}{:>10}", label, "3.000E+02"));
        v.push(format!("{:>10}", "1.0E+12").repeat(8));
        v.push(format!("{:>10}", "1.0E+12").repeat(2));
    }
    let f: Vec<Vec<u8>> = v.into_iter().map(|l| l.into_bytes()).collect();
    assert_eq!(ozone_values(&f[1]), 10);
    assert_eq!(find_ozone(&f, b"TROPICS"), Ok((5, 10)));
    assert_eq!(find_ozone(&f, b"POLAR"), Err(ProfileError::NotFound));
    assert_eq!(find_ozone(&f[..1].to_vec(), b"TROPICS"), Err(ProfileError::NoOzoneProfiles));
    assert_eq!(ozone_values(b"PTS/PROFIL"), 32);
    assert_eq!(ozone_values(b""), 32);
}
