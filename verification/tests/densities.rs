use pratmo_core::blocks::BlockError;
use pratmo_core::densities::read_initial_densities;
use pratmo_core::lines::LineSource;

fn values(vs: &[&str]) -> String {
    vs.iter().map(|v| format!("{:>13}", v)).collect()
}

fn text(v: &[u8]) -> &str {
    std::str::from_utf8(v).unwrap()
}

#[test]
fn species_values_span_records_and_fill_from_the_first() {
    let file = [
        "INITIAL MIXING RATIOS".to_string(),
        "NO".to_string(),
        values(&["1.0E-09", "2.0D-09", "3.0E-09", "4.0E-09", "5.0E-09", "6.0E-09"]),
        values(&["7.0E-09", "8.0E-09"]),
        "NO2".to_string(),
        values(&["1.5E-09", "2.5E-09", "3.5E-09"]),
    ]
    .join("\n");
    let mut src = LineSource::new(file.into_bytes());
    let species = read_initial_densities(&mut src, 3, 8).unwrap();
    assert_eq!(species.len(), 2);
    let no: Vec<&str> = species[0].iter().map(|v| text(v)).collect();
    assert_eq!(no, vec!["1.0E-09", "2.0e-09", "3.0E-09", "4.0E-09", "5.0E-09", "6.0E-09", "7.0E-09", "8.0E-09"]);
    let no2: Vec<&str> = species[1].iter().map(|v| text(v)).collect();
    assert_eq!(no2, vec!["1.5E-09", "2.5E-09", "3.5E-09", "1.5E-09", "1.5E-09", "1.5E-09", "1.5E-09", "1.5E-09"]);
}

#[test]
fn reading_stops_at_the_species_count() {
    let file = ["T", "A", &values(&["1"]), "B", &values(&["2"])].join("\n");
    let mut src = LineSource::new(file.into_bytes());
    let species = read_initial_densities(&mut src, 1, 1).unwrap();
    assert_eq!(species, vec![vec![b"1".to_vec()]]);
}

#[test]
fn a_species_without_values_reads_zeros() {
    let mut src = LineSource::new(b"T\nA\n".to_vec());
    let species = read_initial_densities(&mut src, 5, 3).unwrap();
    assert_eq!(species, vec![vec![Vec::<u8>::new(); 3]]);
    let mut src = LineSource::new(Vec::new());
    assert_eq!(read_initial_densities(&mut src, 5, 3).unwrap().len(), 0);
}

#[test]
fn densities_that_are_not_text_are_refused() {
    let mut src = LineSource::new(vec![0xff, b'\n']);
    assert_eq!(read_initial_densities(&mut src, 1, 1), Err(BlockError::NotUtf8));
    let bad = format!("T\nA\n{}é{}\n", " ".repeat(12), " ".repeat(12));
    let mut src = LineSource::new(bad.into_bytes());
    assert_eq!(read_initial_densities(&mut src, 1, 2), Err(BlockError::NotAtCharBoundary));
}
