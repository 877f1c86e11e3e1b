use pratmo_core::listing::{mnemonic_row, printed_rate_rows, shown_species, species_name_line};

fn b(s: &str) -> Vec<u8> {
    s.as_bytes().to_vec()
}

#[test]
fn shown_species_drops_bromine_without_bromine_chemistry() {
    assert_eq!(shown_species(20, 30, false), 20);
    assert_eq!(shown_species(28, 30, false), 25);
    assert_eq!(shown_species(28, 30, true), 28);
    assert_eq!(shown_species(3, 2, false), 0);
}

#[test]
fn rate_rows_skip_the_unused_block_below_200() {
    let rows = printed_rate_rows(264, 190, 10);
    let expected: Vec<usize> = (0..27).map(|i| 10 * i + 1).filter(|&s| s != 191).collect();
    assert_eq!(rows, expected);
}

#[test]
fn detailed_rate_rows_of_four() {
    let rows = printed_rate_rows(264, 150, 4);
    let expected: Vec<usize> =
        (0..66).map(|i| 4 * i + 1).filter(|&s| !(s > 150 && s + 3 <= 200)).collect();
    assert_eq!(rows, expected);
    assert!(rows.contains(&149));
    assert!(!rows.contains(&153));
    assert!(rows.contains(&201));
}

#[test]
fn rate_rows_of_no_rates() {
    assert_eq!(printed_rate_rows(0, 0, 10), Vec::<usize>::new());
}

#[test]
fn species_names_are_right_aligned_in_ten() {
    let names = vec![b("NO"), b("NO2")];
    let line = species_name_line(&names, 0, 3);
    assert_eq!(String::from_utf8(line).unwrap(), "           NO       NO2          \n");
    assert_eq!(species_name_line(&names, 2, 2), b("   \n"));
}

#[test]
fn mnemonic_row_pads_labels_and_blanks_missing_rates() {
    let labels = vec![vec![b("O+O2"), b("M")], vec![b("LONGLABEL9"), b("ABCD")]];
    let row = mnemonic_row(2, &labels, 1, 3);
    assert_eq!(
        String::from_utf8(row).unwrap(),
        "  1=O+O2    M  LONGLABEL9ABCD           \n"
    );
}
