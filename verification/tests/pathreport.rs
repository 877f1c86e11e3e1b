use pratmo_core::pathreport::{
    average_titles_due, average_titles_line, rate_path_header, species_path_header, title_line,
};

fn b(s: &str) -> Vec<u8> {
    s.as_bytes().to_vec()
}

fn titler() -> Vec<Vec<u8>> {
    vec![b("Title1"), b("A"), b(""), b("LONGTITLE9"), b("X")]
}

fn padded(list: &[usize]) -> Vec<usize> {
    let mut v = list.to_vec();
    v.resize(25, 0);
    v
}

fn labels(nrates: usize) -> Vec<Vec<Vec<u8>>> {
    let mut l: Vec<Vec<Vec<u8>>> = (0..nrates).map(|_| vec![b(""), b("")]).collect();
    if nrates >= 9 {
        l[8] = vec![b("O1D+N2O"), b("NO+NO")];
    }
    if nrates >= 5 {
        l[4] = vec![b("O1D+H2O"), b("2OH")];
    }
    if nrates >= 37 {
        l[36] = vec![b("H2O2SRC"), b("   ")];
    }
    l
}

#[test]
fn species_header_names_families_and_titles() {
    let titles = vec![b("NO"), b("NO2"), b("NO3")];
    let h = species_path_header(&titler(), &titles, &padded(&[1, 49, 50, 3, 7]));
    let expected = " Title1  A               LONGTITLX       \n SegDayBox NO        NO-x      ClO-x     NO3               \n";
    assert_eq!(String::from_utf8(h).unwrap(), expected);
}

#[test]
fn species_header_lists_at_most_24_columns() {
    let titles = vec![b("NO")];
    let list: Vec<usize> = vec![1; 25];
    let h = String::from_utf8(species_path_header(&[], &titles, &list)).unwrap();
    let second = h.lines().nth(1).unwrap();
    assert_eq!(second.len(), 11 + 24 * 8 + 23 * 2);
}

#[test]
fn rate_header_numbers_and_labels() {
    let h = rate_path_header(&titler(), &padded(&[9, 37, 300, 0, 5]), 40, &labels(40));
    let expected = " Title1  A               LONGTITLX       \n D= 0     9        37       300         0         5\n Day O1D+N2O   H2O2SRC                       O1D+H2O \n Day NO+NO     1D)                           2OH     \n";
    assert_eq!(String::from_utf8(h).unwrap(), expected);
}

#[test]
fn rate_37_outside_the_rates_is_still_labelled() {
    let h = rate_path_header(&[], &padded(&[37]), 30, &labels(30));
    let expected = " \n D= 0    37\n Day         \n Day 1D)     \n";
    assert_eq!(String::from_utf8(h).unwrap(), expected);
}

#[test]
fn rate_header_of_an_empty_list() {
    let h = rate_path_header(&[], &padded(&[]), 30, &labels(30));
    assert_eq!(String::from_utf8(h).unwrap(), " \n D= 0\n Day \n Day \n");
}

#[test]
fn title_line_cuts_each_title_to_eight() {
    assert_eq!(
        String::from_utf8(title_line(&titler())).unwrap(),
        " Title1  A               LONGTITLX       \n"
    );
}

#[test]
fn average_titles_are_cut_and_right_aligned() {
    let mut titles: Vec<Vec<u8>> = vec![b(""); 62];
    titles[0] = b("NO");
    titles[1] = b("NO2");
    titles[48] = b("NOx-long-name");
    let line = average_titles_line(&titles, &padded(&[1, 49, 70, 2]), 59);
    assert_eq!(
        String::from_utf8(line).unwrap(),
        "             NO  NOx-long                 NO2\n"
    );
}

#[test]
fn average_titles_due_on_first_report_or_screen_printing() {
    assert!(average_titles_due(0, true, false, false));
    assert!(!average_titles_due(3, true, true, true));
    assert!(average_titles_due(3, false, true, false));
    assert!(average_titles_due(3, false, false, true));
    assert!(!average_titles_due(3, false, false, false));
}
