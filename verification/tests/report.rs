use pratmo_core::report::{listed_rates, rate_header, rate_labels, rate_list, stratloss_rates};

fn labels(n: usize) -> Vec<Vec<Vec<u8>>> {
    (1..=n)
        .map(|j| vec![format!("R{j}A").into_bytes(), format!("R{j}B").into_bytes()])
        .collect()
}

#[test]
fn listed_rates_end_at_the_last_non_zero_entry() {
    assert_eq!(listed_rates(&[1, 0, 3, 0, 0]), 3);
    assert_eq!(listed_rates(&[0, 0]), 0);
    assert_eq!(listed_rates(&[]), 0);
    assert_eq!(listed_rates(&stratloss_rates()), 24);
}

#[test]
fn stratloss_rates_are_the_reported_losses() {
    let r = stratloss_rates();
    assert_eq!(r.len(), 25);
    assert_eq!(&r[0..3], &[9, 10, 137]);
    assert_eq!(r[24], 0);
}

#[test]
fn rate_list_names_the_listed_rates() {
    let out = String::from_utf8(rate_list(&[9, 0, 300, 2], 10, &labels(10))).unwrap();
    assert_eq!(out, "    1    9     R9A     R9B     \n    4    2     R2A     R2B     \n");
}

#[test]
fn rate_header_numbers_each_listed_rate() {
    let out = String::from_utf8(rate_header(3, &[9, 10, 137, 5], 3)).unwrap();
    assert_eq!(out, " D= 3     9        10       137    ");
    let out = String::from_utf8(rate_header(-12, &[], 0)).unwrap();
    assert_eq!(out, " D=-12");
}

#[test]
fn rate_labels_leave_unknown_rates_blank() {
    let out = String::from_utf8(rate_labels(&[9, 0, 11], 3, 10, &labels(10), 1)).unwrap();
    assert_eq!(out, format!("R9B       {}{}", " ".repeat(10), " ".repeat(10)));
}
