use pratmo_core::hunt::{half_month_days, half_month_slot, hunt, month_of_day};

fn hunt_result(xx: &[i64], x: i64) -> usize {
    let mut jlo = 0;
    hunt(xx, x, &mut jlo);
    jlo
}

#[test]
fn test_hunt_exact_boundary() {
    let xx = vec![0, 10, 20, 30];
    // 10 at the upper end of (0, 10] -> jlo = 1
    assert_eq!(hunt_result(&xx, 10), 1);
    // 20 at the upper end of (10, 20] -> jlo = 2
    assert_eq!(hunt_result(&xx, 20), 2);
}

#[test]
fn test_hunt_below_range() {
    let xx = vec![5, 10, 15];
    assert_eq!(hunt_result(&xx, 1), 0);
}

#[test]
fn test_hunt_above_range() {
    let xx = vec![1, 2, 3];
    assert_eq!(hunt_result(&xx, 99), 3);
}

#[test]
fn test_hunt_consistent_with_fortran_jddo() {
    let jddo: Vec<i64> = vec![
        1, 16, 32, 47, 60, 75, 91, 106, 121, 137, 152, 167, 182, 197, 213, 228, 244, 259, 274, 289,
        305, 320, 335, 350,
    ];
    let mut jlo = 0;
    hunt(&jddo, 75, &mut jlo);
    assert_eq!(jlo, 5, "jlo={jlo}");
}

/// The keys and values are scaled by ten so that they are integers.
#[test]
fn test_hunt_interior() {
    let xx = vec![10, 20, 30, 40, 50];
    assert_eq!(hunt_result(&xx, 25), 2);
    assert_eq!(hunt_result(&xx, 30), 2);
    assert_eq!(hunt_result(&xx, 49), 4);
}

/// The keys and the value are doubled so that they are integers.
#[test]
fn test_hunt_hint_used() {
    let xx: Vec<i64> = (0..100).map(|i| 2 * i).collect();
    let mut jlo = 50_usize;
    hunt(&xx, 147, &mut jlo);
    assert_eq!(jlo, 74, "jlo={jlo}");
}

#[test]
fn hunt_from_a_hint_finds_the_same_bracket() {
    let xx: Vec<i64> = (0..100).map(|i| 2 * i).collect();
    for hint in [0usize, 1, 3, 50, 73, 74, 75, 99, 100, 101, 5000] {
        let mut jlo = hint;
        hunt(&xx, 147, &mut jlo);
        assert_eq!(jlo, 74, "hint {hint}");
    }
}

#[test]
fn hunt_with_a_hint_on_an_exact_key_stays_within_the_equal_keys() {
    let xx = vec![0, 10, 10, 10, 20];
    assert_eq!(hunt_result(&xx, 10), 1);
    for hint in 1..=5usize {
        let mut jlo = hint;
        hunt(&xx, 10, &mut jlo);
        assert!((1..=4).contains(&jlo), "hint {hint} gave {jlo}");
    }
}

#[test]
fn hunt_from_a_hint_that_steps_onto_an_equal_key_keeps_it() {
    let xx: Vec<i64> = (0..100).map(|i| 10 * i).collect();
    // The hint search moves the low end onto key 51 (value 500) and keeps it.
    let mut jlo = 50usize;
    hunt(&xx, 500, &mut jlo);
    assert_eq!(jlo, 51);
    // Bisection alone leaves the bracket below the equal key.
    assert_eq!(hunt_result(&xx, 500), 50);
    // Stepping past the equal key, the bisection settles below it.
    let mut jlo = 50usize;
    hunt(&xx, 730, &mut jlo);
    assert_eq!(jlo, 73);
}

#[test]
fn hunt_in_a_descending_table() {
    let xx = vec![50, 40, 30, 20, 10];
    assert_eq!(hunt_result(&xx, 45), 1);
    assert_eq!(hunt_result(&xx, 60), 0);
    assert_eq!(hunt_result(&xx, 5), 5);
    // An exact key is bracketed above the equal keys.
    assert_eq!(hunt_result(&xx, 30), 3);
    let mut jlo = 4;
    hunt(&xx, 35, &mut jlo);
    assert_eq!(jlo, 2);
}

#[test]
fn hunt_on_an_empty_table_leaves_the_hint() {
    let mut jlo = 7;
    hunt(&[], 3, &mut jlo);
    assert_eq!(jlo, 7);
}

#[test]
fn hunt_hint_is_read_from_its_low_32_bits() {
    let xx = vec![0, 10, 20, 30];
    let mut jlo = (1usize << 32) + 2;
    hunt(&xx, 20, &mut jlo);
    assert!(jlo == 2 || jlo == 3);
    let mut jlo = (1usize << 32) + 7;
    hunt(&xx, 20, &mut jlo);
    assert_eq!(jlo, 2);
}

#[test]
fn half_month_table_is_the_climatology_days() {
    assert_eq!(
        half_month_days(),
        vec![
            1, 16, 32, 47, 60, 75, 91, 106, 121, 137, 152, 167, 182, 197, 213, 228, 244, 259, 274,
            289, 305, 320, 335, 350
        ]
    );
}

#[test]
fn half_month_slot_of_representative_days() {
    assert_eq!(half_month_slot(75), 5);
    assert_eq!(half_month_slot(1), 0);
    assert_eq!(half_month_slot(0), 0);
    assert_eq!(half_month_slot(-400), 0);
    assert_eq!(half_month_slot(350), 23);
    assert_eq!(half_month_slot(365), 23);
    assert_eq!(half_month_slot(1000), 23);
    // Between two days the pair above the bracket is compared: day 80 lies
    // in (75, 91] and takes the slot of day 91.
    assert_eq!(half_month_slot(80), 6);
    assert_eq!(half_month_slot(100), 7);
    assert_eq!(half_month_slot(i32::MIN), 0);
    assert_eq!(half_month_slot(i32::MAX), 23);
}

#[test]
fn month_of_day_counts_thirty_day_months() {
    assert_eq!(month_of_day(1), 0);
    assert_eq!(month_of_day(30), 0);
    assert_eq!(month_of_day(31), 1);
    assert_eq!(month_of_day(75), 2);
    assert_eq!(month_of_day(331), 11);
    assert_eq!(month_of_day(366), 11);
    assert_eq!(month_of_day(0), 0);
    assert_eq!(month_of_day(-28), 0);
}
