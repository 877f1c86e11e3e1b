use pratmo_core::placement::{gather, scatter};
use pratmo_core::species::NDEN;

fn identity() -> [usize; NDEN] {
    let mut n = [0usize; NDEN];
    for (i, s) in n.iter_mut().enumerate() {
        *s = i + 1;
    }
    n
}

fn values() -> Vec<i64> {
    (0..NDEN as i64).map(|i| 100 + i).collect()
}

#[test]
fn gather_after_scatter_gives_back_every_value() {
    let n = identity();
    let xn = scatter(&n, &values(), -1, true);
    assert_eq!(xn, values());
    let mut back = vec![0i64; NDEN];
    gather(&n, &xn, 0, &mut back, true);
    assert_eq!(back, values());
}

#[test]
fn iodine_species_stay_out_without_iodine_chemistry() {
    let n = identity();
    let xn = scatter(&n, &values(), -1, false);
    assert_eq!(&xn[..30], &values()[..30]);
    assert!(xn[30..].iter().all(|&v| v == -1));
    let mut back = vec![7i64; NDEN];
    gather(&n, &xn, 0, &mut back, false);
    assert_eq!(&back[..30], &values()[..30]);
    assert!(back[30..].iter().all(|&v| v == 7));
}

#[test]
fn later_species_wins_a_shared_slot() {
    let mut n = identity();
    n[0] = 1;
    n[1] = 1;
    let xn = scatter(&n, &values(), -1, true);
    assert_eq!(xn[0], 101);
    assert_eq!(xn[1], -1);
    // HNO2 (species 15) is placed after N2O5 and HNO3 but before H.
    let mut m = identity();
    m[14] = 6;
    m[5] = 6;
    let ym = scatter(&m, &values(), -1, true);
    assert_eq!(ym[5], 105);
}

#[test]
fn species_without_a_slot_gather_zero() {
    let mut n = identity();
    n[3] = 0;
    n[4] = 41;
    let xn = scatter(&n, &values(), -1, true);
    assert_eq!(xn[3], -1);
    assert_eq!(xn[4], -1);
    let mut back = vec![5i64; NDEN];
    gather(&n, &xn, 0, &mut back, true);
    assert_eq!(back[3], 0);
    assert_eq!(back[4], 0);
    assert_eq!(back[2], 102);
}

#[test]
fn scatter_after_gather_gives_back_the_slot_vector() {
    // A permutation of the 40 slots: species i holds slot 40 - i.
    let mut n = [0usize; NDEN];
    for (i, s) in n.iter_mut().enumerate() {
        *s = NDEN - i;
    }
    let xn: Vec<i64> = (0..NDEN as i64).map(|k| 1000 + 7 * k).collect();
    let mut values = vec![0i64; NDEN];
    gather(&n, &xn, 0, &mut values, true);
    assert_eq!(scatter(&n, &values, -1, true), xn);
}
