use pratmo_core::iodine::{
    iodine_family, iodine_reaction_table, iodine_reactions, FamilyMember, SpeciesReaction, Term,
};
use pratmo_core::idx;
use pratmo_core::species::{count_radicals, LayoutError, SpeciesTable, NDEN, NSLOWM};
use pratmo_core::stoich::{production_loss, react_stoich};

fn identity_species_map() -> [usize; NDEN] {
    let mut n = [0usize; NDEN];
    for (index, slot) in n.iter_mut().enumerate() {
        *slot = index + 1;
    }
    n
}

/// Iodine atoms, in halves of the coefficient unit, of a species slot.
fn iodine_atoms(species_slot: usize) -> u32 {
    match species_slot {
        31..=36 => 1,
        37..=40 => 2,
        _ => 0,
    }
}

fn side_iodine(terms: &[Term]) -> u32 {
    terms.iter().map(|t| t.halves * iodine_atoms(t.species)).sum()
}

#[test]
fn shared_iodine_reaction_table_conserves_iodine_atoms() {
    let n = identity_species_map();
    for bromine in [true, false] {
        for reaction in iodine_reactions(&n, bromine) {
            let lhs = side_iodine(&reaction.reactants);
            let rhs = side_iodine(&reaction.products);
            assert_eq!(lhs, rhs, "iodine is not conserved in r[{}]", reaction.rate);
        }
    }
}

#[test]
fn iodine_table_visits_each_reaction_once() {
    for bromine in [true, false] {
        let table = iodine_reaction_table(bromine);
        let mut rates: Vec<usize> = table.iter().map(|r| r.rate).collect();
        let n = rates.len();
        rates.sort();
        rates.dedup();
        assert_eq!(rates.len(), n, "a rate repeats with bromine {bromine}");
        assert_eq!(rates.contains(&229), bromine);
        assert_eq!(rates.contains(&263), bromine);
    }
}

fn reaction_with_rate(table: &[SpeciesReaction], rate: usize) -> &SpeciesReaction {
    table.iter().find(|r| r.rate == rate).expect("rate present")
}

#[test]
fn iono2_photolysis_gives_i_and_no3() {
    let n = identity_species_map();
    let table = iodine_reactions(&n, true);
    let r = reaction_with_rate(&table, 232);
    assert_eq!(r.reactants, vec![Term { species: 34, halves: 2 }]);
    assert_eq!(r.products, vec![Term { species: 31, halves: 2 }, Term { species: 3, halves: 2 }]);
    assert!(r.products.iter().all(|t| t.species != 2), "NO2 must not be a product");
}

#[test]
fn higher_oxide_channels_have_expected_products() {
    let n = identity_species_map();
    let table = iodine_reactions(&n, true);
    // 2 IO -> OIO + I
    let r = reaction_with_rate(&table, 234);
    assert_eq!(r.reactants, vec![Term { species: 32, halves: 4 }]);
    assert_eq!(r.products, vec![Term { species: 36, halves: 2 }, Term { species: 31, halves: 2 }]);
    // I2O2 + hv -> I + OIO
    let r = reaction_with_rate(&table, 245);
    assert_eq!(r.reactants, vec![Term { species: 38, halves: 2 }]);
    assert_eq!(r.products, vec![Term { species: 31, halves: 2 }, Term { species: 36, halves: 2 }]);
}

#[test]
fn iodine_reactions_follow_the_species_map() {
    let mut n = identity_species_map();
    n.reverse();
    let roles = iodine_reaction_table(true);
    let placed = iodine_reactions(&n, true);
    assert_eq!(roles.len(), placed.len());
    for (r, p) in roles.iter().zip(placed.iter()) {
        assert_eq!(r.rate, p.rate);
        for (a, b) in r.reactants.iter().zip(p.reactants.iter()) {
            assert_eq!(b.species, n[a.role]);
            assert_eq!(b.halves, a.halves);
        }
        for (a, b) in r.products.iter().zip(p.products.iter()) {
            assert_eq!(b.species, n[a.role]);
            assert_eq!(b.halves, a.halves);
        }
    }
}

#[test]
fn bromine_switch_changes_only_the_bromine_channels() {
    let with = iodine_reaction_table(true);
    let without = iodine_reaction_table(false);
    assert!(with.len() > without.len());
}

fn record(name: &str, jx: usize, diu: u8, slo: u8, diff: u8) -> Vec<u8> {
    format!("{:<8}{:>2} {}{}0{}", name, jx, diu, slo, diff).into_bytes()
}

fn header(n: usize) -> Vec<u8> {
    format!("RADICALS{:>2}", n).into_bytes()
}

#[test]
fn radical_count_reads_columns_nine_and_ten() {
    assert_eq!(count_radicals(b"RADICALS40 extra"), 40);
    assert_eq!(count_radicals(b"RADICALS 3"), 3);
    assert_eq!(count_radicals(b"RADICALS"), 0);
    assert_eq!(count_radicals(b"RADICALSxx"), 0);
}

#[test]
fn three_radicals_take_slots_up_and_down() {
    let lines = vec![record("OH", 1, 1, 0, 1), record("HO2", 2, 0, 0, 0), record("NO2", 3, 0, 1, 0)];
    let mut t = SpeciesTable::new();
    assert!(t.radicals_can_be_stored(&lines));
    assert_eq!(t.read_radicals(&header(3), &lines), Ok(()));
    assert_eq!(t.ntotx, 3);
    assert_eq!(t.ntot, 2);
    assert_eq!(t.ntsav[NDEN], 2);
    assert_eq!(&t.ntsav[0..3], &[1, 3, 2]);
    assert_eq!(&t.n[0..3], &[1, 3, 2]);
    assert_eq!(t.tname[0], b"OH".to_vec());
    assert_eq!(t.tname[2], b"NO2".to_vec());
    assert_eq!(t.ndiff[0], 1);
    assert_eq!(t.nnr, 1);
    assert_eq!(t.nnrt[0], 3);
    assert_eq!(t.tnamet[1], b"NO2".to_vec());
    assert_eq!(t.tnamet[2], b"HO2".to_vec());
    // The species without a record keep slot 0, and the last of them names
    // the first slot position.
    assert_eq!(t.tnamet[0], Vec::<u8>::new());
}

#[test]
fn a_block_whose_numbers_do_not_sum_up_is_refused() {
    let lines = vec![record("OH", 1, 1, 0, 1), record("HO2", 2, 0, 0, 0), record("NO2", 4, 0, 1, 0)];
    let mut t = SpeciesTable::new();
    assert!(t.radicals_can_be_stored(&lines));
    assert_eq!(t.read_radicals(&header(3), &lines), Err(LayoutError::Checksum));
    assert_eq!(t.ntotx, 0);
    assert_eq!(t.nnr, 0);
    assert!(t.tname.iter().all(|n| n.is_empty()));
}

#[test]
fn too_many_slow_species_are_refused() {
    let lines: Vec<Vec<u8>> = (1..=NSLOWM + 1).map(|j| record("X", j, 0, 1, 0)).collect();
    let mut t = SpeciesTable::new();
    assert!(t.radicals_can_be_stored(&lines));
    assert_eq!(t.read_radicals(&header(NSLOWM + 1), &lines), Err(LayoutError::TooManySlow));
    assert_eq!(t.ntotx, 0);
}

#[test]
fn a_block_with_slots_beyond_the_tables_cannot_be_stored() {
    let lines: Vec<Vec<u8>> = (1..=41).map(|j| record("X", j, 0, 0, 0)).collect();
    let t = SpeciesTable::new();
    assert!(!t.radicals_can_be_stored(&lines));
}

/// The full 40-species block: species 1-35 diurnal (5 and 33 slow), 36-40
/// explicit.
fn full_block() -> Vec<Vec<u8>> {
    (1..=40)
        .map(|j| record(&format!("S{j}"), j, if j <= 35 { 1 } else { 0 }, if j == 5 || j == 33 { 1 } else { 0 }, 0))
        .collect()
}

#[test]
fn full_block_is_a_permutation_of_the_slots() {
    let lines = full_block();
    let mut t = SpeciesTable::new();
    assert!(t.radicals_can_be_stored(&lines));
    assert_eq!(t.read_radicals(&header(40), &lines), Ok(()));
    assert_eq!(t.ntot, 35);
    let mut seen = [false; NDEN];
    for j in 0..NDEN {
        let slot = t.ntsav[j];
        assert!((1..=NDEN).contains(&slot));
        assert!(!seen[slot - 1]);
        seen[slot - 1] = true;
        assert_eq!(slot <= t.ntot, j < 35);
        assert_eq!(t.tnamet[slot - 1], t.tname[j]);
    }
    assert_eq!(t.ntsav[35], 40);
    assert_eq!(t.ntsav[39], 36);
    assert_eq!(&t.nnrt[0..2], &[5, 33]);
    assert!(t.bromine_active());
    assert!(t.iodine_active());
}

#[test]
fn disabling_iodine_drops_the_iodine_species() {
    let lines = full_block();
    let mut t = SpeciesTable::new();
    assert_eq!(t.read_radicals(&header(40), &lines), Ok(()));
    let before = t.n.clone();
    t.disable_iodine();
    assert_eq!(&t.n[0..30], &before[0..30]);
    assert!(t.n[30..40].iter().all(|&v| v == 0));
    assert!(t.ntsav[30..40].iter().all(|&v| v == 0));
    assert_eq!(t.ntsav[NDEN], 35);
    assert_eq!(t.ntotx, 30);
    assert_eq!(t.ntot, 30);
    assert_eq!(t.nnr, 1);
    assert_eq!(t.nnrt[0], 5);
    assert!(t.nnrt[1..].iter().all(|&v| v == 0));
    assert!(!t.iodine_active());
    assert_eq!(t.tname[35], b"S36".to_vec());
}

#[test]
fn disabling_iodine_keeps_smaller_counts() {
    let lines = vec![record("OH", 1, 1, 0, 1), record("HO2", 2, 0, 0, 0), record("NO2", 3, 0, 1, 0)];
    let mut t = SpeciesTable::new();
    assert_eq!(t.read_radicals(&header(3), &lines), Ok(()));
    t.disable_iodine();
    assert_eq!(t.ntotx, 3);
    assert_eq!(t.ntot, 2);
    assert_eq!(t.nnr, 1);
    assert_eq!(t.nnrt[0], 3);
}

#[test]
fn disabling_iodine_twice_changes_nothing_more() {
    let lines = full_block();
    let mut t = SpeciesTable::new();
    assert_eq!(t.read_radicals(&header(40), &lines), Ok(()));
    t.disable_iodine();
    let (n, ntsav, nnrt, nnr, ntot, ntotx) =
        (t.n.clone(), t.ntsav.clone(), t.nnrt.clone(), t.nnr, t.ntot, t.ntotx);
    t.disable_iodine();
    assert_eq!(t.n, n);
    assert_eq!(t.ntsav, ntsav);
    assert_eq!(t.nnrt, nnrt);
    assert_eq!((t.nnr, t.ntot, t.ntotx), (nnr, ntot, ntotx));
}

/// Production and loss of every implicit species from the iodine reactions
/// whose rates are given, as the chemistry accumulates them.
fn iodine_production_loss(rates: &[(usize, f64)]) -> (Vec<f64>, Vec<f64>) {
    let n = identity_species_map();
    let mut rl = vec![0.0; NDEN];
    let mut rp = vec![0.0; NDEN];
    for reaction in iodine_reactions(&n, true) {
        let Some(&(_, rate)) = rates.iter().find(|(r, _)| *r == reaction.rate) else { continue };
        let (loss, prod) = production_loss(&reaction.reactants, &reaction.products, NDEN);
        for row in 0..NDEN {
            rl[row] += loss[row] as f64 / 2.0 * rate;
            rp[row] += prod[row] as f64 / 2.0 * rate;
        }
    }
    (rl, rp)
}

#[test]
fn iono2_photolysis_has_the_expected_independent_products() {
    let n = identity_species_map();
    let (rl, rp) = iodine_production_loss(&[(232, 2.5)]);
    assert_eq!(rl[idx(n[33])], 2.5, "IONO2 loss");
    assert_eq!(rp[idx(n[30])], 2.5, "I production");
    assert_eq!(rp[idx(n[2])], 2.5, "NO3 production");
    assert_eq!(rp[idx(n[1])], 0.0, "NO2 must not be a product");
}

#[test]
fn representative_higher_oxide_channels_have_expected_products() {
    let n = identity_species_map();
    let (rl, rp) = iodine_production_loss(&[(234, 2.0), (245, 3.0)]);
    assert_eq!(rl[idx(n[31])], 4.0, "IO loss");
    assert_eq!(rl[idx(n[37])], 3.0, "I2O2 loss");
    assert_eq!(rp[idx(n[30])], 5.0, "I production");
    assert_eq!(rp[idx(n[35])], 5.0, "OIO production");
}

#[test]
fn io_self_reaction_jacobian_in_quarters() {
    // 2 IO -> OIO + I: IO is species 32, OIO 36, I 31.
    let reactants = vec![Term { species: 32, halves: 4 }];
    let products = vec![Term { species: 36, halves: 2 }, Term { species: 31, halves: 2 }];
    let a = react_stoich(&reactants, &products, NDEN);
    assert_eq!(a.len(), NDEN * NDEN);
    let col = 31;
    assert_eq!(a[col * NDEN + 31], -16);
    assert_eq!(a[col * NDEN + 35], 8);
    assert_eq!(a[col * NDEN + 30], 8);
    let nonzero = a.iter().filter(|&&v| v != 0).count();
    assert_eq!(nonzero, 3);
}

#[test]
fn jacobian_is_the_outer_product_of_reactants_and_net_production() {
    let n = identity_species_map();
    for reaction in iodine_reactions(&n, false) {
        let (loss, prod) = production_loss(&reaction.reactants, &reaction.products, NDEN);
        let a = react_stoich(&reaction.reactants, &reaction.products, NDEN);
        for col in 0..NDEN {
            for row in 0..NDEN {
                let expected = loss[col] as i64 * (prod[row] as i64 - loss[row] as i64);
                assert_eq!(a[col * NDEN + row], expected, "r[{}] ({col}, {row})", reaction.rate);
            }
        }
    }
}

#[test]
fn species_outside_the_implicit_slots_contribute_nothing() {
    let reactants = vec![Term { species: 32, halves: 2 }, Term { species: 5, halves: 2 }];
    let products = vec![Term { species: 0, halves: 2 }, Term { species: 3, halves: 2 }];
    let (loss, prod) = production_loss(&reactants, &products, 10);
    assert_eq!(loss[31], 0);
    assert_eq!(loss[4], 2);
    assert_eq!(prod.iter().sum::<u64>(), 2);
    let a = react_stoich(&reactants, &products, 10);
    assert_eq!(a[4 * NDEN + 4], -4);
    assert_eq!(a[4 * NDEN + 2], 4);
    assert_eq!(a.iter().filter(|&&v| v != 0).count(), 2);
}

#[test]
fn jacobian_columns_of_iodine_reactions_carry_no_iodine() {
    let n = identity_species_map();
    for bromine in [true, false] {
        for reaction in iodine_reactions(&n, bromine) {
            let a = react_stoich(&reaction.reactants, &reaction.products, NDEN);
            for col in 0..NDEN {
                let carried: i64 = (0..NDEN)
                    .map(|row| iodine_atoms(row + 1) as i64 * a[col * NDEN + row])
                    .sum();
                assert_eq!(carried, 0, "r[{}] column {col}", reaction.rate);
            }
        }
    }
}

#[test]
fn iodine_family_weights_are_iodine_atoms() {
    let n = identity_species_map();
    let family = iodine_family(&n, NDEN, true);
    let expected: Vec<FamilyMember> = (30..40)
        .map(|s| FamilyMember { slot: s, atoms: if s <= 35 { 1 } else { 2 } })
        .collect();
    assert_eq!(family, expected);
}

#[test]
fn iodine_family_is_empty_without_iodine_chemistry() {
    let n = identity_species_map();
    assert!(iodine_family(&n, NDEN, false).is_empty());
}

#[test]
fn iodine_family_skips_species_without_an_implicit_slot() {
    let mut n = identity_species_map();
    n[31] = 0;
    let family = iodine_family(&n, 35, true);
    let slots: Vec<usize> = family.iter().map(|m| m.slot).collect();
    assert_eq!(slots, vec![30, 32, 33, 34]);
}
