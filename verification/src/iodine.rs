//! The iodine reaction table shared by the chemistry's production/loss
//! terms and its Jacobian, so the two cannot diverge. Each term names a
//! species by its role (its 0-based position in the species map `n`) and
//! carries its stoichiometric coefficient in halves.
use vstd::prelude::*;

use crate::species::NDEN;

verus! {

/// One term of a reaction: a species role and its coefficient in halves.
#[derive(Debug, Clone, Copy, PartialEq, Eq)]
pub struct RoleTerm {
    /// 0-based position of the species in the species map.
    pub role: usize,
    /// Stoichiometric coefficient times two.
    pub halves: u32,
}

/// One iodine reaction: the index of its rate and its two sides.
#[derive(Debug)]
pub struct Reaction {
    /// Index of the rate coefficient.
    pub rate: usize,
    /// Reactants.
    pub reactants: Vec<RoleTerm>,
    /// Products.
    pub products: Vec<RoleTerm>,
}

/// A reaction in spec form: (rate, reactants, products), each term a
/// (role, halves) pair.
pub type ReactionSpec = (int, Seq<(int, int)>, Seq<(int, int)>);

/// A side of a reaction as (role, halves) pairs.
pub open spec fn side(v: Seq<RoleTerm>) -> Seq<(int, int)> {
    Seq::new(v.len(), |i: int| (v[i].role as int, v[i].halves as int))
}

/// A reaction as (rate, reactants, products).
pub open spec fn reaction_view(r: Reaction) -> ReactionSpec {
    (r.rate as int, side(r.reactants@), side(r.products@))
}

/// A list of reactions in spec form.
pub open spec fn table_view(v: Seq<Reaction>) -> Seq<ReactionSpec> {
    Seq::new(v.len(), |i: int| reaction_view(v[i]))
}

fn term(role: usize, halves: u32) -> (r: RoleTerm)
    ensures
        r.role == role,
        r.halves == halves,
{
    RoleTerm { role, halves }
}

fn reaction(rate: usize, reactants: Vec<RoleTerm>, products: Vec<RoleTerm>) -> (r: Reaction)
    ensures
        r.rate == rate,
        r.reactants@ == reactants@,
        r.products@ == products@,
{
    Reaction { rate, reactants, products }
}

/// Gas-phase reactions of I, IO, HOI, IONO2 and HI with the base chemistry, and the IO + ClO channels.
pub open spec fn gas_phase() -> Seq<ReactionSpec> {
    seq![
        (221int, seq![(30int, 2int), (10int, 2int)], seq![(31int, 2int)]),
        (222int, seq![(31int, 2int), (9int, 2int)], seq![(30int, 2int)]),
        (223int, seq![(31int, 2int), (0int, 2int)], seq![(30int, 2int), (1int, 2int)]),
        (224int, seq![(31int, 2int), (7int, 2int)], seq![(32int, 2int)]),
        (225int, seq![(31int, 2int), (1int, 2int)], seq![(33int, 2int)]),
        (226int, seq![(30int, 2int), (7int, 2int)], seq![(34int, 2int)]),
        (227int, seq![(34int, 2int), (6int, 2int)], seq![(30int, 2int)]),
        (228int, seq![(31int, 2int), (18int, 2int)], seq![(30int, 2int), (27int, 2int)]),
        (262int, seq![(31int, 2int), (18int, 2int)], seq![(30int, 2int), (16int, 2int)]),
    ]
}

/// The IO + BrO channels, present when bromine chemistry is on.
pub open spec fn bromine_channels() -> Seq<ReactionSpec> {
    seq![
        (229int, seq![(31int, 2int), (11int, 2int)], seq![(30int, 2int), (12int, 2int)]),
        (263int, seq![(31int, 2int), (11int, 2int)], seq![(35int, 2int), (12int, 2int)]),
    ]
}

/// Photolysis of IO, HOI and IONO2, and the IO and OIO self-reactions.
pub open spec fn photolysis_and_oxides() -> Seq<ReactionSpec> {
    seq![
        (230int, seq![(31int, 2int)], seq![(30int, 2int), (9int, 2int)]),
        (231int, seq![(32int, 2int)], seq![(30int, 2int), (6int, 2int)]),
        (232int, seq![(33int, 2int)], seq![(30int, 2int), (2int, 2int)]),
        (234int, seq![(31int, 4int)], seq![(35int, 2int), (30int, 2int)]),
        (236int, seq![(31int, 4int)], seq![(37int, 2int)]),
        (237int, seq![(35int, 2int), (0int, 2int)], seq![(31int, 2int), (1int, 2int)]),
        (239int, seq![(31int, 2int), (35int, 2int)], seq![(38int, 2int)]),
        (240int, seq![(35int, 4int)], seq![(39int, 2int)]),
        (241int, seq![(36int, 2int), (6int, 2int)], seq![(32int, 2int), (30int, 2int)]),
    ]
}

/// Sea-salt recycling of HOI and IONO2 with bromine on: half a Cl and half a Br per iodine.
pub open spec fn sea_salt_bromine() -> Seq<ReactionSpec> {
    seq![
        (91int, seq![(32int, 2int)], seq![(30int, 2int), (16int, 1int), (12int, 1int)]),
        (92int, seq![(33int, 2int)], seq![(30int, 2int), (16int, 1int), (12int, 1int)]),
    ]
}

/// Sea-salt recycling of HOI and IONO2 with bromine off: half a Cl per iodine.
pub open spec fn sea_salt_chlorine() -> Seq<ReactionSpec> {
    seq![
        (91int, seq![(32int, 2int)], seq![(30int, 2int), (16int, 1int)]),
        (92int, seq![(33int, 2int)], seq![(30int, 2int), (16int, 1int)]),
    ]
}

/// Photolysis of OIO, I2 and the higher oxides, and the first ozone and radical reactions of IO and I2.
pub open spec fn higher_oxides() -> Seq<ReactionSpec> {
    seq![
        (243int, seq![(35int, 2int)], seq![(30int, 2int)]),
        (244int, seq![(36int, 2int)], seq![(30int, 4int)]),
        (245int, seq![(37int, 2int)], seq![(30int, 2int), (35int, 2int)]),
        (246int, seq![(38int, 2int)], seq![(31int, 2int), (35int, 2int)]),
        (247int, seq![(39int, 2int)], seq![(35int, 4int)]),
        (250int, seq![(31int, 2int), (10int, 2int)], seq![(35int, 2int)]),
        (251int, seq![(31int, 2int), (6int, 2int)], seq![(30int, 2int), (7int, 2int)]),
        (252int, seq![(36int, 2int), (9int, 2int)], seq![(31int, 2int), (30int, 2int)]),
        (253int, seq![(30int, 2int), (2int, 2int)], seq![(31int, 2int), (1int, 2int)]),
    ]
}

/// Nitrate reactions, HOI + OH, HI + NO3, and the thermal decay of I2O2 and I2O4.
pub open spec fn nitrate_and_thermal() -> Seq<ReactionSpec> {
    seq![
        (254int, seq![(31int, 2int), (2int, 2int)], seq![(35int, 2int), (1int, 2int)]),
        (255int, seq![(36int, 2int), (2int, 2int)], seq![(30int, 2int), (33int, 2int)]),
        (256int, seq![(30int, 2int), (33int, 2int)], seq![(36int, 2int), (2int, 2int)]),
        (257int, seq![(32int, 2int), (6int, 2int)], seq![(31int, 2int)]),
        (258int, seq![(34int, 2int), (2int, 2int)], seq![(30int, 2int), (4int, 2int)]),
        (259int, seq![(37int, 2int)], seq![(35int, 2int), (30int, 2int)]),
        (260int, seq![(37int, 2int)], seq![(31int, 4int)]),
        (261int, seq![(39int, 2int)], seq![(35int, 4int)]),
    ]
}

fn gas_phase_exec() -> (t: Vec<Reaction>)
    ensures
        table_view(t@) == gas_phase(),
{
    let mut t: Vec<Reaction> = Vec::new();
    t.push(reaction(221, vec![term(30, 2), term(10, 2)], vec![term(31, 2)]));
    assert(reaction_view(t[0]) == gas_phase()[0]);
    t.push(reaction(222, vec![term(31, 2), term(9, 2)], vec![term(30, 2)]));
    assert(reaction_view(t[1]) == gas_phase()[1]);
    t.push(reaction(223, vec![term(31, 2), term(0, 2)], vec![term(30, 2), term(1, 2)]));
    assert(reaction_view(t[2]) == gas_phase()[2]);
    t.push(reaction(224, vec![term(31, 2), term(7, 2)], vec![term(32, 2)]));
    assert(reaction_view(t[3]) == gas_phase()[3]);
    t.push(reaction(225, vec![term(31, 2), term(1, 2)], vec![term(33, 2)]));
    assert(reaction_view(t[4]) == gas_phase()[4]);
    t.push(reaction(226, vec![term(30, 2), term(7, 2)], vec![term(34, 2)]));
    assert(reaction_view(t[5]) == gas_phase()[5]);
    t.push(reaction(227, vec![term(34, 2), term(6, 2)], vec![term(30, 2)]));
    assert(reaction_view(t[6]) == gas_phase()[6]);
    t.push(reaction(228, vec![term(31, 2), term(18, 2)], vec![term(30, 2), term(27, 2)]));
    assert(reaction_view(t[7]) == gas_phase()[7]);
    t.push(reaction(262, vec![term(31, 2), term(18, 2)], vec![term(30, 2), term(16, 2)]));
    assert(reaction_view(t[8]) == gas_phase()[8]);
    assert(table_view(t@) =~= gas_phase());
    t
}

fn bromine_channels_exec() -> (t: Vec<Reaction>)
    ensures
        table_view(t@) == bromine_channels(),
{
    let mut t: Vec<Reaction> = Vec::new();
    t.push(reaction(229, vec![term(31, 2), term(11, 2)], vec![term(30, 2), term(12, 2)]));
    assert(reaction_view(t[0]) == bromine_channels()[0]);
    t.push(reaction(263, vec![term(31, 2), term(11, 2)], vec![term(35, 2), term(12, 2)]));
    assert(reaction_view(t[1]) == bromine_channels()[1]);
    assert(table_view(t@) =~= bromine_channels());
    t
}

fn photolysis_and_oxides_exec() -> (t: Vec<Reaction>)
    ensures
        table_view(t@) == photolysis_and_oxides(),
{
    let mut t: Vec<Reaction> = Vec::new();
    t.push(reaction(230, vec![term(31, 2)], vec![term(30, 2), term(9, 2)]));
    assert(reaction_view(t[0]) == photolysis_and_oxides()[0]);
    t.push(reaction(231, vec![term(32, 2)], vec![term(30, 2), term(6, 2)]));
    assert(reaction_view(t[1]) == photolysis_and_oxides()[1]);
    t.push(reaction(232, vec![term(33, 2)], vec![term(30, 2), term(2, 2)]));
    assert(reaction_view(t[2]) == photolysis_and_oxides()[2]);
    t.push(reaction(234, vec![term(31, 4)], vec![term(35, 2), term(30, 2)]));
    assert(reaction_view(t[3]) == photolysis_and_oxides()[3]);
    t.push(reaction(236, vec![term(31, 4)], vec![term(37, 2)]));
    assert(reaction_view(t[4]) == photolysis_and_oxides()[4]);
    t.push(reaction(237, vec![term(35, 2), term(0, 2)], vec![term(31, 2), term(1, 2)]));
    assert(reaction_view(t[5]) == photolysis_and_oxides()[5]);
    t.push(reaction(239, vec![term(31, 2), term(35, 2)], vec![term(38, 2)]));
    assert(reaction_view(t[6]) == photolysis_and_oxides()[6]);
    t.push(reaction(240, vec![term(35, 4)], vec![term(39, 2)]));
    assert(reaction_view(t[7]) == photolysis_and_oxides()[7]);
    t.push(reaction(241, vec![term(36, 2), term(6, 2)], vec![term(32, 2), term(30, 2)]));
    assert(reaction_view(t[8]) == photolysis_and_oxides()[8]);
    assert(table_view(t@) =~= photolysis_and_oxides());
    t
}

fn sea_salt_bromine_exec() -> (t: Vec<Reaction>)
    ensures
        table_view(t@) == sea_salt_bromine(),
{
    let mut t: Vec<Reaction> = Vec::new();
    t.push(reaction(91, vec![term(32, 2)], vec![term(30, 2), term(16, 1), term(12, 1)]));
    assert(reaction_view(t[0]) == sea_salt_bromine()[0]);
    t.push(reaction(92, vec![term(33, 2)], vec![term(30, 2), term(16, 1), term(12, 1)]));
    assert(reaction_view(t[1]) == sea_salt_bromine()[1]);
    assert(table_view(t@) =~= sea_salt_bromine());
    t
}

fn sea_salt_chlorine_exec() -> (t: Vec<Reaction>)
    ensures
        table_view(t@) == sea_salt_chlorine(),
{
    let mut t: Vec<Reaction> = Vec::new();
    t.push(reaction(91, vec![term(32, 2)], vec![term(30, 2), term(16, 1)]));
    assert(reaction_view(t[0]) == sea_salt_chlorine()[0]);
    t.push(reaction(92, vec![term(33, 2)], vec![term(30, 2), term(16, 1)]));
    assert(reaction_view(t[1]) == sea_salt_chlorine()[1]);
    assert(table_view(t@) =~= sea_salt_chlorine());
    t
}

fn higher_oxides_exec() -> (t: Vec<Reaction>)
    ensures
        table_view(t@) == higher_oxides(),
{
    let mut t: Vec<Reaction> = Vec::new();
    t.push(reaction(243, vec![term(35, 2)], vec![term(30, 2)]));
    assert(reaction_view(t[0]) == higher_oxides()[0]);
    t.push(reaction(244, vec![term(36, 2)], vec![term(30, 4)]));
    assert(reaction_view(t[1]) == higher_oxides()[1]);
    t.push(reaction(245, vec![term(37, 2)], vec![term(30, 2), term(35, 2)]));
    assert(reaction_view(t[2]) == higher_oxides()[2]);
    t.push(reaction(246, vec![term(38, 2)], vec![term(31, 2), term(35, 2)]));
    assert(reaction_view(t[3]) == higher_oxides()[3]);
    t.push(reaction(247, vec![term(39, 2)], vec![term(35, 4)]));
    assert(reaction_view(t[4]) == higher_oxides()[4]);
    t.push(reaction(250, vec![term(31, 2), term(10, 2)], vec![term(35, 2)]));
    assert(reaction_view(t[5]) == higher_oxides()[5]);
    t.push(reaction(251, vec![term(31, 2), term(6, 2)], vec![term(30, 2), term(7, 2)]));
    assert(reaction_view(t[6]) == higher_oxides()[6]);
    t.push(reaction(252, vec![term(36, 2), term(9, 2)], vec![term(31, 2), term(30, 2)]));
    assert(reaction_view(t[7]) == higher_oxides()[7]);
    t.push(reaction(253, vec![term(30, 2), term(2, 2)], vec![term(31, 2), term(1, 2)]));
    assert(reaction_view(t[8]) == higher_oxides()[8]);
    assert(table_view(t@) =~= higher_oxides());
    t
}

fn nitrate_and_thermal_exec() -> (t: Vec<Reaction>)
    ensures
        table_view(t@) == nitrate_and_thermal(),
{
    let mut t: Vec<Reaction> = Vec::new();
    t.push(reaction(254, vec![term(31, 2), term(2, 2)], vec![term(35, 2), term(1, 2)]));
    assert(reaction_view(t[0]) == nitrate_and_thermal()[0]);
    t.push(reaction(255, vec![term(36, 2), term(2, 2)], vec![term(30, 2), term(33, 2)]));
    assert(reaction_view(t[1]) == nitrate_and_thermal()[1]);
    t.push(reaction(256, vec![term(30, 2), term(33, 2)], vec![term(36, 2), term(2, 2)]));
    assert(reaction_view(t[2]) == nitrate_and_thermal()[2]);
    t.push(reaction(257, vec![term(32, 2), term(6, 2)], vec![term(31, 2)]));
    assert(reaction_view(t[3]) == nitrate_and_thermal()[3]);
    t.push(reaction(258, vec![term(34, 2), term(2, 2)], vec![term(30, 2), term(4, 2)]));
    assert(reaction_view(t[4]) == nitrate_and_thermal()[4]);
    t.push(reaction(259, vec![term(37, 2)], vec![term(35, 2), term(30, 2)]));
    assert(reaction_view(t[5]) == nitrate_and_thermal()[5]);
    t.push(reaction(260, vec![term(37, 2)], vec![term(31, 4)]));
    assert(reaction_view(t[6]) == nitrate_and_thermal()[6]);
    t.push(reaction(261, vec![term(39, 2)], vec![term(35, 4)]));
    assert(reaction_view(t[7]) == nitrate_and_thermal()[7]);
    assert(table_view(t@) =~= nitrate_and_thermal());
    t
}

/// The iodine reactions, in the order the chemistry visits them.
pub open spec fn iodine_table(bromine: bool) -> Seq<ReactionSpec> {
    gas_phase() + (if bromine { bromine_channels() } else { Seq::empty() }) + photolysis_and_oxides()
        + (if bromine { sea_salt_bromine() } else { sea_salt_chlorine() }) + higher_oxides()
        + nitrate_and_thermal()
}

fn append_reactions(t: &mut Vec<Reaction>, piece: Vec<Reaction>)
    ensures
        table_view(final(t)@) == table_view(old(t)@) + table_view(piece@),
{
    let mut p = piece;
    let ghost pv = p@;
    t.append(&mut p);
    assert(table_view(t@) =~= table_view(old(t)@) + table_view(pv));
}

/// The iodine reaction table, by species roles.
pub fn iodine_reaction_table(bromine: bool) -> (t: Vec<Reaction>)
    ensures
        table_view(t@) == iodine_table(bromine),
{
    let mut t = gas_phase_exec();
    if bromine {
        append_reactions(&mut t, bromine_channels_exec());
    } else {
        assert(table_view(t@) =~= table_view(t@) + Seq::<ReactionSpec>::empty());
    }
    append_reactions(&mut t, photolysis_and_oxides_exec());
    if bromine {
        append_reactions(&mut t, sea_salt_bromine_exec());
    } else {
        append_reactions(&mut t, sea_salt_chlorine_exec());
    }
    append_reactions(&mut t, higher_oxides_exec());
    append_reactions(&mut t, nitrate_and_thermal_exec());
    t
}

/// Iodine atoms in the species of a role: one for I, IO, HOI, IONO2, HI
/// and OIO (roles 30-35), two for I2, I2O2, I2O3 and I2O4 (roles 36-39).
pub open spec fn iodine_atoms(role: int) -> int {
    if 30 <= role <= 35 {
        1
    } else if 36 <= role <= 39 {
        2
    } else {
        0
    }
}

/// Iodine atoms on one side of a reaction, in halves.
pub open spec fn side_iodine(side: Seq<(int, int)>) -> int
    decreases side.len(),
{
    if side.len() == 0 {
        0
    } else {
        side_iodine(side.drop_last()) + side.last().1 * iodine_atoms(side.last().0)
    }
}

/// Every reaction of the list has as many iodine atoms on each side.
pub open spec fn conserves_iodine(t: Seq<ReactionSpec>) -> bool {
    forall|i: int| 0 <= i < t.len() ==> side_iodine(#[trigger] t[i].1) == side_iodine(t[i].2)
}

proof fn lemma_concat_conserves(a: Seq<ReactionSpec>, b: Seq<ReactionSpec>)
    requires
        conserves_iodine(a),
        conserves_iodine(b),
    ensures
        conserves_iodine(a + b),
{
    assert forall|i: int| 0 <= i < (a + b).len() implies side_iodine(#[trigger] (a + b)[i].1)
        == side_iodine((a + b)[i].2) by {
        if i < a.len() {
            assert((a + b)[i] == a[i]);
        } else {
            assert((a + b)[i] == b[i - a.len()]);
        }
    }
}

proof fn lemma_gas_phase_conserves()
    ensures
        conserves_iodine(gas_phase()),
{
    reveal_with_fuel(side_iodine, 4);
    let t = gas_phase();
    assert forall|i: int| 0 <= i < t.len() implies side_iodine(#[trigger] t[i].1) == side_iodine(t[i].2) by {
    }
}

proof fn lemma_bromine_channels_conserves()
    ensures
        conserves_iodine(bromine_channels()),
{
    reveal_with_fuel(side_iodine, 4);
    let t = bromine_channels();
    assert forall|i: int| 0 <= i < t.len() implies side_iodine(#[trigger] t[i].1) == side_iodine(t[i].2) by {
    }
}

proof fn lemma_photolysis_and_oxides_conserves()
    ensures
        conserves_iodine(photolysis_and_oxides()),
{
    reveal_with_fuel(side_iodine, 4);
    let t = photolysis_and_oxides();
    assert forall|i: int| 0 <= i < t.len() implies side_iodine(#[trigger] t[i].1) == side_iodine(t[i].2) by {
    }
}

proof fn lemma_sea_salt_bromine_conserves()
    ensures
        conserves_iodine(sea_salt_bromine()),
{
    reveal_with_fuel(side_iodine, 4);
    let t = sea_salt_bromine();
    assert forall|i: int| 0 <= i < t.len() implies side_iodine(#[trigger] t[i].1) == side_iodine(t[i].2) by {
    }
}

proof fn lemma_sea_salt_chlorine_conserves()
    ensures
        conserves_iodine(sea_salt_chlorine()),
{
    reveal_with_fuel(side_iodine, 4);
    let t = sea_salt_chlorine();
    assert forall|i: int| 0 <= i < t.len() implies side_iodine(#[trigger] t[i].1) == side_iodine(t[i].2) by {
    }
}

proof fn lemma_higher_oxides_conserves()
    ensures
        conserves_iodine(higher_oxides()),
{
    reveal_with_fuel(side_iodine, 4);
    let t = higher_oxides();
    assert forall|i: int| 0 <= i < t.len() implies side_iodine(#[trigger] t[i].1) == side_iodine(t[i].2) by {
    }
}

proof fn lemma_nitrate_and_thermal_conserves()
    ensures
        conserves_iodine(nitrate_and_thermal()),
{
    reveal_with_fuel(side_iodine, 4);
    let t = nitrate_and_thermal();
    assert forall|i: int| 0 <= i < t.len() implies side_iodine(#[trigger] t[i].1) == side_iodine(t[i].2) by {
    }
}



/// The elements besides iodine that the model's species carry (carbon
/// takes no part in the iodine reactions).
pub enum Element {
    Nitrogen,
    Oxygen,
    Hydrogen,
    Chlorine,
    Bromine,
}

/// Atoms of an element in the species of a role (the 0-based position in
/// the species map): NO, NO2, NO3, N2O5, HNO3, H, OH, HO2, H2O2, O, O3,
/// BrO, Br, HBr, HNO2, HCl, Cl, Cl2, ClO, ClONO2, HNO4, HOCl, BrONO2,
/// HOBr, H2CO, CH3O2, CH3O2H, OClO, Cl2O2, BrCl, then I, IO, HOI, IONO2,
/// HI, OIO, I2, I2O2, I2O3, I2O4.
pub open spec fn element_atoms(role: int, e: Element) -> int {
    match e {
        Element::Nitrogen => if role == 3 {
            2
        } else if role == 0 || role == 1 || role == 2 || role == 4 || role == 14 || role == 19
            || role == 20 || role == 22 || role == 33 {
            1
        } else {
            0
        },
        Element::Oxygen => if role == 3 {
            5
        } else if role == 20 || role == 39 {
            4
        } else if role == 2 || role == 4 || role == 10 || role == 19 || role == 22 || role == 33
            || role == 38 {
            3
        } else if role == 1 || role == 7 || role == 8 || role == 14 || role == 25 || role == 26
            || role == 27 || role == 28 || role == 35 || role == 37 {
            2
        } else if role == 0 || role == 6 || role == 9 || role == 11 || role == 18 || role == 21
            || role == 23 || role == 24 || role == 31 || role == 32 {
            1
        } else {
            0
        },
        Element::Hydrogen => if role == 26 {
            4
        } else if role == 25 {
            3
        } else if role == 8 || role == 24 {
            2
        } else if role == 4 || role == 5 || role == 6 || role == 7 || role == 13 || role == 14
            || role == 15 || role == 20 || role == 21 || role == 23 || role == 32 || role == 34 {
            1
        } else {
            0
        },
        Element::Chlorine => if role == 17 || role == 28 {
            2
        } else if role == 15 || role == 16 || role == 18 || role == 19 || role == 21 || role == 27
            || role == 29 {
            1
        } else {
            0
        },
        Element::Bromine => if role == 11 || role == 12 || role == 13 || role == 22 || role == 23
            || role == 29 {
            1
        } else {
            0
        },
    }
}

/// Atoms of an element on one side of a reaction, in halves.
pub open spec fn side_atoms(side: Seq<(int, int)>, e: Element) -> int
    decreases side.len(),
{
    if side.len() == 0 {
        0
    } else {
        side_atoms(side.drop_last(), e) + side.last().1 * element_atoms(side.last().0, e)
    }
}

/// Atoms of an element that a reaction takes from the tracked species,
/// in halves: those of its reactants less those of its products.
pub open spec fn atoms_lost(r: ReactionSpec, e: Element) -> int {
    side_atoms(r.1, e) - side_atoms(r.2, e)
}

/// A reaction's atoms are accounted for. The sea-salt uptake of HOI and
/// IONO2 (rates 91 and 92) makes no nitrogen, oxygen or hydrogen; every
/// other reaction keeps its nitrogen, chlorine and bromine, and loses
/// oxygen and hydrogen only as whole molecules of the untracked H2O and O2
/// (in halves, 4 of H and 2 of O per H2O, 4 of O per O2).
pub open spec fn reaction_balanced(r: ReactionSpec) -> bool {
    let n = atoms_lost(r, Element::Nitrogen);
    let o = atoms_lost(r, Element::Oxygen);
    let h = atoms_lost(r, Element::Hydrogen);
    if r.0 == 91 || r.0 == 92 {
        n >= 0 && o >= 0 && h >= 0
    } else {
        &&& n == 0
        &&& atoms_lost(r, Element::Chlorine) == 0
        &&& atoms_lost(r, Element::Bromine) == 0
        &&& h >= 0 && h % 4 == 0
        &&& o - h / 2 >= 0 && (o - h / 2) % 4 == 0
    }
}

/// Every reaction of the list is balanced.
pub open spec fn creates_no_atoms(t: Seq<ReactionSpec>) -> bool {
    forall|i: int| 0 <= i < t.len() ==> #[trigger] reaction_balanced(t[i])
}

proof fn lemma_concat_balanced(a: Seq<ReactionSpec>, b: Seq<ReactionSpec>)
    requires
        creates_no_atoms(a),
        creates_no_atoms(b),
    ensures
        creates_no_atoms(a + b),
{
    assert forall|i: int| 0 <= i < (a + b).len() implies #[trigger] reaction_balanced((a + b)[i]) by {
        if i < a.len() {
            assert((a + b)[i] == a[i]);
        } else {
            assert((a + b)[i] == b[i - a.len()]);
        }
    }
}

/// The atoms of the `k`-th term of a side (none past its end), in halves.
spec fn term_atoms(side: Seq<(int, int)>, k: int, e: Element) -> int {
    if k < side.len() {
        side[k].1 * element_atoms(side[k].0, e)
    } else {
        0
    }
}

/// The atoms of a side of at most three terms, term by term.
proof fn lemma_side_atoms_short(side: Seq<(int, int)>, e: Element)
    requires
        side.len() <= 3,
    ensures
        side_atoms(side, e) == term_atoms(side, 0, e) + term_atoms(side, 1, e) + term_atoms(side, 2, e),
{
    reveal_with_fuel(side_atoms, 4);
    if side.len() > 0 {
        let a = side.drop_last();
        assert(forall|k: int| 0 <= k < a.len() ==> a[k] == side[k]);
        if a.len() > 0 {
            let b = a.drop_last();
            assert(forall|k: int| 0 <= k < b.len() ==> b[k] == side[k]);
        }
    }
}

/// The atoms of both sides of a short reaction, term by term.
proof fn lemma_reaction_atoms(r: ReactionSpec)
    requires
        r.1.len() <= 3,
        r.2.len() <= 3,
    ensures
        forall|e: Element|
            #[trigger] side_atoms(r.1, e) == term_atoms(r.1, 0, e) + term_atoms(r.1, 1, e) + term_atoms(
                r.1,
                2,
                e,
            ),
        forall|e: Element|
            #[trigger] side_atoms(r.2, e) == term_atoms(r.2, 0, e) + term_atoms(r.2, 1, e) + term_atoms(
                r.2,
                2,
                e,
            ),
{
    assert forall|e: Element| #[trigger] side_atoms(r.1, e) == term_atoms(r.1, 0, e) + term_atoms(r.1, 1, e)
        + term_atoms(r.1, 2, e) by {
        lemma_side_atoms_short(r.1, e);
    }
    assert forall|e: Element| #[trigger] side_atoms(r.2, e) == term_atoms(r.2, 0, e) + term_atoms(r.2, 1, e)
        + term_atoms(r.2, 2, e) by {
        lemma_side_atoms_short(r.2, e);
    }
}

proof fn lemma_gas_phase_balanced()
    ensures
        creates_no_atoms(gas_phase()),
{
    let t = gas_phase();
    assert(t[0] == (221int, seq![(30int, 2int), (10int, 2int)], seq![(31int, 2int)]));
    lemma_reaction_atoms(t[0]);
    assert(t[1] == (222int, seq![(31int, 2int), (9int, 2int)], seq![(30int, 2int)]));
    lemma_reaction_atoms(t[1]);
    assert(t[2] == (223int, seq![(31int, 2int), (0int, 2int)], seq![(30int, 2int), (1int, 2int)]));
    lemma_reaction_atoms(t[2]);
    assert(t[3] == (224int, seq![(31int, 2int), (7int, 2int)], seq![(32int, 2int)]));
    lemma_reaction_atoms(t[3]);
    assert(t[4] == (225int, seq![(31int, 2int), (1int, 2int)], seq![(33int, 2int)]));
    lemma_reaction_atoms(t[4]);
    assert(t[5] == (226int, seq![(30int, 2int), (7int, 2int)], seq![(34int, 2int)]));
    lemma_reaction_atoms(t[5]);
    assert(t[6] == (227int, seq![(34int, 2int), (6int, 2int)], seq![(30int, 2int)]));
    lemma_reaction_atoms(t[6]);
    assert(t[7] == (228int, seq![(31int, 2int), (18int, 2int)], seq![(30int, 2int), (27int, 2int)]));
    lemma_reaction_atoms(t[7]);
    assert(t[8] == (262int, seq![(31int, 2int), (18int, 2int)], seq![(30int, 2int), (16int, 2int)]));
    lemma_reaction_atoms(t[8]);
    assert forall|i: int| 0 <= i < t.len() implies #[trigger] reaction_balanced(t[i]) by {
        assert(i == 0 || i == 1 || i == 2 || i == 3 || i == 4 || i == 5 || i == 6 || i == 7 || i == 8);
    }
}

proof fn lemma_bromine_channels_balanced()
    ensures
        creates_no_atoms(bromine_channels()),
{
    let t = bromine_channels();
    assert(t[0] == (229int, seq![(31int, 2int), (11int, 2int)], seq![(30int, 2int), (12int, 2int)]));
    lemma_reaction_atoms(t[0]);
    assert(t[1] == (263int, seq![(31int, 2int), (11int, 2int)], seq![(35int, 2int), (12int, 2int)]));
    lemma_reaction_atoms(t[1]);
    assert forall|i: int| 0 <= i < t.len() implies #[trigger] reaction_balanced(t[i]) by {
        assert(i == 0 || i == 1);
    }
}

proof fn lemma_photolysis_and_oxides_balanced()
    ensures
        creates_no_atoms(photolysis_and_oxides()),
{
    let t = photolysis_and_oxides();
    assert(t[0] == (230int, seq![(31int, 2int)], seq![(30int, 2int), (9int, 2int)]));
    lemma_reaction_atoms(t[0]);
    assert(t[1] == (231int, seq![(32int, 2int)], seq![(30int, 2int), (6int, 2int)]));
    lemma_reaction_atoms(t[1]);
    assert(t[2] == (232int, seq![(33int, 2int)], seq![(30int, 2int), (2int, 2int)]));
    lemma_reaction_atoms(t[2]);
    assert(t[3] == (234int, seq![(31int, 4int)], seq![(35int, 2int), (30int, 2int)]));
    lemma_reaction_atoms(t[3]);
    assert(t[4] == (236int, seq![(31int, 4int)], seq![(37int, 2int)]));
    lemma_reaction_atoms(t[4]);
    assert(t[5] == (237int, seq![(35int, 2int), (0int, 2int)], seq![(31int, 2int), (1int, 2int)]));
    lemma_reaction_atoms(t[5]);
    assert(t[6] == (239int, seq![(31int, 2int), (35int, 2int)], seq![(38int, 2int)]));
    lemma_reaction_atoms(t[6]);
    assert(t[7] == (240int, seq![(35int, 4int)], seq![(39int, 2int)]));
    lemma_reaction_atoms(t[7]);
    assert(t[8] == (241int, seq![(36int, 2int), (6int, 2int)], seq![(32int, 2int), (30int, 2int)]));
    lemma_reaction_atoms(t[8]);
    assert forall|i: int| 0 <= i < t.len() implies #[trigger] reaction_balanced(t[i]) by {
        assert(i == 0 || i == 1 || i == 2 || i == 3 || i == 4 || i == 5 || i == 6 || i == 7 || i == 8);
    }
}

proof fn lemma_sea_salt_bromine_balanced()
    ensures
        creates_no_atoms(sea_salt_bromine()),
{
    let t = sea_salt_bromine();
    assert(t[0] == (91int, seq![(32int, 2int)], seq![(30int, 2int), (16int, 1int), (12int, 1int)]));
    lemma_reaction_atoms(t[0]);
    assert(t[1] == (92int, seq![(33int, 2int)], seq![(30int, 2int), (16int, 1int), (12int, 1int)]));
    lemma_reaction_atoms(t[1]);
    assert forall|i: int| 0 <= i < t.len() implies #[trigger] reaction_balanced(t[i]) by {
        assert(i == 0 || i == 1);
    }
}

proof fn lemma_sea_salt_chlorine_balanced()
    ensures
        creates_no_atoms(sea_salt_chlorine()),
{
    let t = sea_salt_chlorine();
    assert(t[0] == (91int, seq![(32int, 2int)], seq![(30int, 2int), (16int, 1int)]));
    lemma_reaction_atoms(t[0]);
    assert(t[1] == (92int, seq![(33int, 2int)], seq![(30int, 2int), (16int, 1int)]));
    lemma_reaction_atoms(t[1]);
    assert forall|i: int| 0 <= i < t.len() implies #[trigger] reaction_balanced(t[i]) by {
        assert(i == 0 || i == 1);
    }
}

proof fn lemma_higher_oxides_balanced()
    ensures
        creates_no_atoms(higher_oxides()),
{
    let t = higher_oxides();
    assert(t[0] == (243int, seq![(35int, 2int)], seq![(30int, 2int)]));
    lemma_reaction_atoms(t[0]);
    assert(t[1] == (244int, seq![(36int, 2int)], seq![(30int, 4int)]));
    lemma_reaction_atoms(t[1]);
    assert(t[2] == (245int, seq![(37int, 2int)], seq![(30int, 2int), (35int, 2int)]));
    lemma_reaction_atoms(t[2]);
    assert(t[3] == (246int, seq![(38int, 2int)], seq![(31int, 2int), (35int, 2int)]));
    lemma_reaction_atoms(t[3]);
    assert(t[4] == (247int, seq![(39int, 2int)], seq![(35int, 4int)]));
    lemma_reaction_atoms(t[4]);
    assert(t[5] == (250int, seq![(31int, 2int), (10int, 2int)], seq![(35int, 2int)]));
    lemma_reaction_atoms(t[5]);
    assert(t[6] == (251int, seq![(31int, 2int), (6int, 2int)], seq![(30int, 2int), (7int, 2int)]));
    lemma_reaction_atoms(t[6]);
    assert(t[7] == (252int, seq![(36int, 2int), (9int, 2int)], seq![(31int, 2int), (30int, 2int)]));
    lemma_reaction_atoms(t[7]);
    assert(t[8] == (253int, seq![(30int, 2int), (2int, 2int)], seq![(31int, 2int), (1int, 2int)]));
    lemma_reaction_atoms(t[8]);
    assert forall|i: int| 0 <= i < t.len() implies #[trigger] reaction_balanced(t[i]) by {
        assert(i == 0 || i == 1 || i == 2 || i == 3 || i == 4 || i == 5 || i == 6 || i == 7 || i == 8);
    }
}

proof fn lemma_nitrate_and_thermal_balanced()
    ensures
        creates_no_atoms(nitrate_and_thermal()),
{
    let t = nitrate_and_thermal();
    assert(t[0] == (254int, seq![(31int, 2int), (2int, 2int)], seq![(35int, 2int), (1int, 2int)]));
    lemma_reaction_atoms(t[0]);
    assert(t[1] == (255int, seq![(36int, 2int), (2int, 2int)], seq![(30int, 2int), (33int, 2int)]));
    lemma_reaction_atoms(t[1]);
    assert(t[2] == (256int, seq![(30int, 2int), (33int, 2int)], seq![(36int, 2int), (2int, 2int)]));
    lemma_reaction_atoms(t[2]);
    assert(t[3] == (257int, seq![(32int, 2int), (6int, 2int)], seq![(31int, 2int)]));
    lemma_reaction_atoms(t[3]);
    assert(t[4] == (258int, seq![(34int, 2int), (2int, 2int)], seq![(30int, 2int), (4int, 2int)]));
    lemma_reaction_atoms(t[4]);
    assert(t[5] == (259int, seq![(37int, 2int)], seq![(35int, 2int), (30int, 2int)]));
    lemma_reaction_atoms(t[5]);
    assert(t[6] == (260int, seq![(37int, 2int)], seq![(31int, 4int)]));
    lemma_reaction_atoms(t[6]);
    assert(t[7] == (261int, seq![(39int, 2int)], seq![(35int, 4int)]));
    lemma_reaction_atoms(t[7]);
    assert forall|i: int| 0 <= i < t.len() implies #[trigger] reaction_balanced(t[i]) by {
        assert(i == 0 || i == 1 || i == 2 || i == 3 || i == 4 || i == 5 || i == 6 || i == 7);
    }
}

/// Every reaction of the iodine table, with bromine chemistry on or off,
/// accounts for its atoms: apart from the sea-salt uptake, which makes
/// none, nitrogen, chlorine and bromine are kept and oxygen and hydrogen
/// leave only as whole O2 and H2O molecules.
pub proof fn law_iodine_table_creates_no_atoms(bromine: bool)
    ensures
        creates_no_atoms(iodine_table(bromine)),
{
    lemma_gas_phase_balanced();
    lemma_bromine_channels_balanced();
    lemma_photolysis_and_oxides_balanced();
    lemma_sea_salt_bromine_balanced();
    lemma_sea_salt_chlorine_balanced();
    lemma_higher_oxides_balanced();
    lemma_nitrate_and_thermal_balanced();
    let e = Seq::<ReactionSpec>::empty();
    assert(creates_no_atoms(e));
    let br = if bromine { bromine_channels() } else { e };
    let ss = if bromine { sea_salt_bromine() } else { sea_salt_chlorine() };
    lemma_concat_balanced(gas_phase(), br);
    lemma_concat_balanced(gas_phase() + br, photolysis_and_oxides());
    lemma_concat_balanced(gas_phase() + br + photolysis_and_oxides(), ss);
    lemma_concat_balanced(gas_phase() + br + photolysis_and_oxides() + ss, higher_oxides());
    lemma_concat_balanced(
        gas_phase() + br + photolysis_and_oxides() + ss + higher_oxides(),
        nitrate_and_thermal(),
    );
}

/// Iodine is conserved: every reaction of the iodine table, with bromine
/// chemistry on or off, has as many iodine atoms among its reactants as
/// among its products.
pub proof fn law_iodine_table_conserves_iodine(bromine: bool)
    ensures
        conserves_iodine(iodine_table(bromine)),
{
    reveal_with_fuel(side_iodine, 4);
    lemma_gas_phase_conserves();
    lemma_bromine_channels_conserves();
    lemma_photolysis_and_oxides_conserves();
    lemma_sea_salt_bromine_conserves();
    lemma_sea_salt_chlorine_conserves();
    lemma_higher_oxides_conserves();
    lemma_nitrate_and_thermal_conserves();
    let e = Seq::<ReactionSpec>::empty();
    assert(conserves_iodine(e));
    let br = if bromine { bromine_channels() } else { e };
    let ss = if bromine { sea_salt_bromine() } else { sea_salt_chlorine() };
    lemma_concat_conserves(gas_phase(), br);
    lemma_concat_conserves(gas_phase() + br, photolysis_and_oxides());
    lemma_concat_conserves(gas_phase() + br + photolysis_and_oxides(), ss);
    lemma_concat_conserves(gas_phase() + br + photolysis_and_oxides() + ss, higher_oxides());
    lemma_concat_conserves(
        gas_phase() + br + photolysis_and_oxides() + ss + higher_oxides(),
        nitrate_and_thermal(),
    );
}

/// The rates of `t` are pairwise distinct.
pub open spec fn rates_distinct(t: Seq<ReactionSpec>) -> bool {
    forall|i: int, j: int| 0 <= i < j < t.len() ==> #[trigger] t[i].0 != #[trigger] t[j].0
}

/// The group of the table that a rate belongs to: gas phase, IO + BrO,
/// photolysis and oxides, sea salt, higher oxides, nitrate and thermal.
spec fn rate_group(v: int) -> int {
    if (221 <= v <= 228) || v == 262 {
        0
    } else if v == 229 || v == 263 {
        1
    } else if 230 <= v <= 241 {
        2
    } else if 91 <= v <= 92 {
        3
    } else if 243 <= v <= 253 {
        4
    } else if 254 <= v <= 261 {
        5
    } else {
        6
    }
}

spec fn groups_between(t: Seq<ReactionSpec>, lo: int, hi: int) -> bool {
    forall|i: int| 0 <= i < t.len() ==> lo <= #[trigger] rate_group(t[i].0) <= hi
}

proof fn lemma_join_groups(a: Seq<ReactionSpec>, b: Seq<ReactionSpec>, lo: int, mid: int, hi: int)
    requires
        lo <= mid <= hi,
        rates_distinct(a),
        rates_distinct(b),
        groups_between(a, lo, mid - 1),
        groups_between(b, mid, hi),
    ensures
        rates_distinct(a + b),
        groups_between(a + b, lo, hi),
{
    let c = a + b;
    assert forall|i: int, j: int| 0 <= i < j < c.len() implies #[trigger] c[i].0 != #[trigger] c[j].0 by {
        if j < a.len() {
            assert(a[i].0 != a[j].0);
        } else if i >= a.len() {
            assert(b[i - a.len()].0 != b[j - a.len()].0);
        } else {
            assert(rate_group(a[i].0) < mid);
            assert(rate_group(b[j - a.len()].0) >= mid);
        }
    }
    assert forall|i: int| 0 <= i < c.len() implies lo <= #[trigger] rate_group(c[i].0) <= hi by {
        if i < a.len() {
            assert(c[i] == a[i]);
            assert(lo <= rate_group(a[i].0) <= mid - 1);
        } else {
            assert(c[i] == b[i - a.len()]);
            assert(mid <= rate_group(b[i - a.len()].0) <= hi);
        }
    }
}

proof fn lemma_pieces_grouped()
    ensures
        rates_distinct(gas_phase()) && groups_between(gas_phase(), 0, 0),
        rates_distinct(bromine_channels()) && groups_between(bromine_channels(), 1, 1),
        rates_distinct(photolysis_and_oxides()) && groups_between(photolysis_and_oxides(), 2, 2),
        rates_distinct(sea_salt_bromine()) && groups_between(sea_salt_bromine(), 3, 3),
        rates_distinct(sea_salt_chlorine()) && groups_between(sea_salt_chlorine(), 3, 3),
        rates_distinct(higher_oxides()) && groups_between(higher_oxides(), 4, 4),
        rates_distinct(nitrate_and_thermal()) && groups_between(nitrate_and_thermal(), 5, 5),
{
    let g = gas_phase();
    assert(forall|i: int| 0 <= i < g.len() ==> #[trigger] rate_group(g[i].0) == 0);
    assert(forall|i: int, j: int| 0 <= i < j < g.len() ==> #[trigger] g[i].0 < #[trigger] g[j].0);
    let b = bromine_channels();
    assert(forall|i: int| 0 <= i < b.len() ==> #[trigger] rate_group(b[i].0) == 1);
    assert(forall|i: int, j: int| 0 <= i < j < b.len() ==> #[trigger] b[i].0 < #[trigger] b[j].0);
    let p = photolysis_and_oxides();
    assert(forall|i: int| 0 <= i < p.len() ==> #[trigger] rate_group(p[i].0) == 2);
    assert(forall|i: int, j: int| 0 <= i < j < p.len() ==> #[trigger] p[i].0 < #[trigger] p[j].0);
    let s = sea_salt_bromine();
    assert(forall|i: int| 0 <= i < s.len() ==> #[trigger] rate_group(s[i].0) == 3);
    assert(forall|i: int, j: int| 0 <= i < j < s.len() ==> #[trigger] s[i].0 < #[trigger] s[j].0);
    let c = sea_salt_chlorine();
    assert(forall|i: int| 0 <= i < c.len() ==> #[trigger] rate_group(c[i].0) == 3);
    assert(forall|i: int, j: int| 0 <= i < j < c.len() ==> #[trigger] c[i].0 < #[trigger] c[j].0);
    let h = higher_oxides();
    assert(forall|i: int| 0 <= i < h.len() ==> #[trigger] rate_group(h[i].0) == 4);
    assert(forall|i: int, j: int| 0 <= i < j < h.len() ==> #[trigger] h[i].0 < #[trigger] h[j].0);
    let n = nitrate_and_thermal();
    assert(forall|i: int| 0 <= i < n.len() ==> #[trigger] rate_group(n[i].0) == 5);
    assert(forall|i: int, j: int| 0 <= i < j < n.len() ==> #[trigger] n[i].0 < #[trigger] n[j].0);
}

/// Each reaction of the iodine table is visited once: its rates are
/// distinct, with bromine chemistry on or off; and the IO + BrO channels
/// (rates 229 and 263) are visited exactly when bromine chemistry is on.
pub proof fn law_iodine_table_visits_each_reaction_once(bromine: bool)
    ensures
        rates_distinct(iodine_table(bromine)),
        (exists|i: int| 0 <= i < iodine_table(bromine).len() && #[trigger] iodine_table(bromine)[i].0 == 229)
            <==> bromine,
        (exists|i: int| 0 <= i < iodine_table(bromine).len() && #[trigger] iodine_table(bromine)[i].0 == 263)
            <==> bromine,
{
    lemma_pieces_grouped();
    let e = Seq::<ReactionSpec>::empty();
    let br = if bromine { bromine_channels() } else { e };
    let ss = if bromine { sea_salt_bromine() } else { sea_salt_chlorine() };
    assert(rates_distinct(e) && groups_between(e, 1, 1));
    lemma_join_groups(gas_phase(), br, 0, 1, 1);
    lemma_join_groups(gas_phase() + br, photolysis_and_oxides(), 0, 2, 2);
    lemma_join_groups(gas_phase() + br + photolysis_and_oxides(), ss, 0, 3, 3);
    lemma_join_groups(gas_phase() + br + photolysis_and_oxides() + ss, higher_oxides(), 0, 4, 4);
    lemma_join_groups(
        gas_phase() + br + photolysis_and_oxides() + ss + higher_oxides(),
        nitrate_and_thermal(),
        0,
        5,
        5,
    );
    let t = iodine_table(bromine);
    assert(t == gas_phase() + br + photolysis_and_oxides() + ss + higher_oxides() + nitrate_and_thermal());
    if bromine {
        assert(t[9].0 == 229);
        assert(t[10].0 == 263);
    } else {
        assert forall|i: int| 0 <= i < t.len() implies #[trigger] t[i].0 != 229 && t[i].0 != 263 by {
            if i < 9 {
                assert(rate_group(gas_phase()[i].0) == 0);
            } else {
                assert(rate_group(t[i].0) != 1);
            }
        }
    }
}

/// A term of a reaction on the model's species: the species' 1-based slot
/// and its coefficient in halves.
#[derive(Debug, Clone, Copy, PartialEq, Eq)]
pub struct Term {
    /// 1-based slot of the species.
    pub species: usize,
    /// Stoichiometric coefficient times two.
    pub halves: u32,
}

/// One iodine reaction on the model's species.
#[derive(Debug)]
pub struct SpeciesReaction {
    /// Index of the rate coefficient.
    pub rate: usize,
    /// Reactants.
    pub reactants: Vec<Term>,
    /// Products.
    pub products: Vec<Term>,
}

/// A side of a table reaction placed on the model's species through the
/// species map `n`.
pub open spec fn placed_side(v: Seq<Term>, side: Seq<(int, int)>, n: Seq<usize>) -> bool {
    &&& v.len() == side.len()
    &&& forall|k: int|
        0 <= k < v.len() ==> (#[trigger] v[k]).species == n[side[k].0] && v[k].halves == side[k].1
}

fn place_side(side: &Vec<RoleTerm>, n: &[usize; NDEN]) -> (r: Vec<Term>)
    requires
        forall|k: int| 0 <= k < side.len() ==> (#[trigger] side[k]).role < NDEN,
    ensures
        placed_side(r@, self::side(side@), n@),
{
    let mut r: Vec<Term> = Vec::new();
    let mut k: usize = 0;
    while k < side.len()
        invariant
            k <= side.len(),
            r.len() == k,
            forall|kk: int| 0 <= kk < side.len() ==> (#[trigger] side[kk]).role < NDEN,
            forall|kk: int|
                0 <= kk < k ==> (#[trigger] r[kk]).species == n@[side[kk].role as int] && r[kk].halves
                    == side[kk].halves,
        decreases side.len() - k,
    {
        let t = side[k];
        r.push(Term { species: n[t.role], halves: t.halves });
        k = k + 1;
    }
    r
}

/// Every role of the iodine table names one of the [`NDEN`] species.
pub proof fn lemma_table_roles(bromine: bool)
    ensures
        forall|i: int, k: int|
            0 <= i < iodine_table(bromine).len() && 0 <= k < iodine_table(bromine)[i].1.len()
                ==> 0 <= #[trigger] iodine_table(bromine)[i].1[k].0 < NDEN,
        forall|i: int, k: int|
            0 <= i < iodine_table(bromine).len() && 0 <= k < iodine_table(bromine)[i].2.len()
                ==> 0 <= #[trigger] iodine_table(bromine)[i].2[k].0 < NDEN,
{
    let t = iodine_table(bromine);
    assert forall|i: int, k: int| 0 <= i < t.len() && 0 <= k < t[i].1.len() implies 0 <= #[trigger] t[i].1[k].0 < NDEN by {
    }
    assert forall|i: int, k: int| 0 <= i < t.len() && 0 <= k < t[i].2.len() implies 0 <= #[trigger] t[i].2[k].0 < NDEN by {
    }
}

/// The iodine reactions placed on the model's species through the species
/// map `n` (the role `r` becomes species `n[r]`).
pub fn iodine_reactions(n: &[usize; NDEN], bromine: bool) -> (r: Vec<SpeciesReaction>)
    ensures
        r.len() == iodine_table(bromine).len(),
        forall|i: int|
            0 <= i < r.len() ==> {
                &&& (#[trigger] r[i]).rate == iodine_table(bromine)[i].0
                &&& placed_side(r[i].reactants@, iodine_table(bromine)[i].1, n@)
                &&& placed_side(r[i].products@, iodine_table(bromine)[i].2, n@)
            },
{
    let table = iodine_reaction_table(bromine);
    proof {
        lemma_table_roles(bromine);
    }
    let mut r: Vec<SpeciesReaction> = Vec::new();
    let mut i: usize = 0;
    while i < table.len()
        invariant
            i <= table.len(),
            table_view(table@) == iodine_table(bromine),
            r.len() == i,
            forall|ii: int, k: int|
                0 <= ii < iodine_table(bromine).len() && 0 <= k < iodine_table(bromine)[ii].1.len()
                    ==> 0 <= #[trigger] iodine_table(bromine)[ii].1[k].0 < NDEN,
            forall|ii: int, k: int|
                0 <= ii < iodine_table(bromine).len() && 0 <= k < iodine_table(bromine)[ii].2.len()
                    ==> 0 <= #[trigger] iodine_table(bromine)[ii].2[k].0 < NDEN,
            forall|ii: int|
                0 <= ii < i ==> {
                    &&& (#[trigger] r[ii]).rate == iodine_table(bromine)[ii].0
                    &&& placed_side(r[ii].reactants@, iodine_table(bromine)[ii].1, n@)
                    &&& placed_side(r[ii].products@, iodine_table(bromine)[ii].2, n@)
                },
        decreases table.len() - i,
    {
        let reac = &table[i];
        proof {
            assert(table_view(table@)[i as int] == reaction_view(table@[i as int]));
            let tr = iodine_table(bromine)[i as int];
            assert(tr.1 == side(reac.reactants@));
            assert(tr.2 == side(reac.products@));
            assert forall|k: int| 0 <= k < reac.reactants.len() implies (#[trigger] reac.reactants[k]).role < NDEN by {
                assert(side(reac.reactants@)[k].0 == reac.reactants[k].role);
                assert(0 <= iodine_table(bromine)[i as int].1[k].0 < NDEN);
            }
            assert forall|k: int| 0 <= k < reac.products.len() implies (#[trigger] reac.products[k]).role < NDEN by {
                assert(side(reac.products@)[k].0 == reac.products[k].role);
                assert(0 <= iodine_table(bromine)[i as int].2[k].0 < NDEN);
            }
        }
        let reactants = place_side(&reac.reactants, n);
        let products = place_side(&reac.products, n);
        r.push(SpeciesReaction { rate: reac.rate, reactants, products });
        i = i + 1;
    }
    r
}

/// A member of the iodine family that the solver rescales to the family's
/// total: the 0-based implicit slot of an iodine species and the iodine
/// atoms by which its density is weighted.
#[derive(Debug, Clone, Copy, PartialEq, Eq)]
pub struct FamilyMember {
    /// 0-based implicit slot.
    pub slot: usize,
    /// Iodine atoms of the species.
    pub atoms: u32,
}

/// The members among the iodine species of roles 30 up to `30 + k`: those
/// whose slot (1-based, from the species map `n`) is an implicit one, in
/// role order.
pub open spec fn family_from(n: Seq<usize>, ntot: int, k: int) -> Seq<(int, int)>
    decreases k,
{
    if k <= 0 {
        Seq::empty()
    } else {
        let role = 30 + k - 1;
        let slot = n[role] as int;
        family_from(n, ntot, k - 1) + if 0 < slot <= ntot {
            seq![(slot - 1, iodine_atoms(role))]
        } else {
            Seq::empty()
        }
    }
}

/// The iodine family: none when iodine chemistry is off, else the members
/// among the ten iodine species (roles 30-39).
pub open spec fn iodine_family_spec(n: Seq<usize>, ntot: int, liod: bool) -> Seq<(int, int)> {
    if liod {
        family_from(n, ntot, 10)
    } else {
        Seq::empty()
    }
}

/// The members of the iodine family, each with the weight that the family
/// total gives it: its iodine atoms, the same counts by which the reaction
/// table conserves iodine.
pub fn iodine_family(n: &[usize; NDEN], ntot: usize, liod: bool) -> (r: Vec<FamilyMember>)
    ensures
        r.len() == iodine_family_spec(n@, ntot as int, liod).len(),
        forall|i: int|
            0 <= i < r.len() ==> (#[trigger] r[i]).slot == iodine_family_spec(n@, ntot as int, liod)[i].0
                && r[i].atoms == iodine_family_spec(n@, ntot as int, liod)[i].1,
{
    let mut r: Vec<FamilyMember> = Vec::new();
    if !liod {
        return r;
    }
    let mut k: usize = 0;
    while k < 10
        invariant
            k <= 10,
            n@.len() == NDEN,
            r.len() == family_from(n@, ntot as int, k as int).len(),
            forall|i: int|
                0 <= i < r.len() ==> (#[trigger] r[i]).slot == family_from(n@, ntot as int, k as int)[i].0
                    && r[i].atoms == family_from(n@, ntot as int, k as int)[i].1,
        decreases 10 - k,
    {
        let role = 30 + k;
        let slot = n[role];
        let ghost before = family_from(n@, ntot as int, k as int);
        if slot > 0 && slot <= ntot {
            let atoms: u32 = if role <= 35 {
                1
            } else {
                2
            };
            r.push(FamilyMember { slot: slot - 1, atoms });
            proof {
                let after = family_from(n@, ntot as int, k + 1);
                assert(after == before + seq![(slot - 1, iodine_atoms(role as int))]);
                assert forall|i: int| 0 <= i < r.len() implies (#[trigger] r[i]).slot == after[i].0
                    && r[i].atoms == after[i].1 by {
                    if i < before.len() {
                        assert(after[i] == before[i]);
                    }
                }
            }
        } else {
            proof {
                let after = family_from(n@, ntot as int, k + 1);
                assert(after =~= before);
            }
        }
        k = k + 1;
    }
    r
}

} // verus!
