//! What one reaction of the shared iodine table contributes to the
//! production and loss terms and to the Jacobian of the implicit solve, per
//! unit rate. Coefficients are counted in halves, so production and loss
//! come in halves and Jacobian entries in quarters; the model multiplies
//! them by the reaction's rate. Terms whose species lies outside the
//! implicit slots `1..=ntot` contribute nothing.
use vstd::prelude::*;

use crate::iodine::{
    iodine_atoms, iodine_table, law_iodine_table_conserves_iodine, lemma_table_roles,
    placed_side, side_iodine, Term,
};
use crate::species::NDEN;

verus! {

/// Largest coefficient, in halves, that a term may carry here.
pub const MAX_HALVES: u32 = 256;

/// Largest number of terms on one side of a reaction here.
pub const MAX_TERMS: usize = 256;

/// The term's species holds an implicit slot.
pub open spec fn on_slot(t: Term, ntot: int) -> bool {
    1 <= t.species && t.species <= ntot
}

/// The term's species holds the implicit slot at position `row` (0-based).
pub open spec fn at_row(t: Term, ntot: int, row: int) -> bool {
    on_slot(t, ntot) && t.species - 1 == row
}

/// Halves of the terms of `v` at position `row`.
pub open spec fn halves_at(v: Seq<Term>, ntot: int, row: int) -> int
    decreases v.len(),
{
    if v.len() == 0 {
        0
    } else {
        halves_at(v.drop_last(), ntot, row) + if at_row(v.last(), ntot, row) {
            v.last().halves as int
        } else {
            0
        }
    }
}

/// The terms of `v` at position `row`, each coefficient times `h`, summed.
pub open spec fn scaled_at(v: Seq<Term>, ntot: int, row: int, h: int) -> int
    decreases v.len(),
{
    if v.len() == 0 {
        0
    } else {
        scaled_at(v.drop_last(), ntot, row, h) + if at_row(v.last(), ntot, row) {
            v.last().halves * h
        } else {
            0
        }
    }
}

/// The Jacobian entry at (`col`, `row`), in quarters per unit rate, that
/// the differentiated reactants `ds` give: each reactant at position `col`
/// adds, for every term at position `row`, the product of the two
/// coefficients, with the sign of the term's side.
pub open spec fn jacobian_at(
    ds: Seq<Term>,
    reactants: Seq<Term>,
    products: Seq<Term>,
    ntot: int,
    col: int,
    row: int,
) -> int
    decreases ds.len(),
{
    if ds.len() == 0 {
        0
    } else {
        let d = ds.last();
        jacobian_at(ds.drop_last(), reactants, products, ntot, col, row) + if at_row(d, ntot, col) {
            scaled_at(products, ntot, row, d.halves as int) - scaled_at(
                reactants,
                ntot,
                row,
                d.halves as int,
            )
        } else {
            0
        }
    }
}

/// A side within the sizes handled here.
pub open spec fn small_side(v: Seq<Term>) -> bool {
    &&& v.len() <= MAX_TERMS
    &&& forall|k: int| 0 <= k < v.len() ==> #[trigger] v[k].halves <= MAX_HALVES
}

proof fn lemma_halves_bound(v: Seq<Term>, ntot: int, row: int)
    requires
        small_side(v),
    ensures
        0 <= halves_at(v, ntot, row) <= v.len() * 256,
    decreases v.len(),
{
    if v.len() > 0 {
        assert(small_side(v.drop_last())) by {
            assert forall|k: int| 0 <= k < v.drop_last().len() implies #[trigger] v.drop_last()[k].halves <= MAX_HALVES by {
                assert(v.drop_last()[k] == v[k]);
            }
        }
        assert(v.last().halves <= MAX_HALVES) by {
            assert(v.last() == v[v.len() - 1]);
        }
        lemma_halves_bound(v.drop_last(), ntot, row);
    }
}

proof fn lemma_scaled_bound(v: Seq<Term>, ntot: int, row: int, h: int)
    requires
        small_side(v),
        0 <= h <= 256,
    ensures
        0 <= scaled_at(v, ntot, row, h) <= v.len() * 65536,
    decreases v.len(),
{
    if v.len() > 0 {
        assert(small_side(v.drop_last())) by {
            assert forall|k: int| 0 <= k < v.drop_last().len() implies #[trigger] v.drop_last()[k].halves <= MAX_HALVES by {
                assert(v.drop_last()[k] == v[k]);
            }
        }
        let x = v.last().halves as int;
        assert(x <= 256) by {
            assert(v.last() == v[v.len() - 1]);
        }
        assert(0 <= x * h <= 65536) by (nonlinear_arith)
            requires
                0 <= x <= 256,
                0 <= h <= 256,
        ;
        lemma_scaled_bound(v.drop_last(), ntot, row, h);
    }
}

/// A coefficient times the halves of a side is the side scaled by it.
proof fn lemma_scaled_is_product(v: Seq<Term>, ntot: int, row: int, h: int)
    ensures
        scaled_at(v, ntot, row, h) == h * halves_at(v, ntot, row),
    decreases v.len(),
{
    if v.len() > 0 {
        lemma_scaled_is_product(v.drop_last(), ntot, row, h);
        let a = halves_at(v.drop_last(), ntot, row);
        let x = v.last().halves as int;
        assert(h * a + x * h == h * (a + x)) by (nonlinear_arith);
    }
}

proof fn lemma_jacobian_bound(
    ds: Seq<Term>,
    reactants: Seq<Term>,
    products: Seq<Term>,
    ntot: int,
    col: int,
    row: int,
)
    requires
        small_side(ds),
        small_side(reactants),
        small_side(products),
    ensures
        -ds.len() * 0x100_0000 <= jacobian_at(ds, reactants, products, ntot, col, row) <= ds.len()
            * 0x100_0000,
    decreases ds.len(),
{
    if ds.len() > 0 {
        assert(small_side(ds.drop_last())) by {
            assert forall|k: int| 0 <= k < ds.drop_last().len() implies #[trigger] ds.drop_last()[k].halves <= MAX_HALVES by {
                assert(ds.drop_last()[k] == ds[k]);
            }
        }
        let h = ds.last().halves as int;
        assert(h <= 256) by {
            assert(ds.last() == ds[ds.len() - 1]);
        }
        lemma_scaled_bound(products, ntot, row, h);
        lemma_scaled_bound(reactants, ntot, row, h);
        lemma_jacobian_bound(ds.drop_last(), reactants, products, ntot, col, row);
    }
}

/// What a reaction's terms add to the loss (reactants) and production
/// (products) of each implicit slot, in halves per unit rate: the sum of the
/// coefficients of the side's terms on that slot.
pub fn production_loss(reactants: &Vec<Term>, products: &Vec<Term>, ntot: usize) -> (r: (
    Vec<u64>,
    Vec<u64>,
))
    requires
        small_side(reactants@),
        small_side(products@),
    ensures
        r.0.len() == NDEN,
        r.1.len() == NDEN,
        forall|row: int| 0 <= row < NDEN ==> #[trigger] r.0[row] == halves_at(reactants@, ntot as int, row),
        forall|row: int| 0 <= row < NDEN ==> #[trigger] r.1[row] == halves_at(products@, ntot as int, row),
{
    (side_budget(reactants, ntot), side_budget(products, ntot))
}

fn side_budget(v: &Vec<Term>, ntot: usize) -> (r: Vec<u64>)
    requires
        small_side(v@),
    ensures
        r.len() == NDEN,
        forall|row: int| 0 <= row < NDEN ==> #[trigger] r[row] == halves_at(v@, ntot as int, row),
{
    let mut r: Vec<u64> = Vec::new();
    while r.len() < NDEN
        invariant
            r.len() <= NDEN,
            forall|k: int| 0 <= k < r.len() ==> #[trigger] r[k] == 0,
        decreases NDEN - r.len(),
    {
        r.push(0);
    }
    let mut j: usize = 0;
    while j < v.len()
        invariant
            j <= v.len(),
            small_side(v@),
            r.len() == NDEN,
            forall|row: int| 0 <= row < NDEN ==> #[trigger] r[row] == halves_at(v@.take(j as int), ntot as int, row),
        decreases v.len() - j,
    {
        let t = v[j];
        proof {
            assert(v@.take(j as int + 1).drop_last() == v@.take(j as int));
            assert(v@.take(j as int + 1).last() == t);
            lemma_halves_bound(v@.take(j as int), ntot as int, t.species as int - 1);
            assert(small_side(v@.take(j as int))) by {
                assert forall|k: int| 0 <= k < v@.take(j as int).len() implies #[trigger] v@.take(j as int)[k].halves <= MAX_HALVES by {
                    assert(v@.take(j as int)[k] == v@[k]);
                }
            }
            assert(t.halves <= MAX_HALVES) by {
                assert(t == v@[j as int]);
            }
        }
        if t.species >= 1 && t.species <= ntot && t.species <= NDEN {
            let row = t.species - 1;
            proof {
                lemma_halves_bound(v@.take(j as int), ntot as int, row as int);
            }
            let cur = r[row];
            r.set(row, cur + t.halves as u64);
        }
        proof {
            assert forall|row: int| 0 <= row < NDEN implies #[trigger] r[row] == halves_at(
                v@.take(j as int + 1),
                ntot as int,
                row,
            ) by {}
        }
        j = j + 1;
    }
    proof {
        assert(v@.take(v.len() as int) == v@);
    }
    r
}

/// The Jacobian contributions of one reaction, in quarters per unit rate,
/// stored column by column (`a[col * NDEN + row]`) as the model stores its
/// Jacobian: each reactant on an implicit slot gives its column, for every
/// term on an implicit slot, the product of the two coefficients,
/// subtracted at the reactants' rows and added at the products' rows.
pub fn react_stoich(reactants: &Vec<Term>, products: &Vec<Term>, ntot: usize) -> (a: Vec<i64>)
    requires
        small_side(reactants@),
        small_side(products@),
        ntot <= NDEN,
    ensures
        a.len() == NDEN * NDEN,
        forall|col: int, row: int|
            0 <= col < NDEN && 0 <= row < NDEN ==> #[trigger] a[col * NDEN + row] == jacobian_at(
                reactants@,
                reactants@,
                products@,
                ntot as int,
                col,
                row,
            ),
{
    let ghost rs = reactants@;
    let ghost ps = products@;
    let ghost nt = ntot as int;
    let mut a: Vec<i64> = Vec::new();
    while a.len() < NDEN * NDEN
        invariant
            a.len() <= NDEN * NDEN,
            forall|k: int| 0 <= k < a.len() ==> #[trigger] a[k] == 0,
        decreases NDEN * NDEN - a.len(),
    {
        a.push(0);
    }
    proof {
        assert forall|col: int, row: int| 0 <= col < NDEN && 0 <= row < NDEN implies #[trigger] a[col * NDEN + row]
            == jacobian_at(rs.take(0), rs, ps, nt, col, row) by {
            assert(rs.take(0).len() == 0);
        }
    }
    let mut i: usize = 0;
    while i < reactants.len()
        invariant
            i <= reactants.len(),
            rs == reactants@,
            ps == products@,
            nt == ntot,
            ntot <= NDEN,
            small_side(rs),
            small_side(ps),
            a.len() == NDEN * NDEN,
            forall|col: int, row: int|
                0 <= col < NDEN && 0 <= row < NDEN ==> #[trigger] a[col * NDEN + row] == jacobian_at(
                    rs.take(i as int),
                    rs,
                    ps,
                    nt,
                    col,
                    row,
                ),
        decreases reactants.len() - i,
    {
        let d = reactants[i];
        let ghost before = a@;
        proof {
            assert(rs.take(i as int + 1).drop_last() == rs.take(i as int));
            assert(rs.take(i as int + 1).last() == d);
            assert(small_side(rs.take(i as int))) by {
                assert forall|k: int| 0 <= k < rs.take(i as int).len() implies #[trigger] rs.take(i as int)[k].halves <= MAX_HALVES by {
                    assert(rs.take(i as int)[k] == rs[k]);
                }
            }
            assert(d.halves <= MAX_HALVES) by {
                assert(d == rs[i as int]);
            }
        }
        if d.species >= 1 && d.species <= ntot {
            let col = d.species - 1;
            let h = d.halves as i64;
            let mut j: usize = 0;
            while j < reactants.len()
                invariant
                    j <= reactants.len(),
                    rs == reactants@,
                    nt == ntot,
                    ntot <= NDEN,
                    col < NDEN,
                    0 <= h <= 256,
                    small_side(rs),
                    small_side(rs.take(i as int)),
                    small_side(ps),
                    a.len() == NDEN * NDEN,
                    before.len() == NDEN * NDEN,
                    forall|c: int, r: int|
                        0 <= c < NDEN && 0 <= r < NDEN ==> #[trigger] before[c * NDEN + r] == jacobian_at(
                            rs.take(i as int),
                            rs,
                            ps,
                            nt,
                            c,
                            r,
                        ),
                    forall|c: int, r: int|
                        0 <= c < NDEN && 0 <= r < NDEN ==> #[trigger] a[c * NDEN + r] == before[c * NDEN
                            + r] - if c == col {
                            scaled_at(rs.take(j as int), nt, r, h as int)
                        } else {
                            0
                        },
                decreases reactants.len() - j,
            {
                let t = reactants[j];
                proof {
                    assert(rs.take(j as int + 1).drop_last() == rs.take(j as int));
                    assert(rs.take(j as int + 1).last() == t);
                    assert(t.halves <= MAX_HALVES) by {
                        assert(t == rs[j as int]);
                    }
                    assert(small_side(rs.take(j as int))) by {
                        assert forall|k: int| 0 <= k < rs.take(j as int).len() implies #[trigger] rs.take(j as int)[k].halves <= MAX_HALVES by {
                            assert(rs.take(j as int)[k] == rs[k]);
                        }
                    }
                }
                if t.species >= 1 && t.species <= ntot {
                    let row = t.species - 1;
                    let k = col * NDEN + row;
                    proof {
                        lemma_jacobian_bound(rs.take(i as int), rs, ps, nt, col as int, row as int);
                        lemma_scaled_bound(rs.take(j as int), nt, row as int, h as int);
                        assert(0 <= (t.halves as int) * (h as int) <= 65536) by (nonlinear_arith)
                            requires
                                0 <= t.halves <= 256,
                                0 <= h <= 256,
                        ;
                    }
                    let cur = a[k];
                    a.set(k, cur - (t.halves as i64) * h);
                }
                j = j + 1;
            }
            proof {
                assert(rs.take(reactants.len() as int) =~= rs);
                assert(ps.take(0) =~= Seq::<Term>::empty());
                assert forall|c: int, r: int| 0 <= c < NDEN && 0 <= r < NDEN implies #[trigger] a[c * NDEN + r]
                    == before[c * NDEN + r] + if c == col {
                    scaled_at(ps.take(0), nt, r, h as int) - scaled_at(rs, nt, r, h as int)
                } else {
                    0
                } by {
                    assert(scaled_at(ps.take(0), nt, r, h as int) == 0);
                }
            }
            let mut jp: usize = 0;
            while jp < products.len()
                invariant
                    jp <= products.len(),
                    rs == reactants@,
                    ps == products@,
                    nt == ntot,
                    ntot <= NDEN,
                    col < NDEN,
                    0 <= h <= 256,
                    small_side(rs),
                    small_side(rs.take(i as int)),
                    small_side(ps),
                    a.len() == NDEN * NDEN,
                    before.len() == NDEN * NDEN,
                    forall|c: int, r: int|
                        0 <= c < NDEN && 0 <= r < NDEN ==> #[trigger] before[c * NDEN + r] == jacobian_at(
                            rs.take(i as int),
                            rs,
                            ps,
                            nt,
                            c,
                            r,
                        ),
                    forall|c: int, r: int|
                        0 <= c < NDEN && 0 <= r < NDEN ==> #[trigger] a[c * NDEN + r] == before[c * NDEN
                            + r] + if c == col {
                            scaled_at(ps.take(jp as int), nt, r, h as int) - scaled_at(rs, nt, r, h as int)
                        } else {
                            0
                        },
                decreases products.len() - jp,
            {
                let t = products[jp];
                proof {
                    assert(ps.take(jp as int + 1).drop_last() == ps.take(jp as int));
                    assert(ps.take(jp as int + 1).last() == t);
                    assert(t.halves <= MAX_HALVES) by {
                        assert(t == ps[jp as int]);
                    }
                    assert(small_side(ps.take(jp as int))) by {
                        assert forall|k: int| 0 <= k < ps.take(jp as int).len() implies #[trigger] ps.take(jp as int)[k].halves <= MAX_HALVES by {
                            assert(ps.take(jp as int)[k] == ps[k]);
                        }
                    }
                }
                if t.species >= 1 && t.species <= ntot {
                    let row = t.species - 1;
                    let k = col * NDEN + row;
                    proof {
                        lemma_jacobian_bound(rs.take(i as int), rs, ps, nt, col as int, row as int);
                        lemma_scaled_bound(ps.take(jp as int), nt, row as int, h as int);
                        lemma_scaled_bound(rs, nt, row as int, h as int);
                        assert(0 <= (t.halves as int) * (h as int) <= 65536) by (nonlinear_arith)
                            requires
                                0 <= t.halves <= 256,
                                0 <= h <= 256,
                        ;
                    }
                    let cur = a[k];
                    a.set(k, cur + (t.halves as i64) * h);
                }
                jp = jp + 1;
            }
            proof {
                assert(rs.take(reactants.len() as int) == rs);
                assert(ps.take(products.len() as int) == ps);
            }
        }
        i = i + 1;
    }
    proof {
        assert(rs.take(reactants.len() as int) == rs);
    }
    a
}

/// The Jacobian that a reaction contributes per unit rate is the outer
/// product of its reactant coefficients with its net production: the entry
/// at (`col`, `row`) is the reactants' coefficient at `col` times the
/// production less the loss at `row`. The Jacobian and the production and
/// loss terms, both read from the same reaction, agree in this way for
/// every reaction.
pub proof fn law_jacobian_is_outer_product_of_budget(
    reactants: Seq<Term>,
    products: Seq<Term>,
    ntot: int,
    col: int,
    row: int,
)
    ensures
        jacobian_at(reactants, reactants, products, ntot, col, row) == halves_at(
            reactants,
            ntot,
            col,
        ) * (halves_at(products, ntot, row) - halves_at(reactants, ntot, row)),
{
    lemma_jacobian_factors(reactants, reactants, products, ntot, col, row);
}

proof fn lemma_jacobian_factors(
    ds: Seq<Term>,
    reactants: Seq<Term>,
    products: Seq<Term>,
    ntot: int,
    col: int,
    row: int,
)
    ensures
        jacobian_at(ds, reactants, products, ntot, col, row) == halves_at(ds, ntot, col) * (
        halves_at(products, ntot, row) - halves_at(reactants, ntot, row)),
    decreases ds.len(),
{
    if ds.len() > 0 {
        lemma_jacobian_factors(ds.drop_last(), reactants, products, ntot, col, row);
        let h = ds.last().halves as int;
        lemma_scaled_is_product(products, ntot, row, h);
        lemma_scaled_is_product(reactants, ntot, row, h);
        let a = halves_at(ds.drop_last(), ntot, col);
        let p = halves_at(products, ntot, row);
        let q = halves_at(reactants, ntot, row);
        assert(a * (p - q) + (h * p - h * q) == (a + h) * (p - q)) by (nonlinear_arith);
    }
}

// ── Iodine in the Jacobian ──────────────────────────────────────────────────

/// The slot map that puts each species on the slot of its own number.
pub open spec fn own_slots() -> Seq<usize> {
    Seq::new(NDEN as nat, |i: int| (i + 1) as usize)
}

/// Iodine atoms, in halves, of the terms of `v` on implicit slots.
pub open spec fn term_iodine(v: Seq<Term>, ntot: int) -> int
    decreases v.len(),
{
    if v.len() == 0 {
        0
    } else {
        term_iodine(v.drop_last(), ntot) + if on_slot(v.last(), ntot) {
            v.last().halves * iodine_atoms(v.last().species - 1)
        } else {
            0
        }
    }
}

/// Iodine atoms, in halves, that the terms of `v` put on the first `m`
/// slot positions, counted position by position.
pub open spec fn row_iodine(v: Seq<Term>, ntot: int, m: int) -> int
    decreases m,
{
    if m <= 0 {
        0
    } else {
        row_iodine(v, ntot, m - 1) + iodine_atoms(m - 1) * halves_at(v, ntot, m - 1)
    }
}

/// Iodine atoms that the Jacobian column `col` of a reaction carries over
/// the first `m` rows, in quarters per unit rate.
pub open spec fn column_iodine(
    reactants: Seq<Term>,
    products: Seq<Term>,
    ntot: int,
    col: int,
    m: int,
) -> int
    decreases m,
{
    if m <= 0 {
        0
    } else {
        column_iodine(reactants, products, ntot, col, m - 1) + iodine_atoms(m - 1) * jacobian_at(
            reactants,
            reactants,
            products,
            ntot,
            col,
            m - 1,
        )
    }
}

/// Adding the last term of `v` to the position count adds its atoms when
/// its position is counted.
proof fn lemma_row_iodine_last(v: Seq<Term>, ntot: int, m: int)
    requires
        v.len() > 0,
    ensures
        row_iodine(v, ntot, m) == row_iodine(v.drop_last(), ntot, m) + if on_slot(v.last(), ntot)
            && v.last().species - 1 < m {
            v.last().halves * iodine_atoms(v.last().species - 1)
        } else {
            0
        },
    decreases m,
{
    if m > 0 {
        lemma_row_iodine_last(v, ntot, m - 1);
        let a = iodine_atoms(m - 1);
        let h = halves_at(v.drop_last(), ntot, m - 1);
        let x = v.last().halves as int;
        if at_row(v.last(), ntot, m - 1) {
            assert(a * (h + x) == a * h + x * a) by (nonlinear_arith);
        }
    }
}

/// Counting position by position over all slots counts every term on a
/// slot.
proof fn lemma_row_iodine_is_term_iodine(v: Seq<Term>, ntot: int)
    requires
        ntot <= NDEN,
    ensures
        row_iodine(v, ntot, NDEN as int) == term_iodine(v, ntot),
    decreases v.len(),
{
    if v.len() == 0 {
        lemma_row_iodine_empty(v, ntot, NDEN as int);
    } else {
        lemma_row_iodine_last(v, ntot, NDEN as int);
        lemma_row_iodine_is_term_iodine(v.drop_last(), ntot);
    }
}

proof fn lemma_row_iodine_empty(v: Seq<Term>, ntot: int, m: int)
    requires
        v.len() == 0,
    ensures
        row_iodine(v, ntot, m) == 0,
    decreases m,
{
    if m > 0 {
        lemma_row_iodine_empty(v, ntot, m - 1);
    }
}

/// The iodine a Jacobian column carries is its reactant coefficient times
/// the iodine the reaction's products gain over its reactants.
proof fn lemma_column_iodine_factors(
    reactants: Seq<Term>,
    products: Seq<Term>,
    ntot: int,
    col: int,
    m: int,
)
    ensures
        column_iodine(reactants, products, ntot, col, m) == halves_at(reactants, ntot, col) * (
        row_iodine(products, ntot, m) - row_iodine(reactants, ntot, m)),
    decreases m,
{
    if m > 0 {
        lemma_column_iodine_factors(reactants, products, ntot, col, m - 1);
        law_jacobian_is_outer_product_of_budget(reactants, products, ntot, col, m - 1);
        let c = halves_at(reactants, ntot, col);
        let a = iodine_atoms(m - 1);
        let p = halves_at(products, ntot, m - 1);
        let q = halves_at(reactants, ntot, m - 1);
        let rp = row_iodine(products, ntot, m - 1);
        let rq = row_iodine(reactants, ntot, m - 1);
        assert(c * (rp - rq) + a * (c * (p - q)) == c * ((rp + a * p) - (rq + a * q))) by (nonlinear_arith);
    } else {
        let c = halves_at(reactants, ntot, col);
        assert(c * (0int - 0int) == 0) by (nonlinear_arith);
    }
}

/// A side placed on the own slots carries the iodine of the table's side.
proof fn lemma_placed_iodine(v: Seq<Term>, side: Seq<(int, int)>)
    requires
        placed_side(v, side, own_slots()),
        forall|k: int| 0 <= k < side.len() ==> 0 <= #[trigger] side[k].0 < NDEN,
    ensures
        term_iodine(v, NDEN as int) == side_iodine(side),
    decreases v.len(),
{
    if v.len() > 0 {
        let v2 = v.drop_last();
        let s2 = side.drop_last();
        assert(placed_side(v2, s2, own_slots())) by {
            assert forall|k: int| 0 <= k < v2.len() implies (#[trigger] v2[k]).species == own_slots()[s2[k].0]
                && v2[k].halves == s2[k].1 by {
                assert(v2[k] == v[k]);
                assert(s2[k] == side[k]);
            }
        }
        assert forall|k: int| 0 <= k < s2.len() implies 0 <= #[trigger] s2[k].0 < NDEN by {
            assert(s2[k] == side[k]);
        }
        lemma_placed_iodine(v2, s2);
        let k = v.len() - 1;
        assert(v.last() == v[k]);
        assert(side.last() == side[k]);
        assert(v[k].species == own_slots()[side[k].0]);
        assert(0 <= side[k].0 < NDEN);
    }
}

/// Iodine is conserved by the Jacobian too: with every species on the
/// slot of its own number and all slots implicit, each column of the
/// Jacobian that a reaction of the iodine table contributes carries no net
/// iodine.
pub proof fn law_iodine_jacobian_conserves_iodine(
    bromine: bool,
    i: int,
    reactants: Seq<Term>,
    products: Seq<Term>,
    col: int,
)
    requires
        0 <= i < iodine_table(bromine).len(),
        placed_side(reactants, iodine_table(bromine)[i].1, own_slots()),
        placed_side(products, iodine_table(bromine)[i].2, own_slots()),
    ensures
        column_iodine(reactants, products, NDEN as int, col, NDEN as int) == 0,
{
    let t = iodine_table(bromine);
    law_iodine_table_conserves_iodine(bromine);
    lemma_table_roles(bromine);
    assert(side_iodine(t[i].1) == side_iodine(t[i].2));
    assert forall|k: int| 0 <= k < t[i].1.len() implies 0 <= #[trigger] t[i].1[k].0 < NDEN by {}
    assert forall|k: int| 0 <= k < t[i].2.len() implies 0 <= #[trigger] t[i].2[k].0 < NDEN by {}
    lemma_placed_iodine(reactants, t[i].1);
    lemma_placed_iodine(products, t[i].2);
    lemma_row_iodine_is_term_iodine(reactants, NDEN as int);
    lemma_row_iodine_is_term_iodine(products, NDEN as int);
    lemma_column_iodine_factors(reactants, products, NDEN as int, col, NDEN as int);
    let c = halves_at(reactants, NDEN as int, col);
    let d = row_iodine(products, NDEN as int, NDEN as int) - row_iodine(reactants, NDEN as int, NDEN as int);
    assert(d == 0);
    assert(c * d == 0) by (nonlinear_arith)
        requires
            d == 0,
    ;
}

} // verus!
