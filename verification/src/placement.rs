//! Moving species values between their per-species storage and the
//! solver's vector of implicit slots, through the species map `n` (species
//! `i` sits in slot `n[i]`, 1-based): the scatter before a solve and the
//! gather after it. The iodine species take part only with iodine
//! chemistry on.
use vstd::prelude::*;

use crate::species::NDEN;

verus! {

/// The species placed `k`-th into the slot vector (a later species wins a
/// slot that two species share): NO, NO2, NO3, N2O5, HNO3, HNO2, HNO4, then
/// the hydrogen and oxygen species 6-11, the chlorine species 16-20, HOCl,
/// OClO, Cl2O2, the bromine species 12-14, 23-24, the carbon species 25-27,
/// BrCl, and last the ten iodine species 31-40 (1-based numbers).
pub open spec fn order_at(k: int) -> int {
    if k <= 4 {
        k
    } else if k == 5 {
        14
    } else if k == 6 {
        20
    } else if k <= 12 {
        k - 2
    } else if k <= 17 {
        k + 2
    } else if k == 18 {
        21
    } else if k <= 20 {
        k + 8
    } else if k <= 23 {
        k - 10
    } else if k <= 28 {
        k - 2
    } else {
        k
    }
}

/// The order in which the species are placed: the first 30 species, then
/// the ten iodine species when iodine chemistry is on.
pub open spec fn placement_order(liod: bool) -> Seq<int> {
    Seq::new(placed_species(liod) as nat, |k: int| order_at(k))
}

/// Number of species that take part: 40 with iodine chemistry, else 30.
pub open spec fn placed_species(liod: bool) -> int {
    if liod {
        40
    } else {
        30
    }
}

/// A slot number that names an entry of the slot vector.
pub open spec fn valid_slot(s: usize) -> bool {
    1 <= s <= NDEN
}

/// The slot vector after placing the species of `order` in turn, starting
/// from `fill` everywhere.
pub open spec fn scatter_spec<T>(n: Seq<usize>, vals: Seq<T>, fill: T, order: Seq<int>) -> Seq<T>
    decreases order.len(),
{
    if order.len() == 0 {
        Seq::new(NDEN as nat, |k: int| fill)
    } else {
        let prev = scatter_spec(n, vals, fill, order.drop_last());
        let sp = order.last();
        if valid_slot(n[sp]) {
            prev.update(n[sp] - 1, vals[sp])
        } else {
            prev
        }
    }
}

/// The value species `i` takes back from the slot vector `xn`: its slot's
/// entry, `zero` without a slot, its old value `old[i]` when it takes no
/// part.
pub open spec fn gathered<T>(n: Seq<usize>, xn: Seq<T>, zero: T, old: Seq<T>, liod: bool, i: int) -> T {
    if i < placed_species(liod) {
        if valid_slot(n[i]) {
            xn[n[i] - 1]
        } else {
            zero
        }
    } else {
        old[i]
    }
}

/// Executable form of [`order_at`].
fn species_at(k: usize) -> (r: usize)
    requires
        k < 40,
    ensures
        r == order_at(k as int),
{
    if k <= 4 {
        k
    } else if k == 5 {
        14
    } else if k == 6 {
        20
    } else if k <= 12 {
        k - 2
    } else if k <= 17 {
        k + 2
    } else if k == 18 {
        21
    } else if k <= 20 {
        k + 8
    } else if k <= 23 {
        k - 10
    } else if k <= 28 {
        k - 2
    } else {
        k
    }
}

/// Scatter the species values `vals` (one per species) into a slot vector
/// filled with `fill`: each taking part species, in placement order, writes
/// its value to its slot when it has one.
pub fn scatter<T: Copy>(n: &[usize; NDEN], vals: &[T], fill: T, liod: bool) -> (r: Vec<T>)
    requires
        vals.len() == NDEN,
    ensures
        r@ == scatter_spec(n@, vals@, fill, placement_order(liod)),
{
    let m: usize = if liod {
        40
    } else {
        30
    };
    let mut out: Vec<T> = Vec::new();
    let mut k: usize = 0;
    while k < NDEN
        invariant
            k <= NDEN,
            out@ == Seq::new(k as nat, |j: int| fill),
        decreases NDEN - k,
    {
        out.push(fill);
        k = k + 1;
        proof {
            assert(out@ =~= Seq::new(k as nat, |j: int| fill));
        }
    }
    let ghost ord = placement_order(liod);
    assert(ord.take(0) =~= Seq::<int>::empty());
    let mut k: usize = 0;
    while k < m
        invariant
            k <= m,
            m == placed_species(liod),
            ord == placement_order(liod),
            vals.len() == NDEN,
            n@.len() == NDEN,
            out@ == scatter_spec(n@, vals@, fill, ord.take(k as int)),
            out@.len() == NDEN,
        decreases m - k,
    {
        let sp = species_at(k);
        let slot = n[sp];
        let ghost t = ord.take(k + 1);
        proof {
            assert(t.drop_last() =~= ord.take(k as int));
            assert(t.last() == sp as int);
        }
        if slot >= 1 && slot <= NDEN {
            out.set(slot - 1, vals[sp]);
        }
        k = k + 1;
    }
    assert(ord.take(m as int) =~= ord);
    out
}

/// Gather the species values back from the slot vector `xn` into `values`
/// (one per species): each taking part species takes its slot's entry, or
/// `zero` without a slot; the others keep their values.
pub fn gather<T: Copy>(n: &[usize; NDEN], xn: &[T], zero: T, values: &mut Vec<T>, liod: bool)
    requires
        xn.len() == NDEN,
        old(values).len() == NDEN,
    ensures
        final(values).len() == NDEN,
        forall|i: int|
            0 <= i < NDEN ==> #[trigger] final(values)@[i] == gathered(n@, xn@, zero, old(values)@, liod, i),
{
    let m: usize = if liod {
        40
    } else {
        30
    };
    let ghost start = values@;
    let mut i: usize = 0;
    while i < m
        invariant
            i <= m,
            m == placed_species(liod),
            xn.len() == NDEN,
            values.len() == NDEN,
            start.len() == NDEN,
            forall|j: int| 0 <= j < i ==> #[trigger] values@[j] == gathered(n@, xn@, zero, start, liod, j),
            forall|j: int| i <= j < NDEN ==> #[trigger] values@[j] == start[j],
        decreases m - i,
    {
        let slot = n[i];
        let v = if slot >= 1 && slot <= NDEN {
            xn[slot - 1]
        } else {
            zero
        };
        values.set(i, v);
        i = i + 1;
    }
}

/// The scattered vector has one entry per slot.
proof fn lemma_scatter_len<T>(n: Seq<usize>, vals: Seq<T>, fill: T, order: Seq<int>)
    ensures
        scatter_spec(n, vals, fill, order).len() == NDEN,
    decreases order.len(),
{
    if order.len() > 0 {
        lemma_scatter_len(n, vals, fill, order.drop_last());
    }
}

/// A species of the order whose slot no other species of the order shares
/// finds its value in its slot.
proof fn lemma_scatter_at<T>(n: Seq<usize>, vals: Seq<T>, fill: T, order: Seq<int>, sp: int, pos: int)
    requires
        n.len() == NDEN,
        vals.len() == NDEN,
        0 <= pos < order.len(),
        order[pos] == sp,
        valid_slot(n[sp]),
        forall|k: int| 0 <= k < order.len() ==> 0 <= #[trigger] order[k] < NDEN,
        forall|k: int|
            0 <= k < order.len() && order[k] != sp && valid_slot(n[#[trigger] order[k]]) ==> n[order[k]]
                != n[sp],
    ensures
        scatter_spec(n, vals, fill, order)[n[sp] - 1] == vals[sp],
    decreases order.len(),
{
    let prev = order.drop_last();
    lemma_scatter_len(n, vals, fill, prev);
    if pos == order.len() - 1 {
    } else {
        assert(prev[pos] == sp);
        assert forall|k: int| 0 <= k < prev.len() implies 0 <= #[trigger] prev[k] < NDEN by {
            assert(prev[k] == order[k]);
        }
        assert forall|k: int|
            0 <= k < prev.len() && prev[k] != sp && valid_slot(n[#[trigger] prev[k]]) implies n[prev[k]]
                != n[sp] by {
            assert(prev[k] == order[k]);
        }
        lemma_scatter_at(n, vals, fill, prev, sp, pos);
        let last = order.last();
        assert(last == order[order.len() - 1]);
    }
}

/// Position of species `i` in the placement order.
pub open spec fn order_position(i: int) -> int {
    if i <= 4 {
        i
    } else if i <= 10 {
        i + 2
    } else if i <= 13 {
        i + 10
    } else if i == 14 {
        5
    } else if i <= 19 {
        i - 2
    } else if i == 20 {
        6
    } else if i == 21 {
        18
    } else if i <= 26 {
        i + 2
    } else if i <= 28 {
        i - 8
    } else {
        i
    }
}

proof fn lemma_order_positions(liod: bool)
    ensures
        placement_order(liod).len() == placed_species(liod),
        forall|i: int|
            0 <= i < placed_species(liod) ==> #[trigger] placement_order(liod)[order_position(i)] == i
                && 0 <= order_position(i) < placed_species(liod),
        forall|k: int|
            0 <= k < placement_order(liod).len() ==> 0 <= #[trigger] placement_order(liod)[k]
                < placed_species(liod),
{
}

/// Law: when no two taking part species share a slot, gathering after a
/// scatter gives every taking part species back its own value (or `zero`
/// when it has no slot), and leaves the others as they were.
pub proof fn law_gather_after_scatter<T>(
    n: Seq<usize>,
    vals: Seq<T>,
    fill: T,
    zero: T,
    old: Seq<T>,
    liod: bool,
)
    requires
        n.len() == NDEN,
        vals.len() == NDEN,
        old.len() == NDEN,
        forall|i: int, j: int|
            0 <= i < placed_species(liod) && 0 <= j < placed_species(liod) && i != j && valid_slot(
                #[trigger] n[i],
            ) && valid_slot(#[trigger] n[j]) ==> n[i] != n[j],
    ensures
        forall|i: int|
            0 <= i < NDEN ==> #[trigger] gathered(
                n,
                scatter_spec(n, vals, fill, placement_order(liod)),
                zero,
                old,
                liod,
                i,
            ) == if i < placed_species(liod) {
                if valid_slot(n[i]) {
                    vals[i]
                } else {
                    zero
                }
            } else {
                old[i]
            },
{
    lemma_order_positions(liod);
    let order = placement_order(liod);
    let m = placed_species(liod);
    assert forall|i: int| 0 <= i < m && valid_slot(n[i]) implies #[trigger] scatter_spec(
        n,
        vals,
        fill,
        order,
    )[n[i] - 1] == vals[i] by {
        assert(order[order_position(i)] == i);
        assert forall|k: int| 0 <= k < order.len() implies 0 <= #[trigger] order[k] < NDEN by {
            assert(0 <= order[k] < m);
        }
        assert forall|k: int|
            0 <= k < order.len() && order[k] != i && valid_slot(n[#[trigger] order[k]]) implies n[order[k]]
                != n[i] by {
            let j = order[k];
            assert(0 <= j < m);
            assert(valid_slot(n[j]) && valid_slot(n[i]));
        }
        lemma_scatter_at(n, vals, fill, order, i, order_position(i));
    }
}

/// The values that a gather from `xn` gives every species, the others
/// keeping `old`.
pub open spec fn gathered_all<T>(n: Seq<usize>, xn: Seq<T>, zero: T, old: Seq<T>, liod: bool) -> Seq<T> {
    Seq::new(NDEN as nat, |i: int| gathered(n, xn, zero, old, liod, i))
}

/// Some species holds slot `k`.
pub open spec fn slot_held(n: Seq<usize>, k: int) -> bool {
    exists|i: int| 0 <= i < NDEN && #[trigger] n[i] == k
}

/// Law: when the forty species, iodine chemistry on, hold the forty slots
/// one each, scattering what a gather took from the slot vector gives the
/// slot vector back.
pub proof fn law_scatter_after_gather<T>(
    n: Seq<usize>,
    xn: Seq<T>,
    fill: T,
    zero: T,
    old: Seq<T>,
)
    requires
        n.len() == NDEN,
        xn.len() == NDEN,
        old.len() == NDEN,
        forall|i: int| 0 <= i < NDEN ==> valid_slot(#[trigger] n[i]),
        forall|i: int, j: int| 0 <= i < NDEN && 0 <= j < NDEN && i != j ==> #[trigger] n[i] != #[trigger] n[j],
        forall|k: int| 1 <= k <= NDEN ==> #[trigger] slot_held(n, k),
    ensures
        scatter_spec(n, gathered_all(n, xn, zero, old, true), fill, placement_order(true)) == xn,
{
    let g = gathered_all(n, xn, zero, old, true);
    let order = placement_order(true);
    let sc = scatter_spec(n, g, fill, order);
    lemma_scatter_len(n, g, fill, order);
    lemma_order_positions(true);
    assert forall|k: int| 0 <= k < NDEN implies sc[k] == xn[k] by {
        assert(slot_held(n, k + 1));
        let i = choose|i: int| 0 <= i < NDEN && #[trigger] n[i] == k + 1;
        assert(order[order_position(i)] == i);
        assert forall|m: int| 0 <= m < order.len() implies 0 <= #[trigger] order[m] < NDEN by {
            assert(0 <= order[m] < 40);
        }
        assert forall|m: int|
            0 <= m < order.len() && order[m] != i && valid_slot(n[#[trigger] order[m]]) implies n[order[m]]
                != n[i] by {
            assert(0 <= order[m] < 40);
        }
        lemma_scatter_at(n, g, fill, order, i, order_position(i));
        assert(g[i] == xn[n[i] - 1]);
    }
    assert(sc =~= xn);
}

} // verus!
