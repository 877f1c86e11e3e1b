//! The implicit-radical block of the run-control file: one record per
//! radical (`A8,I2,1X,4I1`), from which the model assigns every species its
//! slot in the Newton-Raphson state vector. Species integrated through the
//! day (diurnal or slow) take the slots from 1 upwards in record order; the
//! others take the slots from the top down.
use vstd::prelude::*;

use crate::text::{
    all_digits, digits_value, field_spec, i32_at, i32_field, is_digit, lemma_trim_bounds, text_at,
    text_field, texts, trimmed, usize_at, usize_field,
};

verus! {

/// Number of implicit species the model stores.
pub const NDEN: usize = 40;

/// Largest number of slowly varying species.
pub const NSLOWM: usize = 11;

/// Why the radical block was refused.
#[derive(Debug, Clone, Copy, PartialEq, Eq)]
pub enum LayoutError {
    /// More than [`NSLOWM`] records are flagged slow.
    TooManySlow,
    /// The species numbers do not sum to `1 + 2 + ... + NTOTX`.
    Checksum,
}

// ── One record ──────────────────────────────────────────────────────────────

/// Number of radical records announced by the block's header.
pub open spec fn radical_count(header: Seq<u8>) -> usize {
    usize_at(header, 8, 10)
}

/// Species name of a record (columns 1-8).
pub open spec fn rec_name(l: Seq<u8>) -> Seq<u8> {
    text_at(l, 0, 8)
}

/// Species number of a record (columns 9-10).
pub open spec fn rec_jx(l: Seq<u8>) -> usize {
    usize_at(l, 8, 10)
}

/// Diurnal flag of a record (column 12).
pub open spec fn rec_diu(l: Seq<u8>) -> i32 {
    i32_at(l, 11, 12)
}

/// Slow flag of a record (column 13).
pub open spec fn rec_slo(l: Seq<u8>) -> i32 {
    i32_at(l, 12, 13)
}

/// Diffusion flag of a record (column 15).
pub open spec fn rec_diff(l: Seq<u8>) -> i32 {
    i32_at(l, 14, 15)
}

/// The species is integrated through the day: slow, or flagged diurnal.
pub open spec fn is_implicit(l: Seq<u8>) -> bool {
    rec_slo(l) > 0 || rec_diu(l) > 0
}

/// The species is slowly varying.
pub open spec fn is_slow(l: Seq<u8>) -> bool {
    rec_slo(l) > 0
}

// ── The block ───────────────────────────────────────────────────────────────

/// Number of implicit records among the first `k`.
pub open spec fn count_implicit(ls: Seq<Seq<u8>>, k: int) -> int
    decreases k,
{
    if k <= 0 {
        0
    } else {
        count_implicit(ls, k - 1) + if is_implicit(ls[k - 1]) { 1int } else { 0int }
    }
}

/// Number of slow records among the first `k`.
pub open spec fn count_slow(ls: Seq<Seq<u8>>, k: int) -> int
    decreases k,
{
    if k <= 0 {
        0
    } else {
        count_slow(ls, k - 1) + if is_slow(ls[k - 1]) { 1int } else { 0int }
    }
}

/// Species numbers of the slow records among the first `k`, in order.
pub open spec fn slow_numbers(ls: Seq<Seq<u8>>, k: int) -> Seq<usize>
    decreases k,
{
    if k <= 0 {
        Seq::empty()
    } else if is_slow(ls[k - 1]) {
        slow_numbers(ls, k - 1).push(rec_jx(ls[k - 1]))
    } else {
        slow_numbers(ls, k - 1)
    }
}

/// Sum of the species numbers of the first `k` records.
pub open spec fn jx_sum(ls: Seq<Seq<u8>>, k: int) -> int
    decreases k,
{
    if k <= 0 {
        0
    } else {
        jx_sum(ls, k - 1) + rec_jx(ls[k - 1])
    }
}

/// The slot that record `k` assigns: implicit species count up from 1,
/// the others count down from `ntotx`.
pub open spec fn slot_of(ls: Seq<Seq<u8>>, ntotx: int, k: int) -> int {
    if is_implicit(ls[k]) {
        count_implicit(ls, k) + 1
    } else {
        ntotx - (k - count_implicit(ls, k))
    }
}

/// Index of the last record among the first `k` that names species
/// number `j + 1`, or -1.
pub open spec fn last_record(ls: Seq<Seq<u8>>, j: int, k: int) -> int
    decreases k,
{
    if k <= 0 {
        -1
    } else if rec_jx(ls[k - 1]) == j + 1 {
        k - 1
    } else {
        last_record(ls, j, k - 1)
    }
}

/// Slot of species `j` (0-based) after the block: the slot given by the
/// last record that names it, or its previous slot.
pub open spec fn final_slot(old_slots: Seq<usize>, ls: Seq<Seq<u8>>, j: int) -> int {
    let k = last_record(ls, j, ls.len() as int);
    if k >= 0 {
        slot_of(ls, ls.len() as int, k)
    } else {
        old_slots[j] as int
    }
}

/// Position in the slot-ordered tables of a 1-based slot (`slot - 1`,
/// saturating at 0).
pub open spec fn slot_pos(v: int) -> int {
    if v >= 1 { v - 1 } else { 0 }
}

/// The block can be stored: every species' slot after the block lies within
/// the [`NDEN`] slot-ordered entries.
pub open spec fn radicals_fit(old_slots: Seq<usize>, ls: Seq<Seq<u8>>) -> bool {
    forall|j: int| 0 <= j < NDEN ==> #[trigger] final_slot(old_slots, ls, j) <= NDEN
}

/// The last species `j' < j` whose slot position is `t`, or -1.
pub open spec fn slot_owner(slots: Seq<usize>, t: int, j: int) -> int
    decreases j,
{
    if j <= 0 {
        -1
    } else if slot_pos(slots[j - 1] as int) == t {
        j - 1
    } else {
        slot_owner(slots, t, j - 1)
    }
}


/// Number of radical records announced by the block's header line
/// (columns 9-10, `A8,I2`).
pub fn count_radicals(header: &[u8]) -> (r: usize)
    ensures
        r == radical_count(header@),
        r <= 99,
{
    proof {
        lemma_short_field(header@, 8, 10);
    }
    usize_field(header, 8, 10)
}

pub proof fn lemma_two_digits(s: Seq<u8>)
    requires
        all_digits(s),
        s.len() <= 2,
    ensures
        0 <= digits_value(s) <= 99,
{
    reveal_with_fuel(digits_value, 3);
    if s.len() == 2 {
        assert(is_digit(s[0]) && is_digit(s[1]));
        assert(s.drop_last().drop_last() =~= Seq::<u8>::empty());
        assert(s.drop_last().last() == s[0]);
    } else if s.len() == 1 {
        assert(is_digit(s[0]));
        assert(s.drop_last() =~= Seq::<u8>::empty());
    }
}

/// An unsigned field of at most two columns holds at most 99.
pub proof fn lemma_short_field(l: Seq<u8>, a: int, b: int)
    requires
        0 <= a <= b <= a + 2,
    ensures
        usize_at(l, a, b) <= 99,
{
    let t = text_at(l, a, b);
    match field_spec(l, a, b) {
        Some(f) => {
            lemma_trim_bounds(f);
        },
        None => {},
    }
    assert(t.len() <= 2);
    if t.len() > 0 && t[0] == 0x2b {
        let d = t.subrange(1, t.len() as int);
        if d.len() > 0 && all_digits(d) {
            lemma_two_digits(d);
        }
    } else if t.len() > 0 && all_digits(t) {
        lemma_two_digits(t);
    }
}

/// Slot-layout tables of the implicit species, indexed as in the model:
/// `tname`, `ndiff` and the first [`NDEN`] entries of `ntsav` by species
/// number minus one; `tnamet` by slot minus one.
pub struct SpeciesTable {
    /// Species names by species.
    pub tname: Vec<Vec<u8>>,
    /// Diffusion flags by species.
    pub ndiff: Vec<i32>,
    /// 1-based slot of each species; entry [`NDEN`] is the number of
    /// implicit slots.
    pub ntsav: Vec<usize>,
    /// Copy of the species slots (`NT`).
    pub n: Vec<usize>,
    /// Species names by slot.
    pub tnamet: Vec<Vec<u8>>,
    /// Species numbers of the slow species, in record order.
    pub nnrt: Vec<usize>,
    /// Number of slow species.
    pub nnr: usize,
    /// Number of implicit slots.
    pub ntot: usize,
    /// Number of radical records.
    pub ntotx: usize,
}

/// Copy of a list of byte texts.
fn copy_texts(v: &Vec<Vec<u8>>) -> (r: Vec<Vec<u8>>)
    ensures
        r.len() == v.len(),
        forall|i: int| 0 <= i < v.len() ==> #[trigger] r[i]@ == v[i]@,
{
    let mut r: Vec<Vec<u8>> = Vec::new();
    let mut i: usize = 0;
    while i < v.len()
        invariant
            i <= v.len(),
            r.len() == i,
            forall|k: int| 0 <= k < i ==> #[trigger] r[k]@ == v[k]@,
        decreases v.len() - i,
    {
        r.push(vstd::slice::slice_to_vec(v[i].as_slice()));
        i = i + 1;
    }
    r
}

/// `f` is the table `o` after reading the radical records `ls`, `nrec` of
/// them, without error.
pub open spec fn radicals_read(o: SpeciesTable, f: SpeciesTable, ls: Seq<Seq<u8>>, nrec: int) -> bool {
    &&& f.wf()
    &&& count_slow(ls, nrec) <= NSLOWM
    &&& jx_sum(ls, nrec) == nrec * (nrec + 1) / 2
    &&& f.ntotx == nrec
    &&& f.ntot == count_implicit(ls, nrec)
    &&& f.ntsav[NDEN as int] == count_implicit(ls, nrec)
    &&& f.nnr == count_slow(ls, nrec)
    &&& forall|j: int| 0 <= j < NDEN ==> #[trigger] f.ntsav[j] == final_slot(o.ntsav@, ls, j)
    &&& forall|j: int| 0 <= j < NDEN ==> #[trigger] f.n[j] == f.ntsav[j]
    &&& forall|j: int|
        0 <= j < NDEN ==> (#[trigger] f.tname[j])@ == (if last_record(ls, j, nrec)
            >= 0 {
            rec_name(ls[last_record(ls, j, nrec)])
        } else {
            o.tname[j]@
        })
    &&& forall|j: int|
        0 <= j < NDEN ==> #[trigger] f.ndiff[j] == (if last_record(ls, j, nrec) >= 0 {
            rec_diff(ls[last_record(ls, j, nrec)])
        } else {
            o.ndiff[j]
        })
    &&& forall|t: int|
        0 <= t < NDEN ==> (#[trigger] f.tnamet[t])@ == (if slot_owner(f.ntsav@, t, NDEN as int)
            >= 0 {
            f.tname[slot_owner(f.ntsav@, t, NDEN as int)]@
        } else {
            o.tnamet[t]@
        })
    &&& forall|m: int|
        0 <= m < NSLOWM ==> #[trigger] f.nnrt[m] == (if m < count_slow(ls, nrec) {
            slow_numbers(ls, nrec)[m]
        } else {
            o.nnrt[m]
        })
}

impl SpeciesTable {
    /// The tables have the model's sizes.
    pub open spec fn wf(&self) -> bool {
        &&& self.tname.len() == NDEN
        &&& self.ndiff.len() == NDEN
        &&& self.ntsav.len() == NDEN + 1
        &&& self.n.len() == NDEN
        &&& self.tnamet.len() == NDEN
        &&& self.nnrt.len() == NSLOWM
    }

    /// Empty tables: no names, every flag and slot zero.
    pub fn new() -> (r: SpeciesTable)
        ensures
            r.wf(),
            forall|j: int| 0 <= j < NDEN ==> (#[trigger] r.tname[j])@.len() == 0,
            forall|j: int| 0 <= j < NDEN ==> (#[trigger] r.tnamet[j])@.len() == 0,
            forall|j: int| 0 <= j < NDEN ==> #[trigger] r.ndiff[j] == 0,
            forall|j: int| 0 <= j <= NDEN ==> #[trigger] r.ntsav[j] == 0,
            forall|j: int| 0 <= j < NDEN ==> #[trigger] r.n[j] == 0,
            forall|j: int| 0 <= j < NSLOWM ==> #[trigger] r.nnrt[j] == 0,
            r.nnr == 0,
            r.ntot == 0,
            r.ntotx == 0,
    {
        let mut tname: Vec<Vec<u8>> = Vec::new();
        let mut tnamet: Vec<Vec<u8>> = Vec::new();
        let mut ndiff: Vec<i32> = Vec::new();
        let mut n: Vec<usize> = Vec::new();
        let mut i: usize = 0;
        while i < NDEN
            invariant
                i <= NDEN,
                tname.len() == i,
                tnamet.len() == i,
                ndiff.len() == i,
                n.len() == i,
                forall|j: int| 0 <= j < i ==> (#[trigger] tname[j])@.len() == 0,
                forall|j: int| 0 <= j < i ==> (#[trigger] tnamet[j])@.len() == 0,
                forall|j: int| 0 <= j < i ==> #[trigger] ndiff[j] == 0,
                forall|j: int| 0 <= j < i ==> #[trigger] n[j] == 0,
            decreases NDEN - i,
        {
            tname.push(Vec::new());
            tnamet.push(Vec::new());
            ndiff.push(0);
            n.push(0);
            i = i + 1;
        }
        let mut ntsav: Vec<usize> = Vec::new();
        while ntsav.len() <= NDEN
            invariant
                ntsav.len() <= NDEN + 1,
                forall|j: int| 0 <= j < ntsav.len() ==> #[trigger] ntsav[j] == 0,
            decreases NDEN + 1 - ntsav.len(),
        {
            ntsav.push(0);
        }
        let mut nnrt: Vec<usize> = Vec::new();
        while nnrt.len() < NSLOWM
            invariant
                nnrt.len() <= NSLOWM,
                forall|j: int| 0 <= j < nnrt.len() ==> #[trigger] nnrt[j] == 0,
            decreases NSLOWM - nnrt.len(),
        {
            nnrt.push(0);
        }
        SpeciesTable { tname, ndiff, ntsav, n, tnamet, nnrt, nnr: 0, ntot: 0, ntotx: 0 }
    }
}

impl SpeciesTable {
    /// Read the radical block: `header` announces NTOTX records
    /// (`A8,I2`), `lines` are those records (`A8,I2,1X,4I1`: name, species
    /// number, diurnal, slow, explicit and diffusion flags).
    ///
    /// Each record in turn stores its name and diffusion flag under its
    /// species number (when that lies in 1..=NDEN) and gives the species a
    /// slot: implicit species (slow, or flagged diurnal) count up from 1,
    /// the others down from NTOTX; slow species are listed in `nnrt`. Then
    /// `ntsav[NDEN]` and `ntot` take the number of implicit slots, `n`
    /// copies the slots, and `tnamet` names each slot after the species
    /// that holds it. The block is refused, with the tables unchanged, when
    /// more than [`NSLOWM`] species are slow, or else when the species
    /// numbers do not sum to `NTOTX (NTOTX + 1) / 2`.
    pub fn read_radicals(&mut self, header: &[u8], lines: &Vec<Vec<u8>>) -> (r: Result<(), LayoutError>)
        requires
            old(self).wf(),
            lines.len() == radical_count(header@),
            count_slow(texts(lines@), lines.len() as int) <= NSLOWM ==> radicals_fit(
                old(self).ntsav@,
                texts(lines@),
            ),
        ensures
            ({
                let ls = texts(lines@);
                let nrec = lines.len() as int;
                let o = *old(self);
                let f = *final(self);
                match r {
                    Err(e) => {
                        &&& f == o
                        &&& (e == LayoutError::TooManySlow <==> count_slow(ls, nrec) > NSLOWM)
                        &&& (e == LayoutError::Checksum <==> count_slow(ls, nrec) <= NSLOWM
                            && jx_sum(ls, nrec) != nrec * (nrec + 1) / 2)
                    },
                    Ok(()) => radicals_read(o, f, ls, nrec),
                }
            }),
    {
        let ntotx = count_radicals(header);
        let ghost ls = texts(lines@);
        let ghost o = *self;
        let mut tname = copy_texts(&self.tname);
        let mut ndiff = vstd::slice::slice_to_vec(self.ndiff.as_slice());
        let mut ntsav = vstd::slice::slice_to_vec(self.ntsav.as_slice());
        let mut nnrt = vstd::slice::slice_to_vec(self.nnrt.as_slice());
        assert(ntotx * ntotx <= 9801) by (nonlinear_arith)
            requires
                ntotx <= 99,
        ;
        let mut jxsum: i64 = ((ntotx * ntotx + ntotx) / 2) as i64;
        let mut nts1: usize = 1;
        let mut nts2: usize = ntotx;
        let mut nnr: usize = 0;
        let mut i: usize = 0;
        while i < ntotx
            invariant
                i <= ntotx <= 99,
                ntotx == lines.len(),
                ls == texts(lines@),
                o == *old(self),
                o.wf(),
                tname.len() == NDEN,
                ndiff.len() == NDEN,
                ntsav.len() == NDEN + 1,
                nnrt.len() == NSLOWM,
                nts1 == count_implicit(ls, i as int) + 1,
                nts2 == ntotx - (i - count_implicit(ls, i as int)),
                0 <= count_implicit(ls, i as int) <= i,
                nnr == count_slow(ls, i as int),
                nnr <= NSLOWM,
                slow_numbers(ls, i as int).len() == nnr,
                jxsum == (ntotx * ntotx + ntotx) / 2 - jx_sum(ls, i as int),
                0 <= jx_sum(ls, i as int) <= 99 * i,
                ntsav[NDEN as int] == o.ntsav[NDEN as int],
                forall|j: int|
                    0 <= j < NDEN ==> (#[trigger] tname[j])@ == (if last_record(ls, j, i as int) >= 0 {
                        rec_name(ls[last_record(ls, j, i as int)])
                    } else {
                        o.tname[j]@
                    }),
                forall|j: int|
                    0 <= j < NDEN ==> #[trigger] ndiff[j] == (if last_record(ls, j, i as int) >= 0 {
                        rec_diff(ls[last_record(ls, j, i as int)])
                    } else {
                        o.ndiff[j]
                    }),
                forall|j: int|
                    0 <= j < NDEN ==> #[trigger] ntsav[j] == (if last_record(ls, j, i as int) >= 0 {
                        slot_of(ls, ntotx as int, last_record(ls, j, i as int))
                    } else {
                        o.ntsav[j] as int
                    }),
                forall|m: int|
                    0 <= m < NSLOWM ==> #[trigger] nnrt[m] == (if m < nnr {
                        slow_numbers(ls, i as int)[m]
                    } else {
                        o.nnrt[m]
                    }),
            decreases ntotx - i,
        {
            let l = lines[i].as_slice();
            assert(l@ == ls[i as int]);
            let name = vstd::slice::slice_to_vec(text_field(l, 0, 8));
            proof {
                lemma_short_field(l@, 8, 10);
            }
            let jx = usize_field(l, 8, 10);
            let diu = i32_field(l, 11, 12);
            let slo = i32_field(l, 12, 13);
            let diff = i32_field(l, 14, 15);
            jxsum = jxsum - jx as i64;
            if jx > 0 && jx <= NDEN {
                tname.set(jx - 1, name);
                ndiff.set(jx - 1, diff);
            }
            if slo > 0 || diu > 0 {
                if jx > 0 && jx <= NDEN {
                    ntsav.set(jx - 1, nts1);
                }
                nts1 = nts1 + 1;
            } else {
                if jx > 0 && jx <= NDEN {
                    ntsav.set(jx - 1, nts2);
                }
                nts2 = nts2 - 1;
            }
            if slo > 0 {
                if nnr >= NSLOWM {
                    proof {
                        lemma_count_slow_monotone(ls, i + 1, ntotx as int);
                    }
                    return Err(LayoutError::TooManySlow);
                }
                nnrt.set(nnr, jx);
                nnr = nnr + 1;
            }
            i = i + 1;
        }
        ntsav.set(NDEN, nts2);
        let mut n: Vec<usize> = Vec::new();
        let mut j: usize = 0;
        while j < NDEN
            invariant
                j <= NDEN,
                ntsav.len() == NDEN + 1,
                n.len() == j,
                forall|k: int| 0 <= k < j ==> #[trigger] n[k] == ntsav[k],
            decreases NDEN - j,
        {
            n.push(ntsav[j]);
            j = j + 1;
        }
        let mut tnamet = copy_texts(&self.tnamet);
        proof {
            assert forall|jj: int| 0 <= jj < NDEN implies #[trigger] ntsav[jj] <= NDEN by {
                assert(final_slot(o.ntsav@, ls, jj) <= NDEN);
            }
        }
        let mut j: usize = 0;
        while j < NDEN
            invariant
                j <= NDEN,
                ntsav.len() == NDEN + 1,
                tname.len() == NDEN,
                tnamet.len() == NDEN,
                o == *old(self),
                o.wf(),
                forall|jj: int| 0 <= jj < NDEN ==> #[trigger] ntsav[jj] <= NDEN,
                forall|t: int|
                    0 <= t < NDEN ==> (#[trigger] tnamet[t])@ == (if slot_owner(ntsav@, t, j as int) >= 0 {
                        tname[slot_owner(ntsav@, t, j as int)]@
                    } else {
                        o.tnamet[t]@
                    }),
            decreases NDEN - j,
        {
            let pos = if ntsav[j] >= 1 { ntsav[j] - 1 } else { 0 };
            tnamet.set(pos, vstd::slice::slice_to_vec(tname[j].as_slice()));
            j = j + 1;
        }
        proof {
            assert((ntotx * ntotx + ntotx) / 2 == ntotx * (ntotx + 1) / 2) by (nonlinear_arith);
            assert forall|jj: int| 0 <= jj < NDEN implies #[trigger] ntsav[jj] == final_slot(
                o.ntsav@,
                ls,
                jj,
            ) by {
                lemma_last_record_bounds(ls, jj, ntotx as int);
            }
        }
        if jxsum != 0 {
            return Err(LayoutError::Checksum);
        }
        self.tname = tname;
        self.ndiff = ndiff;
        self.ntsav = ntsav;
        self.n = n;
        self.tnamet = tnamet;
        self.nnrt = nnrt;
        self.nnr = nnr;
        self.ntot = nts2;
        self.ntotx = ntotx;
        Ok(())
    }
}

impl SpeciesTable {
    /// Whether [`SpeciesTable::read_radicals`] can store the block: either
    /// it is refused for too many slow species, or every species' final
    /// slot lies within the [`NDEN`] slot-ordered entries (the model stops
    /// with an out-of-range index otherwise).
    pub fn radicals_can_be_stored(&self, lines: &Vec<Vec<u8>>) -> (r: bool)
        requires
            self.wf(),
            lines.len() <= 99,
        ensures
            r == (count_slow(texts(lines@), lines.len() as int) <= NSLOWM ==> radicals_fit(
                self.ntsav@,
                texts(lines@),
            )),
    {
        let ntotx = lines.len();
        let ghost ls = texts(lines@);
        let mut ntsav = vstd::slice::slice_to_vec(self.ntsav.as_slice());
        let mut nts1: usize = 1;
        let mut nts2: usize = ntotx;
        let mut nslow: usize = 0;
        let mut i: usize = 0;
        while i < ntotx
            invariant
                i <= ntotx <= 99,
                ntotx == lines.len(),
                ls == texts(lines@),
                self.wf(),
                ntsav.len() == NDEN + 1,
                nts1 == count_implicit(ls, i as int) + 1,
                nts2 == ntotx - (i - count_implicit(ls, i as int)),
                0 <= count_implicit(ls, i as int) <= i,
                nslow == count_slow(ls, i as int),
                nslow <= i,
                forall|j: int|
                    0 <= j < NDEN ==> #[trigger] ntsav[j] == (if last_record(ls, j, i as int) >= 0 {
                        slot_of(ls, ntotx as int, last_record(ls, j, i as int))
                    } else {
                        self.ntsav[j] as int
                    }),
            decreases ntotx - i,
        {
            let l = lines[i].as_slice();
            assert(l@ == ls[i as int]);
            let jx = usize_field(l, 8, 10);
            let diu = i32_field(l, 11, 12);
            let slo = i32_field(l, 12, 13);
            if slo > 0 || diu > 0 {
                if jx > 0 && jx <= NDEN {
                    ntsav.set(jx - 1, nts1);
                }
                nts1 = nts1 + 1;
            } else {
                if jx > 0 && jx <= NDEN {
                    ntsav.set(jx - 1, nts2);
                }
                nts2 = nts2 - 1;
            }
            if slo > 0 {
                nslow = nslow + 1;
            }
            i = i + 1;
        }
        if nslow > NSLOWM {
            return true;
        }
        proof {
            assert forall|jj: int| 0 <= jj < NDEN implies #[trigger] ntsav[jj] == final_slot(
                self.ntsav@,
                ls,
                jj,
            ) by {
                lemma_last_record_bounds(ls, jj, ntotx as int);
            }
        }
        let mut j: usize = 0;
        while j < NDEN
            invariant
                j <= NDEN,
                nslow == count_slow(ls, ntotx as int),
                nslow <= NSLOWM,
                ntsav.len() == NDEN + 1,
                ls == texts(lines@),
                ntotx == lines.len(),
                forall|jj: int|
                    0 <= jj < NDEN ==> #[trigger] ntsav[jj] == final_slot(self.ntsav@, ls, jj),
                forall|jj: int| 0 <= jj < j ==> #[trigger] final_slot(self.ntsav@, ls, jj) <= NDEN,
            decreases NDEN - j,
        {
            if ntsav[j] > NDEN {
                assert(final_slot(self.ntsav@, ls, j as int) > NDEN);
                return false;
            }
            j = j + 1;
        }
        true
    }
}

pub proof fn lemma_last_record_bounds(ls: Seq<Seq<u8>>, j: int, k: int)
    ensures
        -1 <= last_record(ls, j, k) < k || (k <= 0 && last_record(ls, j, k) == -1),
        last_record(ls, j, k) >= 0 ==> rec_jx(ls[last_record(ls, j, k)]) == j + 1,
    decreases k,
{
    if k > 0 && rec_jx(ls[k - 1]) != j + 1 {
        lemma_last_record_bounds(ls, j, k - 1);
    }
}

pub proof fn lemma_slot_owner_bounds(slots: Seq<usize>, t: int, j: int)
    ensures
        -1 <= slot_owner(slots, t, j) < j || (j <= 0 && slot_owner(slots, t, j) == -1),
        slot_owner(slots, t, j) >= 0 ==> slot_pos(slots[slot_owner(slots, t, j)] as int) == t,
    decreases j,
{
    if j > 0 && slot_pos(slots[j - 1] as int) != t {
        lemma_slot_owner_bounds(slots, t, j - 1);
    }
}

pub proof fn lemma_count_slow_monotone(ls: Seq<Seq<u8>>, a: int, b: int)
    requires
        0 <= a <= b,
    ensures
        count_slow(ls, a) <= count_slow(ls, b),
    decreases b - a,
{
    if a < b {
        lemma_count_slow_monotone(ls, a, b - 1);
    }
}


/// Bromine chemistry is active: one of the bromine species (BrO, Br, HBr,
/// BrONO2, HOBr, the 12th, 13th, 14th, 23rd and 24th species) holds an
/// implicit slot.
pub open spec fn bromine_slots(n: Seq<usize>, ntot: int) -> bool {
    n[11] <= ntot || n[12] <= ntot || n[13] <= ntot || n[22] <= ntot || n[23] <= ntot
}

/// Iodine chemistry is active: the block has more than 30 records and one
/// of the species 31-35 (I, IO, HOI, IONO2, HI) holds an implicit slot.
pub open spec fn iodine_slots(ntotx: int, n: Seq<usize>, ntot: int) -> bool {
    ntotx > 30 && (n[30] <= ntot || n[31] <= ntot || n[32] <= ntot || n[33] <= ntot || n[34]
        <= ntot)
}

impl SpeciesTable {
    /// Whether the layout makes bromine chemistry active (`LBROM`).
    pub fn bromine_active(&self) -> (r: bool)
        requires
            self.wf(),
        ensures
            r == bromine_slots(self.n@, self.ntot as int),
    {
        let t = self.ntot;
        self.n[11] <= t || self.n[12] <= t || self.n[13] <= t || self.n[22] <= t || self.n[23] <= t
    }

    /// Whether the layout makes iodine chemistry active (`LIOD`).
    pub fn iodine_active(&self) -> (r: bool)
        requires
            self.wf(),
        ensures
            r == iodine_slots(self.ntotx as int, self.n@, self.ntot as int),
    {
        let t = self.ntot;
        self.ntotx > 30 && (self.n[30] <= t || self.n[31] <= t || self.n[32] <= t || self.n[33] <= t
            || self.n[34] <= t)
    }
}

/// The slow species that survive when iodine is switched off: those numbered
/// 30 or less, in their order.
pub open spec fn non_iodine(v: Seq<usize>) -> Seq<usize>
    decreases v.len(),
{
    if v.len() == 0 {
        Seq::empty()
    } else {
        let rest = non_iodine(v.drop_last());
        if v.last() <= 30 {
            rest.push(v.last())
        } else {
            rest
        }
    }
}

proof fn lemma_non_iodine_len(v: Seq<usize>)
    ensures
        non_iodine(v).len() <= v.len(),
    decreases v.len(),
{
    if v.len() > 0 {
        lemma_non_iodine_len(v.drop_last());
    }
}

/// `b` is the table `a` with iodine switched off: the ten iodine species
/// (31-40) lose their slots, the record and implicit counts are held to 30,
/// and the slow-species list keeps only species 1-30, in order, padded with
/// zeros. Names and diffusion flags stay.
pub open spec fn iodine_disabled(a: SpeciesTable, b: SpeciesTable) -> bool {
    &&& b.wf()
    &&& forall|j: int| 0 <= j < 30 ==> #[trigger] b.n[j] == a.n[j]
    &&& forall|j: int| 0 <= j < 30 ==> #[trigger] b.ntsav[j] == a.ntsav[j]
    &&& forall|j: int| 30 <= j < NDEN ==> #[trigger] b.n[j] == 0
    &&& forall|j: int| 30 <= j < NDEN ==> #[trigger] b.ntsav[j] == 0
    &&& b.ntsav[NDEN as int] == a.ntsav[NDEN as int]
    &&& b.ntotx == if a.ntotx < 30 {
        a.ntotx
    } else {
        30
    }
    &&& b.ntot == if a.ntot < 30 {
        a.ntot
    } else {
        30
    }
    &&& b.nnr <= a.nnr
    &&& b.nnrt@.take(b.nnr as int) == non_iodine(a.nnrt@.take(a.nnr as int))
    &&& forall|j: int| b.nnr <= j < NSLOWM ==> #[trigger] b.nnrt[j] == 0
    &&& b.tname@ == a.tname@
    &&& b.tnamet@ == a.tnamet@
    &&& b.ndiff@ == a.ndiff@
    &&& !iodine_slots(b.ntotx as int, b.n@, b.ntot as int)
}

proof fn lemma_non_iodine_twice(v: Seq<usize>)
    ensures
        non_iodine(non_iodine(v)) == non_iodine(v),
    decreases v.len(),
{
    if v.len() > 0 {
        lemma_non_iodine_twice(v.drop_last());
        let rest = non_iodine(v.drop_last());
        if v.last() <= 30 {
            assert(rest.push(v.last()).drop_last() == rest);
        }
    }
}

/// Switching iodine off twice is switching it off once: the second switch
/// leaves every slot, count, list, name and flag as the first left it.
pub proof fn law_disable_iodine_idempotent(a: SpeciesTable, b: SpeciesTable, c: SpeciesTable)
    requires
        a.wf(),
        a.nnr <= NSLOWM,
        iodine_disabled(a, b),
        iodine_disabled(b, c),
    ensures
        c.n@ == b.n@,
        c.ntsav@ == b.ntsav@,
        c.nnrt@ == b.nnrt@,
        c.nnr == b.nnr,
        c.ntot == b.ntot,
        c.ntotx == b.ntotx,
        c.tname@ == b.tname@,
        c.tnamet@ == b.tnamet@,
        c.ndiff@ == b.ndiff@,
{
    lemma_non_iodine_twice(a.nnrt@.take(a.nnr as int));
    assert(c.nnrt@.take(c.nnr as int) == b.nnrt@.take(b.nnr as int));
    assert(c.nnr == b.nnr);
    assert forall|j: int| 0 <= j < NSLOWM implies c.nnrt@[j] == b.nnrt@[j] by {
        if j < b.nnr {
            assert(c.nnrt@.take(c.nnr as int)[j] == b.nnrt@.take(b.nnr as int)[j]);
        }
    }
    assert(c.nnrt@ =~= b.nnrt@);
    assert(c.n@ =~= b.n@);
    assert(c.ntsav@ =~= b.ntsav@);
}

impl SpeciesTable {
    /// Switch iodine chemistry off: the ten iodine species (31-40) lose
    /// their slots, the record and implicit counts are held to 30, and the
    /// slow-species list keeps only species 1-30, in order, padded with
    /// zeros. Names and diffusion flags stay.
    pub fn disable_iodine(&mut self)
        requires
            old(self).wf(),
            old(self).nnr <= NSLOWM,
        ensures
            iodine_disabled(*old(self), *final(self)),
    {
        let mut j: usize = 30;
        while j < NDEN
            invariant
                30 <= j <= NDEN,
                self.wf(),
                forall|k: int| 0 <= k < 30 ==> #[trigger] self.n[k] == old(self).n[k],
                forall|k: int| 0 <= k < 30 ==> #[trigger] self.ntsav[k] == old(self).ntsav[k],
                forall|k: int| 30 <= k < j ==> #[trigger] self.n[k] == 0,
                forall|k: int| 30 <= k < j ==> #[trigger] self.ntsav[k] == 0,
                self.ntsav[NDEN as int] == old(self).ntsav[NDEN as int],
                self.ntotx == old(self).ntotx,
                self.ntot == old(self).ntot,
                self.nnr == old(self).nnr,
                self.nnrt@ == old(self).nnrt@,
                self.tname@ == old(self).tname@,
                self.tnamet@ == old(self).tnamet@,
                self.ndiff@ == old(self).ndiff@,
            decreases NDEN - j,
        {
            self.n.set(j, 0);
            self.ntsav.set(j, 0);
            j = j + 1;
        }
        if self.ntotx > 30 {
            self.ntotx = 30;
        }
        if self.ntot > 30 {
            self.ntot = 30;
        }
        let ghost slow = old(self).nnrt@;
        let ghost mid = *self;
        let mut kept: usize = 0;
        let mut j: usize = 0;
        while j < self.nnr
            invariant
                self.wf(),
                self.nnr == old(self).nnr,
                self.nnr <= NSLOWM,
                kept <= j <= self.nnr,
                self.nnrt@.take(kept as int) == non_iodine(slow.take(j as int)),
                forall|k: int| j <= k < NSLOWM ==> #[trigger] self.nnrt[k] == slow[k],
                slow.len() == NSLOWM,
                self.n == mid.n,
                self.ntsav == mid.ntsav,
                self.tname == mid.tname,
                self.tnamet == mid.tnamet,
                self.ndiff == mid.ndiff,
                self.ntot == mid.ntot,
                self.ntotx == mid.ntotx,
            decreases self.nnr - j,
        {
            let species = self.nnrt[j];
            proof {
                assert(slow.take(j as int + 1).drop_last() == slow.take(j as int));
                assert(slow.take(j as int + 1).last() == species);
            }
            if species <= 30 {
                self.nnrt.set(kept, species);
                kept = kept + 1;
            }
            j = j + 1;
        }
        let mut j: usize = kept;
        while j < NSLOWM
            invariant
                self.wf(),
                kept <= j <= NSLOWM,
                self.nnrt@.take(kept as int) == non_iodine(slow.take(old(self).nnr as int)),
                forall|k: int| kept <= k < j ==> #[trigger] self.nnrt[k] == 0,
                self.n == mid.n,
                self.ntsav == mid.ntsav,
                self.tname == mid.tname,
                self.tnamet == mid.tnamet,
                self.ndiff == mid.ndiff,
                self.ntot == mid.ntot,
                self.ntotx == mid.ntotx,
            decreases NSLOWM - j,
        {
            self.nnrt.set(j, 0);
            j = j + 1;
        }
        self.nnr = kept;
    }
}

// ── Laws ────────────────────────────────────────────────────────────────────

/// The records name each species number 1..=N exactly once, where N is the
/// number of records.
pub open spec fn names_each_species_once(ls: Seq<Seq<u8>>) -> bool {
    &&& forall|k: int| 0 <= k < ls.len() ==> 1 <= #[trigger] rec_jx(ls[k]) <= ls.len()
    &&& forall|k1: int, k2: int|
        0 <= k1 < ls.len() && 0 <= k2 < ls.len() && k1 != k2 ==> #[trigger] rec_jx(ls[k1])
            != #[trigger] rec_jx(ls[k2])
    &&& forall|v: int| 1 <= v <= ls.len() ==> #[trigger] is_named(ls, v)
}

/// Some record names species number `v`.
pub open spec fn is_named(ls: Seq<Seq<u8>>, v: int) -> bool {
    exists|k: int| 0 <= k < ls.len() && #[trigger] rec_jx(ls[k]) == v
}

pub proof fn lemma_count_implicit_step(ls: Seq<Seq<u8>>, a: int, b: int)
    requires
        0 <= a <= b,
    ensures
        count_implicit(ls, a) <= count_implicit(ls, b),
        a - count_implicit(ls, a) <= b - count_implicit(ls, b),
        0 <= count_implicit(ls, a) <= a,
    decreases b - a,
{
    if a < b {
        lemma_count_implicit_step(ls, a, b - 1);
    } else {
        lemma_count_implicit_bound(ls, a);
    }
}

pub proof fn lemma_count_implicit_bound(ls: Seq<Seq<u8>>, k: int)
    requires
        0 <= k,
    ensures
        0 <= count_implicit(ls, k) <= k,
    decreases k,
{
    if k > 0 {
        lemma_count_implicit_bound(ls, k - 1);
    }
}

/// Every species named by some record has a last record.
pub proof fn lemma_last_record_found(ls: Seq<Seq<u8>>, j: int, k: int, w: int)
    requires
        0 <= w < k,
        rec_jx(ls[w]) == j + 1,
    ensures
        w <= last_record(ls, j, k) < k,
    decreases k,
{
    if rec_jx(ls[k - 1]) != j + 1 {
        lemma_last_record_found(ls, j, k - 1, w);
    }
}

/// Slots of records: implicit ones in 1..=I, the others in I+1..=N, all
/// distinct (I implicit records among N).
pub proof fn lemma_slot_ranges(ls: Seq<Seq<u8>>, k1: int, k2: int)
    requires
        0 <= k1 < ls.len(),
        0 <= k2 < ls.len(),
    ensures
        is_implicit(ls[k1]) ==> 1 <= slot_of(ls, ls.len() as int, k1) <= count_implicit(
            ls,
            ls.len() as int,
        ),
        !is_implicit(ls[k1]) ==> count_implicit(ls, ls.len() as int) < slot_of(
            ls,
            ls.len() as int,
            k1,
        ) <= ls.len(),
        k1 != k2 ==> slot_of(ls, ls.len() as int, k1) != slot_of(ls, ls.len() as int, k2),
{
    let n = ls.len() as int;
    lemma_count_implicit_step(ls, k1, k1 + 1);
    lemma_count_implicit_step(ls, k1 + 1, n);
    lemma_count_implicit_step(ls, k2, k2 + 1);
    lemma_count_implicit_step(ls, k2 + 1, n);
    if k1 < k2 {
        lemma_count_implicit_step(ls, k1 + 1, k2);
    } else if k2 < k1 {
        lemma_count_implicit_step(ls, k2 + 1, k1);
    }
}

/// `jx_sum` depends only on the records it sums.
pub proof fn lemma_jx_sum_prefix(a: Seq<Seq<u8>>, b: Seq<Seq<u8>>, k: int)
    requires
        0 <= k <= a.len(),
        k <= b.len(),
        forall|i: int| 0 <= i < k ==> a[i] == b[i],
    ensures
        jx_sum(a, k) == jx_sum(b, k),
    decreases k,
{
    if k > 0 {
        lemma_jx_sum_prefix(a, b, k - 1);
    }
}

/// Removing a record takes its number out of the sum.
pub proof fn lemma_jx_sum_remove(ls: Seq<Seq<u8>>, i: int)
    requires
        0 <= i < ls.len(),
    ensures
        jx_sum(ls, ls.len() as int) == jx_sum(ls.remove(i), ls.len() - 1) + rec_jx(ls[i]),
    decreases ls.len(),
{
    let n = ls.len() as int;
    let r = ls.remove(i);
    if i == n - 1 {
        lemma_jx_sum_prefix(ls, r, n - 1);
    } else {
        let d = ls.drop_last();
        lemma_jx_sum_remove(d, i);
        lemma_jx_sum_prefix(ls, d, n - 1);
        assert(d.remove(i) =~= r.drop_last());
        lemma_jx_sum_prefix(d.remove(i), r, n - 2);
        assert(r[n - 2] == ls[n - 1]);
    }
}

/// Records naming each species once sum to `N (N + 1) / 2`.
pub proof fn lemma_jx_sum_once(ls: Seq<Seq<u8>>)
    requires
        names_each_species_once(ls),
    ensures
        jx_sum(ls, ls.len() as int) == ls.len() * (ls.len() + 1) / 2,
    decreases ls.len(),
{
    let n = ls.len() as int;
    if n > 0 {
        assert(is_named(ls, n));
        let w = choose|k: int| 0 <= k < n && #[trigger] rec_jx(ls[k]) == n;
        let r = ls.remove(w);
        assert(forall|k: int| 0 <= k < r.len() ==> #[trigger] r[k] == ls[if k < w { k } else { k + 1 }]);
        assert forall|k: int| 0 <= k < r.len() implies 1 <= #[trigger] rec_jx(r[k]) <= r.len() by {
            let kk = if k < w { k } else { k + 1 };
            assert(r[k] == ls[kk]);
            assert(rec_jx(ls[kk]) != rec_jx(ls[w]));
        }
        assert forall|k1: int, k2: int|
            0 <= k1 < r.len() && 0 <= k2 < r.len() && k1 != k2 implies #[trigger] rec_jx(r[k1])
            != #[trigger] rec_jx(r[k2]) by {
            let a = if k1 < w { k1 } else { k1 + 1 };
            let b = if k2 < w { k2 } else { k2 + 1 };
            assert(r[k1] == ls[a] && r[k2] == ls[b]);
        }
        assert forall|v: int| 1 <= v <= r.len() implies #[trigger] is_named(r, v) by {
            assert(is_named(ls, v));
            let k = choose|k: int| 0 <= k < n && #[trigger] rec_jx(ls[k]) == v;
            assert(k != w);
            let kr = if k < w { k } else { k - 1 };
            assert(r[kr] == ls[k]);
        }
        lemma_jx_sum_once(r);
        lemma_jx_sum_remove(ls, w);
        assert(n * (n + 1) / 2 == (n - 1) * n / 2 + n) by (nonlinear_arith);
    }
}

/// When the N radical records name each species 1..=N exactly once, the
/// block's checksum holds and the slots of those species are a permutation
/// of 1..=N: the implicit species hold exactly the slots 1..=NTOT (NTOT
/// being their number) and the other species the slots NTOT+1..=N.
pub proof fn law_slots_form_a_permutation(old_slots: Seq<usize>, ls: Seq<Seq<u8>>)
    requires
        names_each_species_once(ls),
        ls.len() <= NDEN,
        old_slots.len() == NDEN + 1,
    ensures
        jx_sum(ls, ls.len() as int) == ls.len() * (ls.len() + 1) / 2,
        forall|j: int|
            0 <= j < ls.len() ==> 1 <= #[trigger] final_slot(old_slots, ls, j) <= ls.len(),
        forall|j1: int, j2: int|
            0 <= j1 < ls.len() && 0 <= j2 < ls.len() && j1 != j2 ==> #[trigger] final_slot(
                old_slots,
                ls,
                j1,
            ) != #[trigger] final_slot(old_slots, ls, j2),
        forall|j: int|
            0 <= j < ls.len() ==> (#[trigger] final_slot(old_slots, ls, j) <= count_implicit(
                ls,
                ls.len() as int,
            ) <==> is_implicit(ls[last_record(ls, j, ls.len() as int)])),
{
    let n = ls.len() as int;
    lemma_jx_sum_once(ls);
    assert forall|j: int| 0 <= j < n implies 0 <= #[trigger] last_record(ls, j, n) < n && rec_jx(
        ls[last_record(ls, j, n)],
    ) == j + 1 by {
        assert(is_named(ls, j + 1));
        let w = choose|k: int| 0 <= k < n && #[trigger] rec_jx(ls[k]) == j + 1;
        lemma_last_record_found(ls, j, n, w);
        lemma_last_record_bounds(ls, j, n);
    }
    assert forall|j: int| 0 <= j < n implies 1 <= #[trigger] final_slot(old_slots, ls, j) <= n
        && (final_slot(old_slots, ls, j) <= count_implicit(ls, n) <==> is_implicit(
        ls[last_record(ls, j, n)],
    )) by {
        let k = last_record(ls, j, n);
        lemma_slot_ranges(ls, k, k);
        lemma_count_implicit_bound(ls, n);
    }
    assert forall|j1: int, j2: int|
        0 <= j1 < n && 0 <= j2 < n && j1 != j2 implies #[trigger] final_slot(old_slots, ls, j1)
        != #[trigger] final_slot(old_slots, ls, j2) by {
        let k1 = last_record(ls, j1, n);
        let k2 = last_record(ls, j2, n);
        lemma_slot_ranges(ls, k1, k2);
    }
}

/// The owner of a slot position is the last species that holds it.
pub proof fn lemma_slot_owner_is_last(slots: Seq<usize>, t: int, j: int, m: int)
    requires
        0 <= j < m <= slots.len(),
        slot_pos(slots[j] as int) == t,
        forall|jj: int| j < jj < m ==> slot_pos(#[trigger] slots[jj] as int) != t,
    ensures
        slot_owner(slots, t, m) == j,
    decreases m,
{
    if m - 1 != j {
        lemma_slot_owner_is_last(slots, t, j, m - 1);
    }
}

/// When the block has all [`NDEN`] records and they name each species
/// once, each slot is named after the species that holds it: the owner of
/// the slot of species `j` is `j` itself.
pub proof fn law_slot_names_follow_slots(old_slots: Seq<usize>, ls: Seq<Seq<u8>>, slots: Seq<usize>)
    requires
        names_each_species_once(ls),
        ls.len() == NDEN,
        old_slots.len() == NDEN + 1,
        slots.len() == NDEN + 1,
        forall|j: int| 0 <= j < NDEN ==> #[trigger] slots[j] == final_slot(old_slots, ls, j),
    ensures
        forall|j: int|
            0 <= j < NDEN ==> #[trigger] slot_owner(slots, slots[j] - 1, NDEN as int) == j,
{
    law_slots_form_a_permutation(old_slots, ls);
    assert forall|j: int| 0 <= j < NDEN implies #[trigger] slot_owner(
        slots,
        slots[j] - 1,
        NDEN as int,
    ) == j by {
        assert(slots[j] == final_slot(old_slots, ls, j));
        assert forall|jj: int| j < jj < NDEN implies slot_pos(#[trigger] slots[jj] as int) != slots[j]
            - 1 by {
            assert(slots[jj] == final_slot(old_slots, ls, jj));
        }
        lemma_slot_owner_is_last(slots, slots[j] - 1, j, NDEN as int);
    }
}

} // verus!
