//! The columns of the climatology output table: the fixed fields, the
//! selected families, radicals and J-values, and the text of the table's
//! head that counts and names them, the rule under it, and the levels
//! filled above and below the boxes. The values are floats and are written
//! elsewhere.
use vstd::prelude::*;

use crate::format::{decimal_exec, decimal_text, extend, name_texts, pad, spaces, char_count_exec};
use crate::listing::right_aligned_chars;
use crate::report::right_aligned;
use crate::text::at_boundary;

verus! {

/// Number of family flags.
pub const NFAMILY: usize = 8;

/// Number of radical flags.
pub const NRADICAL: usize = 24;

/// Number of J-value selections.
pub const NJSELECT: usize = 10;

/// Number of time steps the model stores.
pub const NXNOFT: usize = 64;

/// Name of field `i` of the fixed and family columns: the five fields
/// always written (altitude, temperature, pressure, air density, ozone),
/// then the eight families (N2O, CH4, H2O, NOy, Cly, Bry, CO, aerosol area).
pub open spec fn field_name_spec(i: int) -> Seq<u8> {
    if i == 0 {
        seq![0x7au8, 0x20, 0x28, 0x6b, 0x6d, 0x29]
    } else if i == 1 {
        seq![0x54u8, 0x20, 0x28, 0x4b, 0x29]
    } else if i == 2 {
        seq![0x70u8, 0x20, 0x28, 0x68, 0x50, 0x61, 0x29]
    } else if i == 3 {
        seq![0x61u8, 0x69, 0x72, 0x20, 0x28, 0x63, 0x6d, 0x2d, 0x33, 0x29]
    } else if i == 4 {
        seq![0x4fu8, 0x33]
    } else if i == 5 {
        seq![0x4eu8, 0x32, 0x4f]
    } else if i == 6 {
        seq![0x43u8, 0x48, 0x34]
    } else if i == 7 {
        seq![0x48u8, 0x32, 0x4f]
    } else if i == 8 {
        seq![0x4eu8, 0x4f, 0x79]
    } else if i == 9 {
        seq![0x43u8, 0x6c, 0x79]
    } else if i == 10 {
        seq![0x42u8, 0x72, 0x79]
    } else if i == 11 {
        seq![0x43u8, 0x4f]
    } else {
        seq![0x41u8, 0x65, 0x72, 0x20, 0x53, 0x41, 0x20, 0x28, 0x63, 0x6d, 0x32, 0x29]
    }
}

/// Executable form of [`field_name_spec`].
pub fn field_name(i: usize) -> (r: Vec<u8>)
    requires
        i < 13,
    ensures
        r@ == field_name_spec(i as int),
{
    if i == 0 {
        vec![0x7au8, 0x20, 0x28, 0x6b, 0x6d, 0x29]
    } else if i == 1 {
        vec![0x54u8, 0x20, 0x28, 0x4b, 0x29]
    } else if i == 2 {
        vec![0x70u8, 0x20, 0x28, 0x68, 0x50, 0x61, 0x29]
    } else if i == 3 {
        vec![0x61u8, 0x69, 0x72, 0x20, 0x28, 0x63, 0x6d, 0x2d, 0x33, 0x29]
    } else if i == 4 {
        vec![0x4fu8, 0x33]
    } else if i == 5 {
        vec![0x4eu8, 0x32, 0x4f]
    } else if i == 6 {
        vec![0x43u8, 0x48, 0x34]
    } else if i == 7 {
        vec![0x48u8, 0x32, 0x4f]
    } else if i == 8 {
        vec![0x4eu8, 0x4f, 0x79]
    } else if i == 9 {
        vec![0x43u8, 0x6c, 0x79]
    } else if i == 10 {
        vec![0x42u8, 0x72, 0x79]
    } else if i == 11 {
        vec![0x43u8, 0x4f]
    } else {
        vec![0x41u8, 0x65, 0x72, 0x20, 0x53, 0x41, 0x20, 0x28, 0x63, 0x6d, 0x32, 0x29]
    }
}

/// Name of radical `n` of the radical columns.
pub open spec fn radical_name_spec(n: int) -> Seq<u8> {
    if n == 0 {
        seq![0x4eu8, 0x4f]
    } else if n == 1 {
        seq![0x4eu8, 0x4f, 0x32]
    } else if n == 2 {
        seq![0x4eu8, 0x4f, 0x33]
    } else if n == 3 {
        seq![0x48u8, 0x4e, 0x4f, 0x33]
    } else if n == 4 {
        seq![0x48u8, 0x4f, 0x32, 0x4e, 0x4f, 0x32]
    } else if n == 5 {
        seq![0x48u8, 0x32, 0x43, 0x4f]
    } else if n == 6 {
        seq![0x4eu8, 0x32, 0x4f, 0x35]
    } else if n == 7 {
        seq![0x4fu8, 0x48]
    } else if n == 8 {
        seq![0x48u8, 0x4f, 0x32]
    } else if n == 9 {
        seq![0x48u8, 0x32, 0x4f, 0x32]
    } else if n == 10 {
        seq![0x43u8, 0x6c]
    } else if n == 11 {
        seq![0x43u8, 0x6c, 0x32]
    } else if n == 12 {
        seq![0x43u8, 0x6c, 0x4f]
    } else if n == 13 {
        seq![0x4fu8, 0x43, 0x6c, 0x4f]
    } else if n == 14 {
        seq![0x48u8, 0x43, 0x6c]
    } else if n == 15 {
        seq![0x48u8, 0x4f, 0x43, 0x6c]
    } else if n == 16 {
        seq![0x43u8, 0x6c, 0x4f, 0x4e, 0x4f, 0x32]
    } else if n == 17 {
        seq![0x42u8, 0x72]
    } else if n == 18 {
        seq![0x42u8, 0x72, 0x43, 0x6c]
    } else if n == 19 {
        seq![0x42u8, 0x72, 0x4f]
    } else if n == 20 {
        seq![0x48u8, 0x42, 0x72]
    } else if n == 21 {
        seq![0x48u8, 0x4f, 0x42, 0x72]
    } else if n == 22 {
        seq![0x42u8, 0x72, 0x4f, 0x4e, 0x4f, 0x32]
    } else {
        seq![0x4fu8, 0x33]
    }
}

/// Executable form of [`radical_name_spec`].
pub fn radical_name(n: usize) -> (r: Vec<u8>)
    requires
        n < NRADICAL,
    ensures
        r@ == radical_name_spec(n as int),
{
    if n == 0 {
        vec![0x4eu8, 0x4f]
    } else if n == 1 {
        vec![0x4eu8, 0x4f, 0x32]
    } else if n == 2 {
        vec![0x4eu8, 0x4f, 0x33]
    } else if n == 3 {
        vec![0x48u8, 0x4e, 0x4f, 0x33]
    } else if n == 4 {
        vec![0x48u8, 0x4f, 0x32, 0x4e, 0x4f, 0x32]
    } else if n == 5 {
        vec![0x48u8, 0x32, 0x43, 0x4f]
    } else if n == 6 {
        vec![0x4eu8, 0x32, 0x4f, 0x35]
    } else if n == 7 {
        vec![0x4fu8, 0x48]
    } else if n == 8 {
        vec![0x48u8, 0x4f, 0x32]
    } else if n == 9 {
        vec![0x48u8, 0x32, 0x4f, 0x32]
    } else if n == 10 {
        vec![0x43u8, 0x6c]
    } else if n == 11 {
        vec![0x43u8, 0x6c, 0x32]
    } else if n == 12 {
        vec![0x43u8, 0x6c, 0x4f]
    } else if n == 13 {
        vec![0x4fu8, 0x43, 0x6c, 0x4f]
    } else if n == 14 {
        vec![0x48u8, 0x43, 0x6c]
    } else if n == 15 {
        vec![0x48u8, 0x4f, 0x43, 0x6c]
    } else if n == 16 {
        vec![0x43u8, 0x6c, 0x4f, 0x4e, 0x4f, 0x32]
    } else if n == 17 {
        vec![0x42u8, 0x72]
    } else if n == 18 {
        vec![0x42u8, 0x72, 0x43, 0x6c]
    } else if n == 19 {
        vec![0x42u8, 0x72, 0x4f]
    } else if n == 20 {
        vec![0x48u8, 0x42, 0x72]
    } else if n == 21 {
        vec![0x48u8, 0x4f, 0x42, 0x72]
    } else if n == 22 {
        vec![0x42u8, 0x72, 0x4f, 0x4e, 0x4f, 0x32]
    } else {
        vec![0x4fu8, 0x33]
    }
}

/// The implicit slot (1-based) whose diurnal cycle radical `n` reports.
pub open spec fn radical_slot_spec(n: int) -> int {
    if n == 0 {
        9
    } else if n == 1 {
        10
    } else if n == 2 {
        11
    } else if n == 3 {
        13
    } else if n == 4 {
        15
    } else if n == 5 {
        6
    } else if n == 6 {
        12
    } else if n == 7 {
        17
    } else if n == 8 {
        18
    } else if n == 9 {
        19
    } else if n == 10 {
        21
    } else if n == 11 {
        22
    } else if n == 12 {
        24
    } else if n == 13 {
        27
    } else if n == 14 {
        20
    } else if n == 15 {
        26
    } else if n == 16 {
        25
    } else if n == 17 {
        2
    } else if n == 18 {
        23
    } else if n == 19 {
        1
    } else if n == 20 {
        3
    } else if n == 21 {
        5
    } else if n == 22 {
        4
    } else {
        30
    }
}

/// The radical that reports slot `s`, when one does.
spec fn slot_radical(s: int) -> int {
    if s == 9 {
        0
    } else if s == 10 {
        1
    } else if s == 11 {
        2
    } else if s == 13 {
        3
    } else if s == 15 {
        4
    } else if s == 6 {
        5
    } else if s == 12 {
        6
    } else if s == 17 {
        7
    } else if s == 18 {
        8
    } else if s == 19 {
        9
    } else if s == 21 {
        10
    } else if s == 22 {
        11
    } else if s == 24 {
        12
    } else if s == 27 {
        13
    } else if s == 20 {
        14
    } else if s == 26 {
        15
    } else if s == 25 {
        16
    } else if s == 2 {
        17
    } else if s == 23 {
        18
    } else if s == 1 {
        19
    } else if s == 3 {
        20
    } else if s == 5 {
        21
    } else if s == 4 {
        22
    } else if s == 30 {
        23
    } else {
        -1
    }
}

/// The slots of the table's radicals in order, as the climatology output
/// lists them.
pub open spec fn radical_slots_listed() -> Seq<int> {
    seq![9, 10, 11, 13, 15, 6, 12, 17, 18, 19, 21, 22, 24, 27, 20, 26, 25, 2, 23, 1, 3, 5, 4, 30]
}

/// Each of the table's radicals reports its own implicit slot: the slots
/// are those listed for the output table, all among the thirty implicit
/// slots, and no two radicals report the same slot (slots 7, 8, 14, 16,
/// 28 and 29 are not reported).
pub proof fn law_radical_slots_distinct()
    ensures
        forall|n: int| 0 <= n < NRADICAL ==> #[trigger] radical_slot_spec(n) == radical_slots_listed()[n],
        forall|n: int| 0 <= n < NRADICAL ==> 1 <= #[trigger] radical_slot_spec(n) <= 30,
        forall|a: int, b: int|
            0 <= a < b < NRADICAL ==> #[trigger] radical_slot_spec(a) != #[trigger] radical_slot_spec(b),
        forall|n: int|
            0 <= n < NRADICAL ==> {
                let s = #[trigger] radical_slot_spec(n);
                s != 7 && s != 8 && s != 14 && s != 16 && s != 28 && s != 29
            },
{
    assert forall|n: int| 0 <= n < NRADICAL implies slot_radical(#[trigger] radical_slot_spec(n)) == n by {
    }
    assert forall|a: int, b: int| 0 <= a < b < NRADICAL implies #[trigger] radical_slot_spec(a)
        != #[trigger] radical_slot_spec(b) by {
        assert(slot_radical(radical_slot_spec(a)) == a);
        assert(slot_radical(radical_slot_spec(b)) == b);
    }
}

/// Executable form of [`radical_slot_spec`].
pub fn radical_slot(n: usize) -> (r: usize)
    requires
        n < NRADICAL,
    ensures
        r == radical_slot_spec(n as int),
{
    if n == 0 {
        9
    } else if n == 1 {
        10
    } else if n == 2 {
        11
    } else if n == 3 {
        13
    } else if n == 4 {
        15
    } else if n == 5 {
        6
    } else if n == 6 {
        12
    } else if n == 7 {
        17
    } else if n == 8 {
        18
    } else if n == 9 {
        19
    } else if n == 10 {
        21
    } else if n == 11 {
        22
    } else if n == 12 {
        24
    } else if n == 13 {
        27
    } else if n == 14 {
        20
    } else if n == 15 {
        26
    } else if n == 16 {
        25
    } else if n == 17 {
        2
    } else if n == 18 {
        23
    } else if n == 19 {
        1
    } else if n == 20 {
        3
    } else if n == 21 {
        5
    } else if n == 22 {
        4
    } else {
        30
    }
}

/// The indices among the first `k` flags that are set (equal to 1), in
/// order.
pub open spec fn selected(flags: Seq<i32>, k: int) -> Seq<usize>
    decreases k,
{
    if k <= 0 {
        Seq::empty()
    } else {
        selected(flags, k - 1) + if flags[k - 1] == 1 {
            seq![(k - 1) as usize]
        } else {
            Seq::empty()
        }
    }
}

/// The J-values (0-based) named by the first `k` selections: each positive
/// selection names J-value `selection - 1`.
pub open spec fn selected_j(ipjv: Seq<i32>, k: int) -> Seq<usize>
    decreases k,
{
    if k <= 0 {
        Seq::empty()
    } else {
        selected_j(ipjv, k - 1) + if ipjv[k - 1] > 0 {
            seq![(ipjv[k - 1] - 1) as usize]
        } else {
            Seq::empty()
        }
    }
}

proof fn lemma_selected_len(flags: Seq<i32>, k: int)
    requires
        k >= 0,
    ensures
        selected(flags, k).len() <= k,
        forall|i: int| 0 <= i < selected(flags, k).len() ==> #[trigger] selected(flags, k)[i] < k,
    decreases k,
{
    if k > 0 {
        lemma_selected_len(flags, k - 1);
    }
}

proof fn lemma_selected_j_len(ipjv: Seq<i32>, k: int)
    requires
        k >= 0,
    ensures
        selected_j(ipjv, k).len() <= k,
    decreases k,
{
    if k > 0 {
        lemma_selected_j_len(ipjv, k - 1);
    }
}

/// The set flags among the first `k`.
fn select_flags(flags: &[i32], k: usize) -> (r: Vec<usize>)
    requires
        k <= flags.len(),
    ensures
        r@ == selected(flags@, k as int),
{
    let mut r: Vec<usize> = Vec::new();
    let mut i: usize = 0;
    while i < k
        invariant
            i <= k <= flags.len(),
            r@ == selected(flags@, i as int),
        decreases k - i,
    {
        if flags[i] == 1 {
            r.push(i);
        }
        proof {
            assert(r@ =~= selected(flags@, i + 1));
        }
        i = i + 1;
    }
    r
}

/// The J-values named by the first `k` selections.
fn select_jvalues(ipjv: &[i32], k: usize) -> (r: Vec<usize>)
    requires
        k <= ipjv.len(),
    ensures
        r@ == selected_j(ipjv@, k as int),
{
    let mut r: Vec<usize> = Vec::new();
    let mut i: usize = 0;
    while i < k
        invariant
            i <= k <= ipjv.len(),
            r@ == selected_j(ipjv@, i as int),
        decreases k - i,
    {
        if ipjv[i] > 0 {
            r.push((ipjv[i] - 1) as usize);
        }
        proof {
            assert(r@ =~= selected_j(ipjv@, i + 1));
        }
        i = i + 1;
    }
    r
}

/// The columns of the output table.
pub struct OutputColumns {
    /// The families written (0-based, of the eight).
    pub families: Vec<usize>,
    /// The radicals whose diurnal cycles are written (0-based, of the 24).
    pub radicals: Vec<usize>,
    /// The J-values written (0-based), each at 16 solar zenith angles.
    pub jvalues: Vec<usize>,
    /// Time points written per radical: one at a single solar zenith
    /// angle, else every time step.
    pub times: usize,
    /// Columns after the five fixed fields.
    pub data_columns: usize,
}

/// Time points per radical.
pub open spec fn times_spec(isza: i32, ntimdo: int) -> int {
    if isza == 1 {
        1
    } else {
        ntimdo
    }
}

/// Columns after the five fixed fields: each radical at each time point,
/// the families, and each J-value at 16 angles.
pub open spec fn data_columns_spec(families: int, radicals: int, jvalues: int, times: int) -> int {
    radicals * times + families + jvalues * 16
}

/// The columns of the output table: the families and radicals whose flags
/// are set, the J-values named by positive selections, the time points per
/// radical, and the number of columns after the five fixed fields.
pub fn output_columns(ipf: &[i32], ipfr: &[i32], ipjv: &[i32], isza: i32, ntimdo: usize) -> (r:
    OutputColumns)
    requires
        ipf.len() == NFAMILY,
        ipfr.len() == NRADICAL,
        ipjv.len() == NJSELECT,
        ntimdo <= NXNOFT,
    ensures
        r.families@ == selected(ipf@, NFAMILY as int),
        r.radicals@ == selected(ipfr@, NRADICAL as int),
        r.jvalues@ == selected_j(ipjv@, NJSELECT as int),
        r.times == times_spec(isza, ntimdo as int),
        r.data_columns == data_columns_spec(
            r.families.len() as int,
            r.radicals.len() as int,
            r.jvalues.len() as int,
            r.times as int,
        ),
{
    let families = select_flags(ipf, NFAMILY);
    let radicals = select_flags(ipfr, NRADICAL);
    let jvalues = select_jvalues(ipjv, NJSELECT);
    proof {
        lemma_selected_len(ipf@, NFAMILY as int);
        lemma_selected_len(ipfr@, NRADICAL as int);
        lemma_selected_j_len(ipjv@, NJSELECT as int);
    }
    let times = if isza == 1 {
        1
    } else {
        ntimdo
    };
    assert(radicals.len() * times <= 24 * 64) by (nonlinear_arith)
        requires
            radicals.len() <= 24,
            times <= 64,
    ;
    let data_columns = radicals.len() * times + families.len() + jvalues.len() * 16;
    OutputColumns { families, radicals, jvalues, times, data_columns }
}

/// A count line of the table's head: the count right-aligned in four
/// columns, three blanks, the label.
pub open spec fn count_line(v: int, label: Seq<u8>) -> Seq<u8> {
    right_aligned(decimal_text(v), 4) + spaces(3) + label + seq![0x0au8]
}

pub open spec fn standard_label() -> Seq<u8> {
    seq![0x53u8, 0x74, 0x61, 0x6e, 0x64, 0x61, 0x72, 0x64, 0x20, 0x6f, 0x75, 0x74, 0x70, 0x75, 0x74, 0x20, 0x66, 0x69, 0x65, 0x6c, 0x64, 0x73]
}

pub open spec fn family_label() -> Seq<u8> {
    seq![0x46u8, 0x61, 0x6d, 0x69, 0x6c, 0x79, 0x20, 0x6f, 0x75, 0x74, 0x70, 0x75, 0x74, 0x20, 0x66, 0x69, 0x65, 0x6c, 0x64, 0x73]
}

pub open spec fn radical_label() -> Seq<u8> {
    seq![0x52u8, 0x61, 0x64, 0x69, 0x63, 0x61, 0x6c, 0x20, 0x6f, 0x75, 0x74, 0x70, 0x75, 0x74, 0x20, 0x66, 0x69, 0x65, 0x6c, 0x64, 0x73]
}

pub open spec fn jvalue_label() -> Seq<u8> {
    seq![0x4au8, 0x76, 0x61, 0x6c, 0x75, 0x65, 0x20, 0x6f, 0x75, 0x74, 0x70, 0x75, 0x74, 0x20, 0x66, 0x69, 0x65, 0x6c, 0x64, 0x73]
}

pub open spec fn total_label() -> Seq<u8> {
    seq![0x54u8, 0x6f, 0x74, 0x61, 0x6c, 0x20, 0x63, 0x6f, 0x6c, 0x75, 0x6d, 0x6e, 0x73, 0x20, 0x6f, 0x66, 0x20, 0x6f, 0x75, 0x74, 0x70, 0x75, 0x74]
}

pub open spec fn angles_label() -> Seq<u8> {
    seq![0x4eu8, 0x75, 0x6d, 0x62, 0x65, 0x72, 0x20, 0x6f, 0x66, 0x20, 0x53, 0x6f, 0x6c, 0x61, 0x72, 0x20, 0x5a, 0x65, 0x6e, 0x69, 0x74, 0x68, 0x20, 0x41, 0x6e, 0x67, 0x6c, 0x65, 0x73]
}

pub open spec fn jvalue_angles_label() -> Seq<u8> {
    seq![0x4eu8, 0x75, 0x6d, 0x62, 0x65, 0x72, 0x20, 0x6f, 0x66, 0x20, 0x4a, 0x76, 0x61, 0x6c, 0x75, 0x65, 0x20, 0x53, 0x5a, 0x41, 0x73]
}

pub open spec fn altitudes_label() -> Seq<u8> {
    seq![0x4eu8, 0x75, 0x6d, 0x62, 0x65, 0x72, 0x20, 0x6f, 0x66, 0x20, 0x41, 0x6c, 0x74, 0x69, 0x74, 0x75, 0x64, 0x65, 0x73]
}

pub open spec fn julian_day_label() -> Seq<u8> {
    seq![0x4au8, 0x75, 0x6c, 0x69, 0x61, 0x6e, 0x20, 0x44, 0x61, 0x79]
}

/// Append a count line.
fn push_count_line(out: &mut Vec<u8>, v: i32, label: &[u8])
    ensures
        final(out)@ == old(out)@ + count_line(v as int, label@),
{
    let ghost before = out@;
    let d = decimal_exec(v);
    if d.len() < 4 {
        pad(out, 4 - d.len());
    } else {
        assert(spaces(4 - d@.len()) =~= Seq::<u8>::empty());
        assert(out@ =~= out@ + spaces(4 - d@.len()));
    }
    extend(out, d.as_slice());
    pad(out, 3);
    extend(out, label);
    out.push(0x0a);
    assert(out@ =~= before + count_line(v as int, label@));
}

/// The count lines that open the table's head: the five fixed fields, then
/// the numbers of family, radical and J-value columns, then the total.
pub open spec fn count_lines_spec(families: int, radicals: int, jvalues: int, total: int) -> Seq<u8> {
    count_line(5, standard_label()) + count_line(families, family_label()) + count_line(
        radicals,
        radical_label(),
    ) + count_line(jvalues, jvalue_label()) + count_line(total, total_label())
}

/// Append a count line of a nonnegative count.
fn push_count_line_u(out: &mut Vec<u8>, v: u64, label: &[u8])
    ensures
        final(out)@ == old(out)@ + count_line(v as int, label@),
{
    let ghost before = out@;
    let d = crate::format::digits_exec(v);
    assert(decimal_text(v as int) == crate::format::digits_of(v as nat));
    if d.len() < 4 {
        pad(out, 4 - d.len());
    } else {
        assert(spaces(4 - d@.len()) =~= Seq::<u8>::empty());
        assert(out@ =~= out@ + spaces(4 - d@.len()));
    }
    extend(out, d.as_slice());
    pad(out, 3);
    extend(out, label);
    out.push(0x0a);
    assert(out@ =~= before + count_line(v as int, label@));
}

/// The count lines of the table's head.
pub fn count_lines(cols: &OutputColumns) -> (r: Vec<u8>)
    requires
        cols.data_columns + 5 <= usize::MAX,
    ensures
        r@ == count_lines_spec(
            cols.families.len() as int,
            cols.radicals.len() as int,
            cols.jvalues.len() as int,
            cols.data_columns + 5,
        ),
{
    let mut out: Vec<u8> = Vec::new();
    let l: Vec<u8> = vec![0x53u8, 0x74, 0x61, 0x6e, 0x64, 0x61, 0x72, 0x64, 0x20, 0x6f, 0x75, 0x74, 0x70, 0x75, 0x74, 0x20, 0x66, 0x69, 0x65, 0x6c, 0x64, 0x73];
    push_count_line(&mut out, 5, l.as_slice());
    let l: Vec<u8> = vec![0x46u8, 0x61, 0x6d, 0x69, 0x6c, 0x79, 0x20, 0x6f, 0x75, 0x74, 0x70, 0x75, 0x74, 0x20, 0x66, 0x69, 0x65, 0x6c, 0x64, 0x73];
    push_count_line_u(&mut out, cols.families.len() as u64, l.as_slice());
    let l: Vec<u8> = vec![0x52u8, 0x61, 0x64, 0x69, 0x63, 0x61, 0x6c, 0x20, 0x6f, 0x75, 0x74, 0x70, 0x75, 0x74, 0x20, 0x66, 0x69, 0x65, 0x6c, 0x64, 0x73];
    push_count_line_u(&mut out, cols.radicals.len() as u64, l.as_slice());
    let l: Vec<u8> = vec![0x4au8, 0x76, 0x61, 0x6c, 0x75, 0x65, 0x20, 0x6f, 0x75, 0x74, 0x70, 0x75, 0x74, 0x20, 0x66, 0x69, 0x65, 0x6c, 0x64, 0x73];
    push_count_line_u(&mut out, cols.jvalues.len() as u64, l.as_slice());
    let l: Vec<u8> = vec![0x54u8, 0x6f, 0x74, 0x61, 0x6c, 0x20, 0x63, 0x6f, 0x6c, 0x75, 0x6d, 0x6e, 0x73, 0x20, 0x6f, 0x66, 0x20, 0x6f, 0x75, 0x74, 0x70, 0x75, 0x74];
    push_count_line_u(&mut out, (cols.data_columns + 5) as u64, l.as_slice());
    proof {
        assert(out@ =~= count_lines_spec(
            cols.families.len() as int,
            cols.radicals.len() as int,
            cols.jvalues.len() as int,
            cols.data_columns + 5,
        ));
    }
    out
}

/// The two lines of a full diurnal table that count its angles: the time
/// points, and the 16 angles of the J-values.
pub fn angle_lines(times: usize) -> (r: Vec<u8>)
    requires
        times <= NXNOFT,
    ensures
        r@ == count_line(times as int, angles_label()) + count_line(16, jvalue_angles_label()),
{
    let mut out: Vec<u8> = Vec::new();
    let l: Vec<u8> = vec![0x4eu8, 0x75, 0x6d, 0x62, 0x65, 0x72, 0x20, 0x6f, 0x66, 0x20, 0x53, 0x6f, 0x6c, 0x61, 0x72, 0x20, 0x5a, 0x65, 0x6e, 0x69, 0x74, 0x68, 0x20, 0x41, 0x6e, 0x67, 0x6c, 0x65, 0x73];
    push_count_line(&mut out, times as i32, l.as_slice());
    let l: Vec<u8> = vec![0x4eu8, 0x75, 0x6d, 0x62, 0x65, 0x72, 0x20, 0x6f, 0x66, 0x20, 0x4a, 0x76, 0x61, 0x6c, 0x75, 0x65, 0x20, 0x53, 0x5a, 0x41, 0x73];
    push_count_line(&mut out, 16, l.as_slice());
    out
}

/// The lines of the table's head that give the 39 altitudes and the Julian
/// day.
pub fn altitude_and_day_lines(jdaydo: i32) -> (r: Vec<u8>)
    ensures
        r@ == count_line(39, altitudes_label()) + count_line(jdaydo as int, julian_day_label()),
{
    let mut out: Vec<u8> = Vec::new();
    let l: Vec<u8> = vec![0x4eu8, 0x75, 0x6d, 0x62, 0x65, 0x72, 0x20, 0x6f, 0x66, 0x20, 0x41, 0x6c, 0x74, 0x69, 0x74, 0x75, 0x64, 0x65, 0x73];
    push_count_line(&mut out, 39, l.as_slice());
    let l: Vec<u8> = vec![0x4au8, 0x75, 0x6c, 0x69, 0x61, 0x6e, 0x20, 0x44, 0x61, 0x79];
    push_count_line(&mut out, jdaydo, l.as_slice());
    out
}

/// `name` right-aligned in 13 characters, `times` times.
pub open spec fn repeated(name: Seq<u8>, times: int) -> Seq<u8>
    decreases times,
{
    if times <= 0 {
        Seq::empty()
    } else {
        repeated(name, times - 1) + right_aligned_chars(name, 13)
    }
}

/// The names of the first `k` fixed fields, each right-aligned in 13.
pub open spec fn fixed_fields(k: int) -> Seq<u8>
    decreases k,
{
    if k <= 0 {
        Seq::empty()
    } else {
        fixed_fields(k - 1) + right_aligned_chars(field_name_spec(k - 1), 13)
    }
}

/// The names of the selected families, each right-aligned in 13.
pub open spec fn family_fields(families: Seq<usize>) -> Seq<u8>
    decreases families.len(),
{
    if families.len() == 0 {
        Seq::empty()
    } else {
        family_fields(families.drop_last()) + right_aligned_chars(
            field_name_spec(5 + families.last()),
            13,
        )
    }
}

/// The names of the selected radicals, each once per time point.
pub open spec fn radical_fields(radicals: Seq<usize>, times: int) -> Seq<u8>
    decreases radicals.len(),
{
    if radicals.len() == 0 {
        Seq::empty()
    } else {
        radical_fields(radicals.drop_last(), times) + repeated(
            radical_name_spec(radicals.last() as int),
            times,
        )
    }
}

/// The title of J-value `jj` in the head: its first title cut to 12 bytes,
/// nothing for a J-value without titles.
pub open spec fn jvalue_title(titlej: Seq<Seq<u8>>, jj: int) -> Seq<u8> {
    let t = if 0 <= jj < titlej.len() {
        titlej[jj]
    } else {
        Seq::empty()
    };
    t.take(if t.len() < 12 {
        t.len() as int
    } else {
        12
    })
}

/// The titles of the selected J-values, each once per angle (16).
pub open spec fn jvalue_fields(jvalues: Seq<usize>, titlej: Seq<Seq<u8>>) -> Seq<u8>
    decreases jvalues.len(),
{
    if jvalues.len() == 0 {
        Seq::empty()
    } else {
        jvalue_fields(jvalues.drop_last(), titlej) + repeated(
            jvalue_title(titlej, jvalues.last() as int),
            16,
        )
    }
}

/// The line of the table's head that names its columns.
pub open spec fn column_header_spec(
    families: Seq<usize>,
    radicals: Seq<usize>,
    jvalues: Seq<usize>,
    times: int,
    titlej: Seq<Seq<u8>>,
) -> Seq<u8> {
    spaces(2) + fixed_fields(5) + family_fields(families) + radical_fields(radicals, times)
        + jvalue_fields(jvalues, titlej) + seq![0x0au8]
}

/// The first titles of the J-values can be cut after their 12th byte.
pub open spec fn jvalue_titles_cuttable(jvalues: Seq<usize>, titlej: Seq<Seq<u8>>) -> bool {
    forall|k: int|
        0 <= k < jvalues.len() && #[trigger] jvalues[k] < titlej.len() ==> at_boundary(
            titlej[jvalues[k] as int],
            if titlej[jvalues[k] as int].len() < 12 {
                titlej[jvalues[k] as int].len() as int
            } else {
                12
            },
        )
}

/// Append `name` right-aligned in 13 characters.
fn push_rjust13(out: &mut Vec<u8>, name: &[u8])
    ensures
        final(out)@ == old(out)@ + right_aligned_chars(name@, 13),
{
    let ghost before = out@;
    let c = char_count_exec(name);
    if c < 13 {
        pad(out, 13 - c);
    } else {
        assert(spaces(13 - c) =~= Seq::<u8>::empty());
        assert(out@ =~= out@ + spaces(13 - c));
    }
    extend(out, name);
    assert(out@ =~= before + right_aligned_chars(name@, 13));
}

/// Append `name` right-aligned in 13 characters, `times` times.
fn push_repeated(out: &mut Vec<u8>, name: &[u8], times: usize)
    ensures
        final(out)@ == old(out)@ + repeated(name@, times as int),
{
    let ghost before = out@;
    let mut k: usize = 0;
    assert(repeated(name@, 0) =~= Seq::<u8>::empty());
    while k < times
        invariant
            k <= times,
            out@ == before + repeated(name@, k as int),
        decreases times - k,
    {
        push_rjust13(out, name);
        k = k + 1;
        assert(out@ =~= before + repeated(name@, k as int));
    }
}

/// The line of the table's head that names its columns: two blanks, then
/// each column's name right-aligned in 13 characters: the five fixed
/// fields, the families, each radical once per time point, and each J-value
/// (its first title cut to 12 bytes) at its 16 angles.
pub fn column_header(cols: &OutputColumns, titlej: &Vec<Vec<u8>>) -> (r: Vec<u8>)
    requires
        forall|k: int| 0 <= k < cols.families.len() ==> #[trigger] cols.families[k] < NFAMILY,
        forall|k: int| 0 <= k < cols.radicals.len() ==> #[trigger] cols.radicals[k] < NRADICAL,
        jvalue_titles_cuttable(cols.jvalues@, name_texts(titlej@)),
    ensures
        r@ == column_header_spec(
            cols.families@,
            cols.radicals@,
            cols.jvalues@,
            cols.times as int,
            name_texts(titlej@),
        ),
{
    let ghost tj = name_texts(titlej@);
    let mut out: Vec<u8> = Vec::new();
    pad(&mut out, 2);
    let mut i: usize = 0;
    while i < 5
        invariant
            i <= 5,
            out@ == spaces(2) + fixed_fields(i as int),
        decreases 5 - i,
    {
        let name = field_name(i);
        push_rjust13(&mut out, name.as_slice());
        i = i + 1;
        assert(out@ =~= spaces(2) + fixed_fields(i as int));
    }
    let ghost head = out@;
    let fam = &cols.families;
    let mut k: usize = 0;
    assert(fam@.take(0) =~= Seq::<usize>::empty());
    while k < fam.len()
        invariant
            k <= fam.len(),
            forall|j: int| 0 <= j < fam.len() ==> #[trigger] fam[j] < NFAMILY,
            out@ == head + family_fields(fam@.take(k as int)),
        decreases fam.len() - k,
    {
        let name = field_name(5 + fam[k]);
        push_rjust13(&mut out, name.as_slice());
        proof {
            let t = fam@.take(k + 1);
            assert(t.drop_last() =~= fam@.take(k as int));
        }
        k = k + 1;
        assert(out@ =~= head + family_fields(fam@.take(k as int)));
    }
    assert(fam@.take(fam.len() as int) =~= fam@);
    let ghost head = out@;
    let rad = &cols.radicals;
    let mut k: usize = 0;
    assert(rad@.take(0) =~= Seq::<usize>::empty());
    while k < rad.len()
        invariant
            k <= rad.len(),
            forall|j: int| 0 <= j < rad.len() ==> #[trigger] rad[j] < NRADICAL,
            out@ == head + radical_fields(rad@.take(k as int), cols.times as int),
        decreases rad.len() - k,
    {
        let name = radical_name(rad[k]);
        push_repeated(&mut out, name.as_slice(), cols.times);
        proof {
            let t = rad@.take(k + 1);
            assert(t.drop_last() =~= rad@.take(k as int));
        }
        k = k + 1;
        assert(out@ =~= head + radical_fields(rad@.take(k as int), cols.times as int));
    }
    assert(rad@.take(rad.len() as int) =~= rad@);
    let ghost head = out@;
    let jv = &cols.jvalues;
    let none: Vec<u8> = Vec::new();
    let mut k: usize = 0;
    assert(jv@.take(0) =~= Seq::<usize>::empty());
    while k < jv.len()
        invariant
            k <= jv.len(),
            tj == name_texts(titlej@),
            none@ == Seq::<u8>::empty(),
            jvalue_titles_cuttable(jv@, tj),
            out@ == head + jvalue_fields(jv@.take(k as int), tj),
        decreases jv.len() - k,
    {
        let jj = jv[k];
        let t: &[u8] = if jj < titlej.len() {
            titlej[jj].as_slice()
        } else {
            none.as_slice()
        };
        let cut = if t.len() < 12 {
            t.len()
        } else {
            12
        };
        let name = &t[0..cut];
        assert(name@ =~= jvalue_title(tj, jj as int));
        push_repeated(&mut out, name, 16);
        proof {
            let tk = jv@.take(k + 1);
            assert(tk.drop_last() =~= jv@.take(k as int));
        }
        k = k + 1;
        assert(out@ =~= head + jvalue_fields(jv@.take(k as int), tj));
    }
    assert(jv@.take(jv.len() as int) =~= jv@);
    out.push(0x0a);
    proof {
        assert(out@ =~= column_header_spec(
            cols.families@,
            cols.radicals@,
            cols.jvalues@,
            cols.times as int,
            tj,
        ));
    }
    out
}

/// The rule under the table's head: a blank, then eleven dashes per column
/// (the five fixed fields and the data columns).
pub open spec fn rule_line_spec(data_columns: int) -> Seq<u8> {
    seq![0x20u8] + Seq::new((11 * (data_columns + 5)) as nat, |i: int| 0x2du8) + seq![0x0au8]
}

/// The rule under the table's head.
pub fn rule_line(data_columns: usize) -> (r: Vec<u8>)
    requires
        11 * (data_columns + 5) <= usize::MAX,
    ensures
        r@ == rule_line_spec(data_columns as int),
{
    let n = 11 * (data_columns + 5);
    let mut out: Vec<u8> = vec![0x20u8];
    let mut k: usize = 0;
    while k < n
        invariant
            k <= n,
            n == 11 * (data_columns + 5),
            out@ == seq![0x20u8] + Seq::new(k as nat, |i: int| 0x2du8),
        decreases n - k,
    {
        out.push(0x2d);
        k = k + 1;
        assert(out@ =~= seq![0x20u8] + Seq::new(k as nat, |i: int| 0x2du8));
    }
    out.push(0x0a);
    out
}

/// The levels from `hi - 1` down to `lo`.
pub open spec fn descending(lo: int, hi: int) -> Seq<usize> {
    Seq::new(
        (if hi > lo {
            hi - lo
        } else {
            0
        }) as nat,
        |k: int| (hi - 1 - k) as usize,
    )
}

/// Executable form of [`descending`].
fn descending_exec(lo: usize, hi: usize) -> (r: Vec<usize>)
    ensures
        r@ == descending(lo as int, hi as int),
{
    let mut out: Vec<usize> = Vec::new();
    if hi > lo {
        let mut j: usize = hi;
        while j > lo
            invariant
                lo <= j <= hi,
                out@ == descending(j as int, hi as int),
            decreases j,
        {
            j = j - 1;
            out.push(j);
            assert(out@ =~= descending(j as int, hi as int));
        }
    } else {
        assert(out@ =~= descending(lo as int, hi as int));
    }
    out
}

/// The 0-based level of a box from its signed 1-based entry: the magnitude
/// less one, 0 for an entry of 0.
pub open spec fn entry_level(nboxdo: int) -> int {
    let m = if nboxdo < 0 {
        -nboxdo
    } else {
        nboxdo
    };
    if m > 0 {
        m - 1
    } else {
        0
    }
}

fn entry_level_exec(nboxdo: i32) -> (r: usize)
    ensures
        r == entry_level(nboxdo as int),
{
    let m: u32 = if nboxdo < 0 {
        (0i64 - nboxdo as i64) as u32
    } else {
        nboxdo as u32
    };
    if m > 0 {
        (m - 1) as usize
    } else {
        0
    }
}

/// The levels filled with the missing-value marker above the top box (whose
/// entry is `top`): from the second highest of the `nc` levels down to the
/// level above the box's.
pub fn levels_above(top: i32, nc: usize) -> (r: Vec<usize>)
    ensures
        r@ == descending(
            entry_level(top as int) + 1,
            if nc >= 1 {
                nc - 1
            } else {
                0
            },
        ),
{
    let lo = entry_level_exec(top) + 1;
    let hi = if nc >= 1 {
        nc - 1
    } else {
        0
    };
    descending_exec(lo, hi)
}

/// The levels filled with the missing-value marker below the bottom box
/// (whose entry is `bottom`): from the level below the box's down to
/// level 1.
pub fn levels_below(bottom: i32) -> (r: Vec<usize>)
    ensures
        r@ == descending(1, entry_level(bottom as int)),
{
    descending_exec(1, entry_level_exec(bottom))
}

/// The time steps searched for a single solar zenith angle: `start` up to
/// `end` (0-based, exclusive), with `steps` the count the search result is
/// held to.
#[derive(Debug, Clone, Copy, PartialEq, Eq)]
pub struct SzaWindow {
    pub start: usize,
    pub end: usize,
    pub steps: usize,
}

/// The window of time steps: the second half of the day for the morning
/// (`iampm` 0), else the first half and the middle step.
pub open spec fn sza_window_spec(ntimdo: int, iampm: i32) -> (int, int, int) {
    let mid = ntimdo / 2;
    if iampm == 0 {
        (mid, ntimdo, ntimdo - mid)
    } else {
        (0, if mid + 1 < ntimdo {
            mid + 1
        } else {
            ntimdo
        }, mid + 1)
    }
}

/// Executable form of [`sza_window_spec`].
pub fn sza_window(ntimdo: usize, iampm: i32) -> (r: SzaWindow)
    requires
        ntimdo <= NXNOFT,
    ensures
        (r.start as int, r.end as int, r.steps as int) == sza_window_spec(ntimdo as int, iampm),
{
    let mid = ntimdo / 2;
    if iampm == 0 {
        SzaWindow { start: mid, end: ntimdo, steps: ntimdo - mid }
    } else {
        SzaWindow {
            start: 0,
            end: if mid + 1 < ntimdo {
                mid + 1
            } else {
                ntimdo
            },
            steps: mid + 1,
        }
    }
}

/// The time step at the lower side of the angle: the window's start plus
/// the search's bracket, held below the window's last step but one.
pub open spec fn sza_step_spec(start: int, steps: int, jlo: int) -> int {
    let cap = if steps >= 2 {
        steps - 2
    } else {
        0
    };
    start + if jlo < cap {
        jlo
    } else {
        cap
    }
}

/// Executable form of [`sza_step_spec`].
pub fn sza_step(w: SzaWindow, jlo: usize) -> (r: usize)
    requires
        w.start + w.steps <= usize::MAX,
    ensures
        r == sza_step_spec(w.start as int, w.steps as int, jlo as int),
{
    let cap = if w.steps >= 2 {
        w.steps - 2
    } else {
        0
    };
    w.start + if jlo < cap {
        jlo
    } else {
        cap
    }
}

} // verus!
