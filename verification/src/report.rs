//! The text of the rate reports' headers: which rates a report lists, and
//! the header and label lines that name them. The rows of values below the
//! headers are floats and are written elsewhere.
use vstd::prelude::*;

use crate::format::{char_count, char_count_exec, decimal_text, digits_exec, extend, pad, spaces};

verus! {

/// Number of entries of a rate or species index list.
pub const NNDXPQ: usize = 25;

/// `t` right-aligned in `w` columns (`{:w}`), never cut.
pub open spec fn right_aligned(t: Seq<u8>, w: int) -> Seq<u8> {
    spaces(w - t.len()) + t
}

/// `t` left-aligned in `w` characters (`{:<w}`), never cut.
pub open spec fn left_aligned(t: Seq<u8>, w: int) -> Seq<u8> {
    t + spaces(w - char_count(t))
}

/// Number of leading entries of an index list up to its last non-zero one
/// (0 when all are zero): the entries a report lists.
pub open spec fn listed_count(v: Seq<usize>) -> int
    decreases v.len(),
{
    if v.len() == 0 {
        0
    } else if v.last() != 0 {
        v.len() as int
    } else {
        listed_count(v.drop_last())
    }
}

/// Executable form of [`listed_count`].
pub fn listed_rates(v: &[usize]) -> (r: usize)
    ensures
        r == listed_count(v@),
        r <= v.len(),
{
    let mut n = v.len();
    assert(v@.take(n as int) =~= v@);
    while n > 0 && v[n - 1] == 0
        invariant
            n <= v.len(),
            listed_count(v@) == listed_count(v@.take(n as int)),
        decreases n,
    {
        proof {
            assert(v@.take(n as int).drop_last() =~= v@.take(n - 1));
        }
        n = n - 1;
    }
    proof {
        if n > 0 {
            assert(v@.take(n as int).last() == v@[n - 1]);
        } else {
            assert(v@.take(0) =~= Seq::<usize>::empty());
        }
    }
    n
}

/// The rates the steady-state runs report on: the loss of N2O, NOy, CH4,
/// H2O and CFC-11, the production and loss of CO, the production of OH, the
/// rainout of HCHO and the branching of CH3OO; the last entry is unused.
pub open spec fn stratloss_rates_spec() -> Seq<usize> {
    seq![
        9usize, 10, 137, 86, 87, 89, 90, 49, 7, 8, 104, 5, 111, 208, 58, 59, 60, 106, 218, 48, 5,
        56, 51, 52, 0,
    ]
}

/// Executable form of [`stratloss_rates_spec`].
pub fn stratloss_rates() -> (r: Vec<usize>)
    ensures
        r@ == stratloss_rates_spec(),
{
    let r: Vec<usize> = vec![
        9, 10, 137, 86, 87, 89, 90, 49, 7, 8, 104, 5, 111, 208, 58, 59, 60, 106, 218, 48, 5, 56,
        51, 52, 0,
    ];
    assert(r@ =~= stratloss_rates_spec());
    r
}

/// Append `v` right-aligned in `w` columns.
fn push_right(out: &mut Vec<u8>, v: u64, w: usize)
    ensures
        final(out)@ == old(out)@ + right_aligned(decimal_text(v as int), w as int),
{
    let d = digits_exec(v);
    if d.len() < w {
        pad(out, w - d.len());
    } else {
        assert(spaces(w - d@.len()) =~= Seq::<u8>::empty());
    }
    extend(out, d.as_slice());
    proof {
        assert(decimal_text(v as int) == crate::format::digits_of(v as nat));
    }
}

/// Append `t` left-aligned in `w` characters.
fn push_left(out: &mut Vec<u8>, t: &[u8], w: usize)
    ensures
        final(out)@ == old(out)@ + left_aligned(t@, w as int),
{
    extend(out, t);
    let c = char_count_exec(t);
    if c < w {
        pad(out, w - c);
    } else {
        assert(spaces(w - char_count(t@)) =~= Seq::<u8>::empty());
    }
    proof {
        assert(old(out)@ + t@ + spaces(w - char_count(t@)) =~= old(out)@ + left_aligned(t@, w as int));
    }
}

/// The labels of a rate exist: every rate up to `nrates` has two.
pub open spec fn labels_complete(labels: Seq<Vec<Vec<u8>>>, nrates: int) -> bool {
    &&& nrates <= labels.len()
    &&& forall|j: int| 0 <= j < nrates ==> #[trigger] labels[j].len() == 2
}

/// One line of the rate list: the entry's number and rate (`2I5`), five
/// blanks, and the rate's two labels (`2A8`).
pub open spec fn rate_list_line(k: int, kr: int, labels: Seq<Vec<Vec<u8>>>) -> Seq<u8> {
    right_aligned(decimal_text(k + 1), 5) + right_aligned(decimal_text(kr), 5) + spaces(5)
        + left_aligned(labels[kr - 1][0]@, 8) + left_aligned(labels[kr - 1][1]@, 8) + seq![0x0au8]
}

/// The rate list of the first `k` entries: a line for each entry that
/// names a rate from 1 to `nrates`.
pub open spec fn rate_list_spec(ndxpp: Seq<usize>, nrates: int, labels: Seq<Vec<Vec<u8>>>, k: int) -> Seq<u8>
    decreases k,
{
    if k <= 0 {
        Seq::empty()
    } else {
        let kr = ndxpp[k - 1] as int;
        rate_list_spec(ndxpp, nrates, labels, k - 1) + if 0 < kr <= nrates {
            rate_list_line(k - 1, kr, labels)
        } else {
            Seq::empty()
        }
    }
}

/// The list of reported rates that opens a steady-state run.
pub fn rate_list(ndxpp: &[usize], nrates: usize, labels: &Vec<Vec<Vec<u8>>>) -> (r: Vec<u8>)
    requires
        labels_complete(labels@, nrates as int),
    ensures
        r@ == rate_list_spec(ndxpp@, nrates as int, labels@, ndxpp@.len() as int),
{
    let mut out: Vec<u8> = Vec::new();
    let mut k: usize = 0;
    while k < ndxpp.len()
        invariant
            k <= ndxpp.len(),
            labels_complete(labels@, nrates as int),
            out@ == rate_list_spec(ndxpp@, nrates as int, labels@, k as int),
        decreases ndxpp.len() - k,
    {
        let kr = ndxpp[k];
        if kr > 0 && kr <= nrates {
            let ghost before = out@;
            push_right(&mut out, (k + 1) as u64, 5);
            push_right(&mut out, kr as u64, 5);
            pad(&mut out, 5);
            let l = &labels[kr - 1];
            assert(labels@[kr - 1].len() == 2);
            push_left(&mut out, l[0].as_slice(), 8);
            push_left(&mut out, l[1].as_slice(), 8);
            out.push(0x0a);
            proof {
                assert(out@ =~= before + rate_list_line(k as int, kr as int, labels@));
            }
        } else {
            proof {
                assert(out@ =~= out@ + Seq::<u8>::empty());
            }
        }
        k = k + 1;
    }
    out
}

/// The first `k` entries of the rate header: each rate number in six
/// columns followed by four blanks (`I6,4X`).
pub open spec fn rate_header_fields(ndxpp: Seq<usize>, k: int) -> Seq<u8>
    decreases k,
{
    if k <= 0 {
        Seq::empty()
    } else {
        rate_header_fields(ndxpp, k - 1) + right_aligned(decimal_text(ndxpp[k - 1] as int), 6)
            + spaces(4)
    }
}

/// The header line of a rate report: ` D=`, the report number in two
/// columns, then the `ndxp` listed rates.
pub open spec fn rate_header_spec(nnn: int, ndxpp: Seq<usize>, ndxp: int) -> Seq<u8> {
    seq![0x20u8, 0x44, 0x3d] + right_aligned(decimal_text(nnn), 2) + rate_header_fields(ndxpp, ndxp)
}

/// Executable form of [`rate_header_spec`].
pub fn rate_header(nnn: i32, ndxpp: &[usize], ndxp: usize) -> (r: Vec<u8>)
    requires
        ndxp <= ndxpp.len(),
    ensures
        r@ == rate_header_spec(nnn as int, ndxpp@, ndxp as int),
{
    let mut out: Vec<u8> = vec![0x20u8, 0x44, 0x3d];
    let d = crate::format::decimal_exec(nnn);
    if d.len() < 2 {
        pad(&mut out, 2 - d.len());
    } else {
        assert(spaces(2 - d@.len()) =~= Seq::<u8>::empty());
    }
    extend(&mut out, d.as_slice());
    let ghost head = out@;
    assert(head =~= seq![0x20u8, 0x44, 0x3d] + right_aligned(decimal_text(nnn as int), 2));
    let mut k: usize = 0;
    while k < ndxp
        invariant
            k <= ndxp <= ndxpp.len(),
            out@ == head + rate_header_fields(ndxpp@, k as int),
        decreases ndxp - k,
    {
        push_right(&mut out, ndxpp[k] as u64, 6);
        pad(&mut out, 4);
        proof {
            assert(out@ =~= head + rate_header_fields(ndxpp@, k + 1));
        }
        k = k + 1;
    }
    out
}

/// The first `k` entries of a label line: the listed rate's label in eight
/// characters and two blanks, or ten blanks for an entry that names no
/// rate from 1 to `nrates`.
pub open spec fn rate_label_fields(
    ndxpp: Seq<usize>,
    nrates: int,
    labels: Seq<Vec<Vec<u8>>>,
    row: int,
    k: int,
) -> Seq<u8>
    decreases k,
{
    if k <= 0 {
        Seq::empty()
    } else {
        let j = ndxpp[k - 1] as int;
        rate_label_fields(ndxpp, nrates, labels, row, k - 1) + if 0 < j <= nrates {
            left_aligned(labels[j - 1][row]@, 8) + spaces(2)
        } else {
            spaces(10)
        }
    }
}

/// A label line of a rate report (the labels of row `row`, 0 or 1), for the
/// `ndxp` listed rates.
pub fn rate_labels(
    ndxpp: &[usize],
    ndxp: usize,
    nrates: usize,
    labels: &Vec<Vec<Vec<u8>>>,
    row: usize,
) -> (r: Vec<u8>)
    requires
        ndxp <= ndxpp.len(),
        row < 2,
        labels_complete(labels@, nrates as int),
    ensures
        r@ == rate_label_fields(ndxpp@, nrates as int, labels@, row as int, ndxp as int),
{
    let mut out: Vec<u8> = Vec::new();
    let mut k: usize = 0;
    while k < ndxp
        invariant
            k <= ndxp <= ndxpp.len(),
            row < 2,
            labels_complete(labels@, nrates as int),
            out@ == rate_label_fields(ndxpp@, nrates as int, labels@, row as int, k as int),
        decreases ndxp - k,
    {
        let j = ndxpp[k];
        let ghost before = out@;
        if j > 0 && j <= nrates {
            assert(labels@[j - 1].len() == 2);
            push_left(&mut out, labels[j - 1][row].as_slice(), 8);
            pad(&mut out, 2);
        } else {
            pad(&mut out, 10);
        }
        proof {
            assert(out@ =~= rate_label_fields(ndxpp@, nrates as int, labels@, row as int, k + 1));
        }
        k = k + 1;
    }
    out
}

} // verus!
