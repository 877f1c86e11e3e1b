//! The layout of the full listing of one box: how many species it shows,
//! the species name lines above each row of 13 values, which rows of the
//! rate listing it prints (the rates between the last one read and rate 200
//! are unused and their rows are skipped), and the label rows of the rate
//! listing. The values themselves are floats and are written elsewhere.
use vstd::prelude::*;

use crate::format::{char_count, char_count_exec, decimal_text, digits_exec, extend, name_texts, pad, spaces};
use crate::report::{labels_complete, left_aligned, right_aligned};

verus! {

/// Number of species the listing shows: all `nxdo` with bromine chemistry,
/// else at most the transported species less the five bromine ones.
pub open spec fn shown_species_spec(nxdo: int, ntotx: int, lbrom: bool) -> int {
    if lbrom {
        nxdo
    } else {
        let cap = if ntotx >= 5 {
            ntotx - 5
        } else {
            0
        };
        if nxdo < cap {
            nxdo
        } else {
            cap
        }
    }
}

/// Executable form of [`shown_species_spec`].
pub fn shown_species(nxdo: usize, ntotx: usize, lbrom: bool) -> (r: usize)
    ensures
        r == shown_species_spec(nxdo as int, ntotx as int, lbrom),
{
    if lbrom {
        nxdo
    } else {
        let cap = if ntotx >= 5 {
            ntotx - 5
        } else {
            0
        };
        if nxdo < cap {
            nxdo
        } else {
            cap
        }
    }
}

/// The first rate (1-based) of each printed row of the rate listing, for
/// the rows of `per` rates from rate `start + 1` on: a row is skipped when
/// all of it lies after rate `nrate1` and not after rate 200.
pub open spec fn printed_rows_from(nrates: int, nrate1: int, per: int, start: int) -> Seq<usize>
    decreases if start < nrates {
        nrates - start
    } else {
        0
    },
{
    if per <= 0 || start >= nrates {
        Seq::empty()
    } else {
        let first = start + 1;
        let last = if start + per < nrates {
            start + per
        } else {
            nrates
        };
        (if first > nrate1 && last <= 200 {
            Seq::empty()
        } else {
            seq![first as usize]
        }) + printed_rows_from(nrates, nrate1, per, start + per)
    }
}

/// The first rate (1-based) of each printed row of the rate listing, in
/// rows of `per` rates.
pub fn printed_rate_rows(nrates: usize, nrate1: usize, per: usize) -> (r: Vec<usize>)
    requires
        per >= 1,
        nrates + per <= usize::MAX,
    ensures
        r@ == printed_rows_from(nrates as int, nrate1 as int, per as int, 0),
{
    let mut out: Vec<usize> = Vec::new();
    let mut start: usize = 0;
    while start < nrates
        invariant
            per >= 1,
            nrates + per <= usize::MAX,
            start <= nrates + per,
            out@ + printed_rows_from(nrates as int, nrate1 as int, per as int, start as int)
                == printed_rows_from(nrates as int, nrate1 as int, per as int, 0),
        decreases nrates + per - start,
    {
        let first = start + 1;
        let last = if start + per < nrates {
            start + per
        } else {
            nrates
        };
        let ghost before = out@;
        if !(first > nrate1 && last <= 200) {
            out.push(first);
        }
        proof {
            let rest = printed_rows_from(nrates as int, nrate1 as int, per as int, start + per);
            assert(out@ + rest =~= before + printed_rows_from(
                nrates as int,
                nrate1 as int,
                per as int,
                start as int,
            ));
        }
        start = start + per;
    }
    assert(out@ + Seq::<usize>::empty() =~= out@);
    out
}

/// `t` right-aligned in `w` characters (`{:>w}`), never cut.
pub open spec fn right_aligned_chars(t: Seq<u8>, w: int) -> Seq<u8> {
    spaces(w - char_count(t)) + t
}

/// The name of entry `j` (0-based) of a list of names, nothing past its end.
pub open spec fn listed_name(names: Seq<Seq<u8>>, j: int) -> Seq<u8> {
    if 0 <= j < names.len() {
        names[j]
    } else {
        Seq::empty()
    }
}

/// The names of entries `lo` up to `hi` (exclusive), each right-aligned in
/// ten characters.
pub open spec fn name_fields(names: Seq<Seq<u8>>, lo: int, hi: int) -> Seq<u8>
    decreases hi - lo,
{
    if hi <= lo {
        Seq::empty()
    } else {
        name_fields(names, lo, hi - 1) + right_aligned_chars(listed_name(names, hi - 1), 10)
    }
}

/// The name line above a row of values: three blanks, then the names of
/// entries `lo` up to `hi` (exclusive) in fields of ten.
pub open spec fn species_name_line_spec(names: Seq<Seq<u8>>, lo: int, hi: int) -> Seq<u8> {
    seq![0x20u8, 0x20, 0x20] + name_fields(names, lo, hi) + seq![0x0au8]
}

/// The name line above a row of species values: three blanks, then the
/// names of entries `lo` up to `hi` (exclusive, 0-based), each right-aligned
/// in ten characters, blank past the end of the names.
pub fn species_name_line(names: &Vec<Vec<u8>>, lo: usize, hi: usize) -> (r: Vec<u8>)
    ensures
        r@ == species_name_line_spec(name_texts(names@), lo as int, hi as int),
{
    let ghost nt = name_texts(names@);
    let mut out: Vec<u8> = vec![0x20u8, 0x20, 0x20];
    let none: Vec<u8> = Vec::new();
    let mut j: usize = lo;
    if hi > lo {
        while j < hi
            invariant
                lo <= j <= hi,
                nt == name_texts(names@),
                none@ == Seq::<u8>::empty(),
                out@ == seq![0x20u8, 0x20, 0x20] + name_fields(nt, lo as int, j as int),
            decreases hi - j,
        {
            let name: &[u8] = if j < names.len() {
                names[j].as_slice()
            } else {
                none.as_slice()
            };
            assert(name@ == listed_name(nt, j as int));
            let c = char_count_exec(name);
            if c < 10 {
                pad(&mut out, 10 - c);
            } else {
                assert(spaces(10 - c) =~= Seq::<u8>::empty());
                assert(out@ =~= out@ + spaces(10 - c));
            }
            extend(&mut out, name);
            proof {
                assert(out@ =~= seq![0x20u8, 0x20, 0x20] + name_fields(nt, lo as int, j + 1));
            }
            j = j + 1;
        }
    }
    out.push(0x0a);
    out
}

/// The labels of rates `i1` up to `i10` (inclusive): each rate's two labels
/// in eight and three characters, eleven blanks for a rate past `nrates`.
pub open spec fn mnemonic_fields(nrates: int, labels: Seq<Vec<Vec<u8>>>, i1: int, j: int) -> Seq<u8>
    decreases if j >= i1 {
        j - i1 + 1
    } else {
        0
    },
{
    if j < i1 {
        Seq::empty()
    } else {
        mnemonic_fields(nrates, labels, i1, j - 1) + if j <= nrates {
            left_aligned(labels[j - 1][0]@, 8) + left_aligned(labels[j - 1][1]@, 3)
        } else {
            spaces(11)
        }
    }
}

/// A label row of the rate listing: the row's first rate in three columns,
/// `=`, then the labels of rates `i1` to `i10`.
pub open spec fn mnemonic_row_spec(nrates: int, labels: Seq<Vec<Vec<u8>>>, i1: int, i10: int) -> Seq<u8> {
    right_aligned(decimal_text(i1), 3) + seq![0x3du8] + mnemonic_fields(nrates, labels, i1, i10)
        + seq![0x0au8]
}

/// Append `t` left-aligned in `w` characters.
fn push_left_chars(out: &mut Vec<u8>, t: &[u8], w: usize)
    ensures
        final(out)@ == old(out)@ + left_aligned(t@, w as int),
{
    let ghost before = out@;
    extend(out, t);
    let c = char_count_exec(t);
    if c < w {
        pad(out, w - c);
    } else {
        assert(spaces(w - char_count(t@)) =~= Seq::<u8>::empty());
        assert(out@ =~= out@ + spaces(w - char_count(t@)));
    }
    assert(out@ =~= before + left_aligned(t@, w as int));
}

/// A label row of the rate listing: the first rate `i1` right-aligned in
/// three columns and `=`, then for each rate from `i1` to `i10` its two
/// labels in eight and three characters (eleven blanks past `nrates`).
pub fn mnemonic_row(nrates: usize, labels: &Vec<Vec<Vec<u8>>>, i1: usize, i10: usize) -> (r: Vec<u8>)
    requires
        i1 >= 1,
        i10 < usize::MAX,
        labels_complete(labels@, nrates as int),
    ensures
        r@ == mnemonic_row_spec(nrates as int, labels@, i1 as int, i10 as int),
{
    let mut out: Vec<u8> = Vec::new();
    let d = digits_exec(i1 as u64);
    if d.len() < 3 {
        pad(&mut out, 3 - d.len());
    } else {
        assert(spaces(3 - d@.len()) =~= Seq::<u8>::empty());
    }
    extend(&mut out, d.as_slice());
    out.push(0x3d);
    let ghost head = out@;
    proof {
        assert(decimal_text(i1 as int) == crate::format::digits_of(i1 as nat));
        assert(head =~= right_aligned(decimal_text(i1 as int), 3) + seq![0x3du8]);
    }
    let mut j: usize = i1;
    while j <= i10
        invariant
            i1 >= 1,
            i1 <= j <= i10 + 1 || (j == i1 && i10 < i1),
            i10 < usize::MAX,
            labels_complete(labels@, nrates as int),
            out@ == head + mnemonic_fields(nrates as int, labels@, i1 as int, j - 1),
        decreases i10 + 1 - j,
    {
        if j <= nrates {
            assert(labels@[j - 1].len() == 2);
            push_left_chars(&mut out, labels[j - 1][0].as_slice(), 8);
            push_left_chars(&mut out, labels[j - 1][1].as_slice(), 3);
        } else {
            pad(&mut out, 11);
        }
        proof {
            assert(out@ =~= head + mnemonic_fields(nrates as int, labels@, i1 as int, j as int));
        }
        j = j + 1;
    }
    out.push(0x0a);
    proof {
        if i10 < i1 {
            assert(mnemonic_fields(nrates as int, labels@, i1 as int, i10 as int) =~= Seq::<u8>::empty());
            assert(mnemonic_fields(nrates as int, labels@, i1 as int, i1 - 1) =~= Seq::<u8>::empty());
        }
    }
    out
}

} // verus!
