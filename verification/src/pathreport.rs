//! The headers of the species and rate reports: the per-path reports of a
//! climatology run, the species report (unit 8), whose columns are the
//! listed species and two derived families, and the rate report (unit 9),
//! whose columns are the listed rates; and the title lines of the report of
//! box averages. The rows of values below them are floats and are written
//! elsewhere.
use vstd::prelude::*;

use crate::format::{
    a8_cut, a8_cuttable, a8_fields, a8_text, char_count_exec, decimal_text, extend, name_texts, pad,
    push_a8, spaces,
};
use crate::listing::right_aligned_chars;
use crate::text::at_boundary;
use crate::report::{labels_complete, listed_count, listed_rates, right_aligned};
use crate::text::{trim, trimmed};

verus! {

/// The title line that opens both reports: a blank, then each title in an
/// `A8` field.
pub open spec fn titler_line(titler: Seq<Seq<u8>>) -> Seq<u8> {
    seq![0x20u8] + a8_fields(titler) + seq![0x0au8]
}

/// `NO-x    `, the column of the NOx family (species index 49).
pub open spec fn nox_name() -> Seq<u8> {
    seq![0x4eu8, 0x4f, 0x2d, 0x78, 0x20, 0x20, 0x20, 0x20]
}

/// `ClO-x   `, the column of the ClOx family (species index 50).
pub open spec fn clox_name() -> Seq<u8> {
    seq![0x43u8, 0x6c, 0x4f, 0x2d, 0x78, 0x20, 0x20, 0x20]
}

/// ` SegDayBox `, the opening of the species column header.
pub open spec fn seg_day_box() -> Seq<u8> {
    seq![0x20u8, 0x53, 0x65, 0x67, 0x44, 0x61, 0x79, 0x42, 0x6f, 0x78, 0x20]
}

/// ` D= 0`, the opening of the rate number header.
pub open spec fn rate_numbers_opening() -> Seq<u8> {
    seq![0x20u8, 0x44, 0x3d, 0x20, 0x30]
}

/// ` Day `, the opening of each rate label header.
pub open spec fn day_opening() -> Seq<u8> {
    seq![0x20u8, 0x44, 0x61, 0x79, 0x20]
}

/// `1D)`, the label that rate 37 is given where its second label is blank.
pub open spec fn rate37_label() -> Seq<u8> {
    seq![0x31u8, 0x44, 0x29]
}

/// The name of the species column for species index `idx` (1-based): the
/// two families, else the species' title, else nothing.
pub open spec fn species_column_name(idx: int, titles: Seq<Seq<u8>>) -> Seq<u8> {
    if idx == 49 {
        nox_name()
    } else if idx == 50 {
        clox_name()
    } else if 0 < idx <= titles.len() {
        titles[idx - 1]
    } else {
        Seq::empty()
    }
}

/// The names of the first `n` species columns.
pub open spec fn species_columns(ndxqq: Seq<usize>, titles: Seq<Seq<u8>>, n: int) -> Seq<Seq<u8>> {
    Seq::new(n as nat, |k: int| species_column_name(ndxqq[k] as int, titles))
}

/// Number of species columns: the listed species, at most 24.
pub open spec fn species_column_count(ndxqq: Seq<usize>) -> int {
    let n = listed_count(ndxqq);
    if n < 24 {
        n
    } else {
        24
    }
}

/// Names in `A8` fields separated by two blanks.
pub open spec fn spaced_a8_fields(names: Seq<Seq<u8>>) -> Seq<u8>
    decreases names.len(),
{
    if names.len() == 0 {
        Seq::empty()
    } else {
        spaced_a8_fields(names.drop_last()) + (if names.len() > 1 {
            spaces(2)
        } else {
            Seq::empty()
        }) + a8_text(names.last())
    }
}

/// Rate numbers in six columns separated by four blanks.
pub open spec fn spaced_i6_fields(vals: Seq<usize>) -> Seq<u8>
    decreases vals.len(),
{
    if vals.len() == 0 {
        Seq::empty()
    } else {
        spaced_i6_fields(vals.drop_last()) + (if vals.len() > 1 {
            spaces(4)
        } else {
            Seq::empty()
        }) + right_aligned(decimal_text(vals.last() as int), 6)
    }
}

/// The header of the species report: the title line, then ` SegDayBox `
/// and the species columns.
pub open spec fn species_path_header_spec(
    titler: Seq<Seq<u8>>,
    titles: Seq<Seq<u8>>,
    ndxqq: Seq<usize>,
) -> Seq<u8> {
    titler_line(titler) + seg_day_box() + spaced_a8_fields(
        species_columns(ndxqq, titles, species_column_count(ndxqq)),
    ) + seq![0x0au8]
}

/// Append names in `A8` fields separated by two blanks: the species
/// columns of `ndxqq`.
fn push_species_columns(
    out: &mut Vec<u8>,
    ndxqq: &[usize],
    titles: &Vec<Vec<u8>>,
    n: usize,
)
    requires
        n <= ndxqq.len(),
    ensures
        final(out)@ == old(out)@ + spaced_a8_fields(
            species_columns(ndxqq@, name_texts(titles@), n as int),
        ),
{
    let ghost before = out@;
    let ghost tt = name_texts(titles@);
    let nox: Vec<u8> = vec![0x4eu8, 0x4f, 0x2d, 0x78, 0x20, 0x20, 0x20, 0x20];
    let clox: Vec<u8> = vec![0x43u8, 0x6c, 0x4f, 0x2d, 0x78, 0x20, 0x20, 0x20];
    let none: Vec<u8> = Vec::new();
    assert(nox@ =~= nox_name());
    assert(clox@ =~= clox_name());
    assert(species_columns(ndxqq@, tt, 0) =~= Seq::<Seq<u8>>::empty());
    let mut k: usize = 0;
    while k < n
        invariant
            k <= n <= ndxqq.len(),
            tt == name_texts(titles@),
            nox@ == nox_name(),
            clox@ == clox_name(),
            none@ == Seq::<u8>::empty(),
            out@ == before + spaced_a8_fields(species_columns(ndxqq@, tt, k as int)),
        decreases n - k,
    {
        let idx = ndxqq[k];
        let name: &[u8] = if idx == 49 {
            nox.as_slice()
        } else if idx == 50 {
            clox.as_slice()
        } else if idx > 0 && idx <= titles.len() {
            titles[idx - 1].as_slice()
        } else {
            none.as_slice()
        };
        assert(name@ == species_column_name(idx as int, tt));
        if k > 0 {
            pad(out, 2);
        }
        push_a8(out, name);
        proof {
            let next = species_columns(ndxqq@, tt, k + 1);
            assert(next.drop_last() =~= species_columns(ndxqq@, tt, k as int));
            assert(next.last() == name@);
            assert(out@ =~= before + spaced_a8_fields(next));
        }
        k = k + 1;
    }
}

/// Append the title line.
fn push_titler_line(out: &mut Vec<u8>, titler: &[Vec<u8>])
    ensures
        final(out)@ == old(out)@ + titler_line(name_texts(titler@)),
{
    let ghost before = out@;
    let ghost tt = name_texts(titler@);
    out.push(0x20);
    let mut k: usize = 0;
    assert(tt.take(0) =~= Seq::<Seq<u8>>::empty());
    while k < titler.len()
        invariant
            k <= titler.len(),
            tt == name_texts(titler@),
            out@ == before + seq![0x20u8] + a8_fields(tt.take(k as int)),
        decreases titler.len() - k,
    {
        push_a8(out, titler[k].as_slice());
        proof {
            let t = tt.take(k + 1);
            assert(t.drop_last() =~= tt.take(k as int));
            assert(t.last() == titler@[k as int]@);
        }
        k = k + 1;
    }
    out.push(0x0a);
    assert(tt.take(titler.len() as int) =~= tt);
    assert(out@ =~= before + titler_line(tt));
}

/// The header of the species report of a climatology path: the title
/// line, then ` SegDayBox ` and the name of each listed species column (at
/// most 24): `NO-x` for index 49, `ClO-x` for index 50, else the species'
/// title.
pub fn species_path_header(titler: &[Vec<u8>], titles: &Vec<Vec<u8>>, ndxqq: &[usize]) -> (r: Vec<u8>)
    requires
        a8_cuttable(name_texts(titler@)),
        a8_cuttable(
            species_columns(ndxqq@, name_texts(titles@), species_column_count(ndxqq@)),
        ),
    ensures
        r@ == species_path_header_spec(name_texts(titler@), name_texts(titles@), ndxqq@),
{
    let listed = listed_rates(ndxqq);
    let n = if listed < 24 {
        listed
    } else {
        24
    };
    let mut out: Vec<u8> = Vec::new();
    push_titler_line(&mut out, titler);
    let opening: Vec<u8> = vec![0x20u8, 0x53, 0x65, 0x67, 0x44, 0x61, 0x79, 0x42, 0x6f, 0x78, 0x20];
    assert(opening@ =~= seg_day_box());
    extend(&mut out, opening.as_slice());
    push_species_columns(&mut out, ndxqq, titles, n);
    out.push(0x0a);
    proof {
        assert(out@ =~= species_path_header_spec(name_texts(titler@), name_texts(titles@), ndxqq@));
    }
    out
}

/// The label of row `row` (0 or 1) of rate `j` in the rate report: the
/// rate's label, nothing for a rate outside 1 to `nrates`; in the second
/// row, `1D)` for rate 37 where that label is blank.
pub open spec fn rate_mnemonic(j: int, nrates: int, labels: Seq<Vec<Vec<u8>>>, row: int) -> Seq<u8> {
    let p = if 0 < j <= nrates {
        labels[j - 1][row]@
    } else {
        Seq::empty()
    };
    if row == 1 && j == 37 && trimmed(p).len() == 0 {
        rate37_label()
    } else {
        p
    }
}

/// The labels of row `row` of the first `n` listed rates.
pub open spec fn rate_mnemonics(
    ndxpp: Seq<usize>,
    nrates: int,
    labels: Seq<Vec<Vec<u8>>>,
    row: int,
    n: int,
) -> Seq<Seq<u8>> {
    Seq::new(n as nat, |k: int| rate_mnemonic(ndxpp[k] as int, nrates, labels, row))
}

/// The header of the rate report: the title line, the numbers of the
/// listed rates after ` D= 0`, then their two rows of labels, each after
/// ` Day `.
pub open spec fn rate_path_header_spec(
    titler: Seq<Seq<u8>>,
    ndxpp: Seq<usize>,
    nrates: int,
    labels: Seq<Vec<Vec<u8>>>,
) -> Seq<u8> {
    let n = listed_count(ndxpp);
    titler_line(titler) + rate_numbers_opening() + spaced_i6_fields(ndxpp.take(n)) + seq![0x0au8]
        + day_opening() + spaced_a8_fields(rate_mnemonics(ndxpp, nrates, labels, 0, n))
        + seq![0x0au8] + day_opening() + spaced_a8_fields(
        rate_mnemonics(ndxpp, nrates, labels, 1, n),
    ) + seq![0x0au8]
}

/// Append the numbers of the first `n` rates of `ndxpp`.
fn push_rate_numbers(out: &mut Vec<u8>, ndxpp: &[usize], n: usize)
    requires
        n <= ndxpp.len(),
    ensures
        final(out)@ == old(out)@ + spaced_i6_fields(ndxpp@.take(n as int)),
{
    let ghost before = out@;
    let mut k: usize = 0;
    assert(ndxpp@.take(0) =~= Seq::<usize>::empty());
    while k < n
        invariant
            k <= n <= ndxpp.len(),
            out@ == before + spaced_i6_fields(ndxpp@.take(k as int)),
        decreases n - k,
    {
        if k > 0 {
            pad(out, 4);
        }
        let d = crate::format::digits_exec(ndxpp[k] as u64);
        if d.len() < 6 {
            pad(out, 6 - d.len());
        } else {
            assert(spaces(6 - d@.len()) =~= Seq::<u8>::empty());
            assert(out@ =~= out@ + spaces(6 - d@.len()));
        }
        extend(out, d.as_slice());
        proof {
            let t = ndxpp@.take(k + 1);
            assert(t.drop_last() =~= ndxpp@.take(k as int));
            assert(t.last() == ndxpp@[k as int]);
            assert(decimal_text(ndxpp@[k as int] as int) == crate::format::digits_of(
                ndxpp@[k as int] as nat,
            ));
            assert(out@ =~= before + spaced_i6_fields(t));
        }
        k = k + 1;
    }
}

/// Append row `row` of the labels of the first `n` rates of `ndxpp`.
fn push_rate_mnemonics(
    out: &mut Vec<u8>,
    ndxpp: &[usize],
    nrates: usize,
    labels: &Vec<Vec<Vec<u8>>>,
    row: usize,
    n: usize,
)
    requires
        n <= ndxpp.len(),
        row < 2,
        labels_complete(labels@, nrates as int),
    ensures
        final(out)@ == old(out)@ + spaced_a8_fields(
            rate_mnemonics(ndxpp@, nrates as int, labels@, row as int, n as int),
        ),
{
    let ghost before = out@;
    let none: Vec<u8> = Vec::new();
    let one_d: Vec<u8> = vec![0x31u8, 0x44, 0x29];
    assert(one_d@ =~= rate37_label());
    assert(rate_mnemonics(ndxpp@, nrates as int, labels@, row as int, 0) =~= Seq::<
        Seq<u8>,
    >::empty());
    let mut k: usize = 0;
    while k < n
        invariant
            k <= n <= ndxpp.len(),
            row < 2,
            labels_complete(labels@, nrates as int),
            none@ == Seq::<u8>::empty(),
            one_d@ == rate37_label(),
            out@ == before + spaced_a8_fields(
                rate_mnemonics(ndxpp@, nrates as int, labels@, row as int, k as int),
            ),
        decreases n - k,
    {
        let j = ndxpp[k];
        let p: &[u8] = if j > 0 && j <= nrates {
            assert(labels@[j - 1].len() == 2);
            labels[j - 1][row].as_slice()
        } else {
            none.as_slice()
        };
        let name: &[u8] = if row == 1 && j == 37 && trim(p).len() == 0 {
            one_d.as_slice()
        } else {
            p
        };
        assert(name@ == rate_mnemonic(j as int, nrates as int, labels@, row as int));
        if k > 0 {
            pad(out, 2);
        }
        push_a8(out, name);
        proof {
            let next = rate_mnemonics(ndxpp@, nrates as int, labels@, row as int, k + 1);
            assert(next.drop_last() =~= rate_mnemonics(
                ndxpp@,
                nrates as int,
                labels@,
                row as int,
                k as int,
            ));
            assert(next.last() == name@);
            assert(out@ =~= before + spaced_a8_fields(next));
        }
        k = k + 1;
    }
}

/// The header of the rate report of a climatology path: the title line,
/// ` D= 0` and the number of each listed rate, then two lines of the listed
/// rates' labels after ` Day ` (rate 37 labelled `1D)` in the second where
/// its label is blank).
pub fn rate_path_header(
    titler: &[Vec<u8>],
    ndxpp: &[usize],
    nrates: usize,
    labels: &Vec<Vec<Vec<u8>>>,
) -> (r: Vec<u8>)
    requires
        labels_complete(labels@, nrates as int),
        a8_cuttable(name_texts(titler@)),
        a8_cuttable(rate_mnemonics(ndxpp@, nrates as int, labels@, 0, listed_count(ndxpp@))),
        a8_cuttable(rate_mnemonics(ndxpp@, nrates as int, labels@, 1, listed_count(ndxpp@))),
    ensures
        r@ == rate_path_header_spec(name_texts(titler@), ndxpp@, nrates as int, labels@),
{
    let n = listed_rates(ndxpp);
    let mut out: Vec<u8> = Vec::new();
    push_titler_line(&mut out, titler);
    let numbers: Vec<u8> = vec![0x20u8, 0x44, 0x3d, 0x20, 0x30];
    let day: Vec<u8> = vec![0x20u8, 0x44, 0x61, 0x79, 0x20];
    assert(numbers@ =~= rate_numbers_opening());
    assert(day@ =~= day_opening());
    extend(&mut out, numbers.as_slice());
    push_rate_numbers(&mut out, ndxpp, n);
    out.push(0x0a);
    extend(&mut out, day.as_slice());
    push_rate_mnemonics(&mut out, ndxpp, nrates, labels, 0, n);
    out.push(0x0a);
    extend(&mut out, day.as_slice());
    push_rate_mnemonics(&mut out, ndxpp, nrates, labels, 1, n);
    out.push(0x0a);
    proof {
        assert(out@ =~= rate_path_header_spec(
            name_texts(titler@),
            ndxpp@,
            nrates as int,
            labels@,
        ));
    }
    out
}

/// The title line of the reports.
pub fn title_line(titler: &[Vec<u8>]) -> (r: Vec<u8>)
    requires
        a8_cuttable(name_texts(titler@)),
    ensures
        r@ == titler_line(name_texts(titler@)),
{
    let mut out: Vec<u8> = Vec::new();
    push_titler_line(&mut out, titler);
    assert(out@ =~= titler_line(name_texts(titler@)));
    out
}

/// The report of box averages names its columns on its first report
/// (`nnn` 0), and on every report when it goes to the screen with
/// species or family printing switched on.
pub open spec fn average_titles_due_spec(nnn: int, lprt8: bool, lprtx: bool, lprty: bool) -> bool {
    nnn == 0 || (!lprt8 && (lprtx || lprty))
}

/// Executable form of [`average_titles_due_spec`].
pub fn average_titles_due(nnn: i32, lprt8: bool, lprtx: bool, lprty: bool) -> (r: bool)
    ensures
        r == average_titles_due_spec(nnn as int, lprt8, lprtx, lprty),
{
    nnn == 0 || (!lprt8 && (lprtx || lprty))
}

/// Number of averaged columns: the species and families, at least 50.
pub open spec fn average_columns(n_species: int) -> int {
    if n_species > 50 {
        n_species + 1
    } else {
        51
    }
}

/// The column title of species index `idx` in the report of box averages:
/// the species' title cut to 8 bytes and right-aligned in ten characters,
/// ten blanks for an index outside the averaged columns.
pub open spec fn average_title_field(idx: int, titles: Seq<Seq<u8>>, n_species: int) -> Seq<u8> {
    if 0 < idx < average_columns(n_species) {
        let t = titles[idx - 1];
        right_aligned_chars(t.take(a8_cut(t)), 10)
    } else {
        spaces(10)
    }
}

/// The column titles of the first `k` listed species.
pub open spec fn average_title_fields(
    ndxqq: Seq<usize>,
    titles: Seq<Seq<u8>>,
    n_species: int,
    k: int,
) -> Seq<u8>
    decreases k,
{
    if k <= 0 {
        Seq::empty()
    } else {
        average_title_fields(ndxqq, titles, n_species, k - 1) + average_title_field(
            ndxqq[k - 1] as int,
            titles,
            n_species,
        )
    }
}

/// The titles of every listed column exist and can be cut after their 8th
/// byte.
pub open spec fn average_titles_readable(ndxqq: Seq<usize>, titles: Seq<Seq<u8>>, n_species: int) -> bool {
    forall|k: int|
        0 <= k < listed_count(ndxqq) && 0 < #[trigger] ndxqq[k] < average_columns(n_species)
            ==> ndxqq[k] <= titles.len() && at_boundary(
            titles[ndxqq[k] - 1],
            a8_cut(titles[ndxqq[k] - 1]),
        )
}

/// The column title line of the report of box averages: five blanks, then
/// the title of each listed species (`n_species` species and families are
/// averaged, and at least 50 columns).
pub fn average_titles_line(titles: &Vec<Vec<u8>>, ndxqq: &[usize], n_species: usize) -> (r: Vec<u8>)
    requires
        n_species < usize::MAX,
        average_titles_readable(ndxqq@, name_texts(titles@), n_species as int),
    ensures
        r@ == spaces(5) + average_title_fields(
            ndxqq@,
            name_texts(titles@),
            n_species as int,
            listed_count(ndxqq@),
        ) + seq![0x0au8],
{
    let ghost tt = name_texts(titles@);
    let n = listed_rates(ndxqq);
    let limit = if n_species > 50 {
        n_species + 1
    } else {
        51
    };
    let mut out: Vec<u8> = Vec::new();
    pad(&mut out, 5);
    let mut k: usize = 0;
    while k < n
        invariant
            k <= n <= ndxqq.len(),
            n == listed_count(ndxqq@),
            limit == average_columns(n_species as int),
            tt == name_texts(titles@),
            average_titles_readable(ndxqq@, tt, n_species as int),
            out@ == spaces(5) + average_title_fields(ndxqq@, tt, n_species as int, k as int),
        decreases n - k,
    {
        let idx = ndxqq[k];
        if idx > 0 && idx < limit {
            assert(ndxqq@[k as int] <= tt.len());
            let t = titles[idx - 1].as_slice();
            assert(t@ == tt[idx - 1]);
            let cut = if t.len() < 8 {
                t.len()
            } else {
                8
            };
            let c8 = &t[0..cut];
            let c = char_count_exec(c8);
            if c < 10 {
                pad(&mut out, 10 - c);
            } else {
                assert(spaces(10 - c) =~= Seq::<u8>::empty());
                assert(out@ =~= out@ + spaces(10 - c));
            }
            extend(&mut out, c8);
            proof {
                assert(c8@ =~= tt[idx - 1].take(a8_cut(tt[idx - 1])));
            }
        } else {
            pad(&mut out, 10);
        }
        proof {
            assert(out@ =~= spaces(5) + average_title_fields(ndxqq@, tt, n_species as int, k + 1));
        }
        k = k + 1;
    }
    out.push(0x0a);
    out
}

} // verus!
