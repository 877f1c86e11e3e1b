//! Fortran list output of integers (`16I5`) and names (`8A8`), as the bytes
//! written to an output unit.
use vstd::prelude::*;

use crate::species::{SpeciesTable, NDEN};
use crate::text::{at_boundary, is_continuation};

verus! {

/// Decimal digits of a natural number, most significant first.
pub open spec fn digits_of(v: nat) -> Seq<u8>
    decreases v,
{
    if v < 10 {
        seq![(0x30 + v) as u8]
    } else {
        digits_of(v / 10).push((0x30 + v % 10) as u8)
    }
}

/// Decimal text of an integer, as `{}` prints it.
pub open spec fn decimal_text(v: int) -> Seq<u8> {
    if v < 0 {
        seq![0x2du8] + digits_of((-v) as nat)
    } else {
        digits_of(v as nat)
    }
}

/// `n` spaces.
pub open spec fn spaces(n: int) -> Seq<u8> {
    Seq::new(if n > 0 { n as nat } else { 0 }, |i: int| 0x20u8)
}

/// An integer right-aligned in a field of 5 columns (`{:5}`, Fortran `I5`
/// without the overflow stars).
pub open spec fn i5_text(v: int) -> Seq<u8> {
    spaces(5 - decimal_text(v).len()) + decimal_text(v)
}

/// The fields of a line of integers.
pub open spec fn i5_fields(vals: Seq<i32>) -> Seq<u8>
    decreases vals.len(),
{
    if vals.len() == 0 {
        Seq::empty()
    } else {
        i5_fields(vals.drop_last()) + i5_text(vals.last() as int)
    }
}

/// Integers written 16 to a line, each line ended by a newline.
pub open spec fn i5_block(vals: Seq<i32>) -> Seq<u8>
    decreases vals.len(),
{
    if vals.len() == 0 {
        Seq::empty()
    } else if vals.len() <= 16 {
        i5_fields(vals) + seq![0x0au8]
    } else {
        i5_fields(vals.take(16)) + seq![0x0au8] + i5_block(vals.skip(16))
    }
}

/// Decimal text of an unsigned value.
pub(crate) fn digits_exec(v: u64) -> (r: Vec<u8>)
    ensures
        r@ == digits_of(v as nat),
    decreases v,
{
    if v < 10 {
        let mut r: Vec<u8> = Vec::new();
        r.push((0x30 + v) as u8);
        r
    } else {
        let mut r = digits_exec(v / 10);
        r.push((0x30 + v % 10) as u8);
        r
    }
}

/// Decimal text of an integer.
pub fn decimal_exec(v: i32) -> (r: Vec<u8>)
    ensures
        r@ == decimal_text(v as int),
{
    if v < 0 {
        let m: i64 = -(v as i64);
        let d = digits_exec(m as u64);
        let mut r: Vec<u8> = Vec::new();
        r.push(0x2d);
        let mut k: usize = 0;
        while k < d.len()
            invariant
                k <= d.len(),
                r@ == seq![0x2du8] + d@.take(k as int),
            decreases d.len() - k,
        {
            r.push(d[k]);
            k = k + 1;
            proof {
                assert(d@.take(k as int) =~= d@.take(k - 1).push(d@[k - 1]));
            }
        }
        assert(d@.take(d.len() as int) =~= d@);
        r
    } else {
        digits_exec(v as u64)
    }
}

/// Append `src` to `dst`.
pub(crate) fn extend(dst: &mut Vec<u8>, src: &[u8])
    ensures
        final(dst)@ == old(dst)@ + src@,
{
    let mut k: usize = 0;
    let ghost d0 = dst@;
    while k < src.len()
        invariant
            k <= src.len(),
            dst@ == d0 + src@.take(k as int),
        decreases src.len() - k,
    {
        dst.push(src[k]);
        k = k + 1;
        proof {
            assert(src@.take(k as int) =~= src@.take(k - 1).push(src@[k - 1]));
        }
    }
    assert(src@.take(src.len() as int) =~= src@);
}

/// Append `n` spaces to `dst`.
pub(crate) fn pad(dst: &mut Vec<u8>, n: usize)
    ensures
        final(dst)@ == old(dst)@ + spaces(n as int),
{
    let mut k: usize = 0;
    let ghost d0 = dst@;
    while k < n
        invariant
            k <= n,
            dst@ == d0 + spaces(k as int),
        decreases n - k,
    {
        dst.push(0x20);
        k = k + 1;
        proof {
            assert(spaces(k as int) =~= spaces(k - 1).push(0x20u8));
        }
    }
}

/// Write `vals` in `16I5` format: 16 integers to a line, each right-aligned
/// in 5 columns, every line ended by a newline; nothing for no values.
pub fn write_i5_line(vals: &[i32]) -> (r: Vec<u8>)
    ensures
        r@ == i5_block(vals@),
    decreases vals.len(),
{
    let n = vals.len();
    if n == 0 {
        return Vec::new();
    }
    let m = if n <= 16 { n } else { 16 };
    let mut out: Vec<u8> = Vec::new();
    let mut k: usize = 0;
    while k < m
        invariant
            k <= m <= n,
            m == (if n <= 16 { n } else { 16 }),
            n == vals@.len(),
            out@ == i5_fields(vals@.take(k as int)),
        decreases m - k,
    {
        let d = decimal_exec(vals[k]);
        if d.len() < 5 {
            pad(&mut out, 5 - d.len());
        } else {
            assert(spaces(5 - d@.len()) =~= Seq::<u8>::empty());
        }
        extend(&mut out, d.as_slice());
        k = k + 1;
        proof {
            let t = vals@.take(k as int);
            assert(t.drop_last() =~= vals@.take(k - 1));
            assert(t.last() == vals@[k - 1]);
            assert(out@ =~= i5_fields(vals@.take(k - 1)) + i5_text(vals@[k - 1] as int));
        }
    }
    out.push(0x0a);
    if n > 16 {
        let rest = write_i5_line(&vals[16..n]);
        extend(&mut out, rest.as_slice());
        assert(vals@.subrange(16, n as int) =~= vals@.skip(16));
    } else {
        assert(vals@.take(n as int) =~= vals@);
    }
    out
}

/// Number of characters of UTF-8 text: its bytes that are not continuation
/// bytes.
pub open spec fn char_count(s: Seq<u8>) -> int
    decreases s.len(),
{
    if s.len() == 0 {
        0
    } else {
        char_count(s.drop_last()) + if is_continuation(s.last()) { 0int } else { 1int }
    }
}

/// Byte length of a name's first 8 bytes (`&v[..v.len().min(8)]`).
pub open spec fn a8_cut(v: Seq<u8>) -> int {
    if v.len() < 8 { v.len() as int } else { 8 }
}

/// A name in a field of 8 columns: its first 8 bytes, left-aligned and
/// padded with spaces to 8 characters (`{:<8}`, Fortran `A8`).
pub open spec fn a8_text(v: Seq<u8>) -> Seq<u8> {
    let t = v.take(a8_cut(v));
    t + spaces(8 - char_count(t))
}

/// The fields of a line of names.
pub open spec fn a8_fields(vals: Seq<Seq<u8>>) -> Seq<u8>
    decreases vals.len(),
{
    if vals.len() == 0 {
        Seq::empty()
    } else {
        a8_fields(vals.drop_last()) + a8_text(vals.last())
    }
}

/// Names written 8 to a line, each line ended by a newline.
pub open spec fn a8_block(vals: Seq<Seq<u8>>) -> Seq<u8>
    decreases vals.len(),
{
    if vals.len() == 0 {
        Seq::empty()
    } else if vals.len() <= 8 {
        a8_fields(vals) + seq![0x0au8]
    } else {
        a8_fields(vals.take(8)) + seq![0x0au8] + a8_block(vals.skip(8))
    }
}

/// The byte texts of a list of names.
pub open spec fn name_texts(v: Seq<Vec<u8>>) -> Seq<Seq<u8>> {
    Seq::new(v.len(), |i: int| v[i]@)
}

/// Every name can be cut after its 8th byte (the cut lies on a character
/// boundary).
pub open spec fn a8_cuttable(vals: Seq<Seq<u8>>) -> bool {
    forall|i: int| 0 <= i < vals.len() ==> at_boundary(#[trigger] vals[i], a8_cut(vals[i]))
}

pub(crate) fn char_count_exec(s: &[u8]) -> (r: usize)
    ensures
        r == char_count(s@),
        r <= s.len(),
{
    let mut c: usize = 0;
    let mut k: usize = 0;
    while k < s.len()
        invariant
            k <= s.len(),
            c <= k,
            c == char_count(s@.take(k as int)),
        decreases s.len() - k,
    {
        if !(0x80 <= s[k] && s[k] <= 0xbf) {
            c = c + 1;
        }
        k = k + 1;
        proof {
            assert(s@.take(k as int).drop_last() =~= s@.take(k - 1));
        }
    }
    assert(s@.take(s.len() as int) =~= s@);
    c
}

/// Append a name cut to its first 8 bytes and left-aligned in 8 columns.
pub(crate) fn push_a8(out: &mut Vec<u8>, v: &[u8])
    ensures
        final(out)@ == old(out)@ + a8_text(v@),
{
    let ghost before = out@;
    let cut = if v.len() < 8 {
        v.len()
    } else {
        8
    };
    let t = &v[0..cut];
    let c = char_count_exec(t);
    extend(out, t);
    if c < 8 {
        pad(out, 8 - c);
    } else {
        assert(spaces(8 - c) =~= Seq::<u8>::empty());
        assert(out@ =~= out@ + spaces(8 - c));
    }
    proof {
        assert(t@ =~= v@.take(a8_cut(v@)));
        assert(out@ =~= before + a8_text(v@));
    }
}

/// Write `vals` in `8A8` format: 8 names to a line, each cut to its first
/// 8 bytes and left-aligned in 8 columns, every line ended by a newline;
/// nothing for no names.
pub fn write_a8_line(vals: &[Vec<u8>]) -> (r: Vec<u8>)
    requires
        a8_cuttable(name_texts(vals@)),
    ensures
        r@ == a8_block(name_texts(vals@)),
    decreases vals.len(),
{
    let ghost vs = name_texts(vals@);
    let n = vals.len();
    if n == 0 {
        assert(vs =~= Seq::<Seq<u8>>::empty());
        return Vec::new();
    }
    let m = if n <= 8 { n } else { 8 };
    let mut out: Vec<u8> = Vec::new();
    let mut k: usize = 0;
    while k < m
        invariant
            k <= m <= n,
            m == (if n <= 8 { n } else { 8 }),
            n == vals@.len(),
            vs == name_texts(vals@),
            out@ == a8_fields(vs.take(k as int)),
        decreases m - k,
    {
        let v = vals[k].as_slice();
        assert(v@ == vs[k as int]);
        let cut = if v.len() < 8 { v.len() } else { 8 };
        let t = &v[0..cut];
        let c = char_count_exec(t);
        extend(&mut out, t);
        if c < 8 {
            pad(&mut out, 8 - c);
        } else {
            assert(spaces(8 - c) =~= Seq::<u8>::empty());
            assert(out@ =~= out@ + spaces(8 - c));
        }
        k = k + 1;
        proof {
            let tk = vs.take(k as int);
            assert(tk.drop_last() =~= vs.take(k - 1));
            assert(tk.last() == vs[k - 1]);
            assert(t@ =~= vs[k - 1].take(a8_cut(vs[k - 1])));
            assert(out@ =~= a8_fields(vs.take(k - 1)) + a8_text(vs[k - 1]));
        }
    }
    out.push(0x0a);
    if n > 8 {
        let rest_vals = &vals[8..n];
        proof {
            assert(name_texts(rest_vals@) =~= vs.skip(8));
        }
        let rest = write_a8_line(rest_vals);
        extend(&mut out, rest.as_slice());
    } else {
        assert(vs.take(n as int) =~= vs);
    }
    out
}

/// Species slots listed in the diurnal output header: the slot of each of
/// the first 30 species, then NTOTX for any further one.
pub open spec fn header_slots(n: Seq<usize>, ntotx: int) -> Seq<i32> {
    Seq::new(ntotx as nat, |j: int| if j < 30 { n[j] as i32 } else { ntotx as i32 })
}

/// Species names listed in the diurnal output header: the names of the
/// first 30 species, then blanks.
pub open spec fn header_names(tname: Seq<Seq<u8>>, ntotx: int) -> Seq<Seq<u8>> {
    Seq::new(ntotx as nat, |j: int| if j < 30 { tname[j] } else { Seq::<u8>::empty() })
}

/// The header of the diurnal output unit: run title; NTOT and NTOTX; the
/// species slots; the species names; NTIMDO; and the clock times of the
/// NTIMDO steps.
pub open spec fn unit7_header_spec(
    titler: Seq<Seq<u8>>,
    ntot: int,
    ntotx: int,
    n: Seq<usize>,
    tname: Seq<Seq<u8>>,
    ntimdo: int,
    nhhmm: Seq<i32>,
) -> Seq<u8> {
    a8_block(titler) + i5_block(seq![ntot as i32, ntotx as i32]) + i5_block(header_slots(n, ntotx))
        + a8_block(header_names(tname, ntotx)) + i5_block(seq![ntimdo as i32]) + i5_block(
        nhhmm.take(ntimdo),
    )
}

/// The header lines that a diurnal run writes to its output unit before the
/// time series: the run title (`5A8`), NTOT and NTOTX, the species slots,
/// the species names, NTIMDO and the step clock times (`16I5`).
pub fn diurn_unit7_header(titler: &[Vec<u8>], table: &SpeciesTable, ntimdo: usize, nhhmm: &[i32]) -> (r: Vec<u8>)
    requires
        table.wf(),
        ntimdo <= nhhmm.len(),
        a8_cuttable(name_texts(titler@)),
        forall|j: int| 0 <= j < 30 ==> at_boundary(#[trigger] table.tname[j]@, a8_cut(table.tname[j]@)),
    ensures
        r@ == unit7_header_spec(
            name_texts(titler@),
            table.ntot as int,
            table.ntotx as int,
            table.n@,
            name_texts(table.tname@),
            ntimdo as int,
            nhhmm@,
        ),
{
    let mut out = write_a8_line(titler);
    let counts: Vec<i32> = vec![table.ntot as i32, table.ntotx as i32];
    let b = write_i5_line(counts.as_slice());
    extend(&mut out, b.as_slice());
    let mut slots: Vec<i32> = Vec::new();
    let mut names: Vec<Vec<u8>> = Vec::new();
    let mut j: usize = 0;
    while j < table.ntotx
        invariant
            j <= table.ntotx,
            table.wf(),
            slots.len() == j,
            names.len() == j,
            forall|k: int| 0 <= k < j ==> #[trigger] slots[k] == header_slots(table.n@, table.ntotx as int)[k],
            forall|k: int| 0 <= k < j ==> (#[trigger] names[k])@ == header_names(name_texts(table.tname@), table.ntotx as int)[k],
        decreases table.ntotx - j,
    {
        if j < 30 {
            slots.push(table.n[j] as i32);
            names.push(vstd::slice::slice_to_vec(table.tname[j].as_slice()));
        } else {
            slots.push(table.ntotx as i32);
            names.push(Vec::new());
        }
        j = j + 1;
    }
    proof {
        assert(slots@ =~= header_slots(table.n@, table.ntotx as int));
        assert(name_texts(names@) =~= header_names(name_texts(table.tname@), table.ntotx as int));
        assert forall|i: int| 0 <= i < names.len() implies at_boundary(
            #[trigger] name_texts(names@)[i],
            a8_cut(name_texts(names@)[i]),
        ) by {
            if i < 30 {
                assert(name_texts(names@)[i] == table.tname[i]@);
            }
        }
    }
    let b = write_i5_line(slots.as_slice());
    extend(&mut out, b.as_slice());
    let b = write_a8_line(names.as_slice());
    extend(&mut out, b.as_slice());
    let nt: Vec<i32> = vec![ntimdo as i32];
    let b = write_i5_line(nt.as_slice());
    extend(&mut out, b.as_slice());
    let b = write_i5_line(&nhhmm[0..ntimdo]);
    extend(&mut out, b.as_slice());
    proof {
        assert(nhhmm@.subrange(0, ntimdo as int) =~= nhhmm@.take(ntimdo as int));
        assert(counts@ =~= seq![table.ntot as i32, table.ntotx as i32]);
        assert(nt@ =~= seq![ntimdo as i32]);
    }
    out
}

} // verus!
