//! The initial mixing ratios of a diurnal run: a title, then for each
//! species a name record and its values, one per box, six `E13.6` fields to
//! a record. A species whose records end early has its first value, or
//! zero, repeated over the remaining boxes; the file may hold fewer species
//! than asked for. Values are handed on as the texts of their fields, with
//! `d`/`D` exponents written `e`.
use vstd::prelude::*;
use vstd::utf8::valid_utf8;

use crate::blocks::{block_end, block_from, read_fixed_block, BlockError};
use crate::lines::{
    lemma_line_end_bounds, lemma_line_start_bounds, lemma_line_start_split, line_end, line_start,
    raw_line, read_raw_line, LineSource,
};
use crate::text::{d_as_e, d_as_e_exec, texts};

verus! {

/// Width of a value field (`E13.6`).
pub const VALUE_WIDTH: usize = 13;

/// The values of a species for `nbox` boxes: those read, then the first of
/// them (or the empty text, which reads as zero) repeated.
pub open spec fn filled(vs: Seq<Seq<u8>>, nbox: int) -> Seq<Seq<u8>> {
    if vs.len() >= nbox {
        vs
    } else {
        let fill = if vs.len() > 0 {
            vs[0]
        } else {
            Seq::<u8>::empty()
        };
        vs + Seq::new((nbox - vs.len()) as nat, |i: int| fill)
    }
}

/// Each text with `d`/`D` written `e`.
pub open spec fn with_e(vs: Seq<Seq<u8>>) -> Seq<Seq<u8>> {
    Seq::new(vs.len(), |i: int| d_as_e(vs[i]))
}

pub proof fn lemma_line_start_grows(d: Seq<u8>, p: int, a: nat, b: nat)
    requires
        0 <= p <= d.len(),
        a <= b,
    ensures
        line_start(d, p, a) <= line_start(d, p, b),
    decreases b - a,
{
    if a < b {
        lemma_line_start_grows(d, p, a, (b - 1) as nat);
        lemma_line_start_bounds(d, p, (b - 1) as nat);
        lemma_line_end_bounds(d, line_start(d, p, (b - 1) as nat));
    }
}

pub proof fn lemma_block_end_after(d: Seq<u8>, p: int, k: nat, w: int, skip3: bool, trim_end: bool, need: int)
    ensures
        block_end(d, p, k, w, skip3, trim_end, need) >= k,
    decreases d.len() - line_start(d, p, k),
{
    if !(need <= 0 || p < 0 || p > d.len() || line_start(d, p, k) >= d.len()) {
        lemma_line_start_bounds(d, p, k);
        lemma_line_end_bounds(d, line_start(d, p, k));
        match crate::blocks::block_row(raw_line(d, p, k), skip3, trim_end) {
            None => {},
            Some(row) => match crate::blocks::row_fields(row, w, 0, need) {
                None => {},
                Some(fs) => {
                    lemma_block_end_after(d, p, k + 1, w, skip3, trim_end, need - fs.len());
                },
            },
        }
    }
}

/// The species read from record `k` on, at most `remaining` of them.
pub open spec fn species_from(d: Seq<u8>, p: int, k: nat, remaining: int, nbox: int) -> Result<
    Seq<Seq<Seq<u8>>>,
    BlockError,
>
    decreases d.len() - line_start(d, p, k),
{
    if remaining <= 0 || p < 0 || p > d.len() || line_start(d, p, k) >= d.len() {
        Ok(Seq::empty())
    } else if !valid_utf8(raw_line(d, p, k)) {
        Err(BlockError::NotUtf8)
    } else {
        let w = VALUE_WIDTH as int;
        match block_from(d, p, k + 1, w, false, true, nbox) {
            Err(e) => Err(e),
            Ok(vs) => {
                let next = block_end(d, p, k + 1, w, false, true, nbox);
                proof {
                    lemma_block_end_after(d, p, k + 1, w, false, true, nbox);
                    lemma_line_start_bounds(d, p, k);
                    lemma_line_end_bounds(d, line_start(d, p, k));
                    assert(line_start(d, p, k + 1) == line_end(d, line_start(d, p, k)));
                    lemma_line_start_grows(d, p, k + 1, next);
                    lemma_line_start_bounds(d, p, next);
                }
                match species_from(d, p, next, remaining - 1, nbox) {
                    Ok(rest) => Ok(seq![filled(with_e(vs), nbox)] + rest),
                    Err(e) => Err(e),
                }
            },
        }
    }
}

/// The species of the file after its title, at most `nddd` of them, each
/// with `nbox` value texts.
pub open spec fn densities_spec(d: Seq<u8>, p: int, nddd: int, nbox: int) -> Result<
    Seq<Seq<Seq<u8>>>,
    BlockError,
> {
    if !valid_utf8(raw_line(d, p, 0)) {
        Err(BlockError::NotUtf8)
    } else {
        species_from(d, p, 1, nddd, nbox)
    }
}

/// The view of the species read.
pub open spec fn species_view(v: Seq<Vec<Vec<u8>>>) -> Seq<Seq<Seq<u8>>> {
    Seq::new(v.len(), |i: int| texts(v[i]@))
}

fn fill_values(vs: Vec<Vec<u8>>, nbox: usize) -> (r: Vec<Vec<u8>>)
    ensures
        texts(r@) == filled(with_e(texts(vs@)), nbox as int),
{
    let mut out: Vec<Vec<u8>> = Vec::new();
    let mut i: usize = 0;
    while i < vs.len()
        invariant
            i <= vs.len(),
            texts(out@) == with_e(texts(vs@)).take(i as int),
        decreases vs.len() - i,
    {
        let v = d_as_e_exec(vs[i].as_slice());
        let ghost before = texts(out@);
        out.push(v);
        proof {
            assert(texts(out@) =~= before.push(v@));
            assert(with_e(texts(vs@)).take(i + 1) =~= with_e(texts(vs@)).take(i as int).push(v@));
        }
        i = i + 1;
    }
    proof {
        assert(with_e(texts(vs@)).take(vs.len() as int) =~= with_e(texts(vs@)));
    }
    let ghost read = texts(out@);
    if out.len() < nbox {
        let fill: Vec<u8> = if out.len() > 0 {
            vstd::slice::slice_to_vec(out[0].as_slice())
        } else {
            Vec::new()
        };
        proof {
            if read.len() > 0 {
                assert(fill@ == read[0]);
            } else {
                assert(fill@ =~= Seq::<u8>::empty());
            }
        }
        let n0 = out.len();
        while out.len() < nbox
            invariant
                n0 <= out.len() <= nbox,
                n0 == read.len(),
                texts(out@) == read + Seq::new((out.len() - n0) as nat, |j: int| fill@),
            decreases nbox - out.len(),
        {
            let ghost before = texts(out@);
            let ghost m = (out.len() - n0) as nat;
            let item = vstd::slice::slice_to_vec(fill.as_slice());
            out.push(item);
            proof {
                assert(texts(out@) =~= before.push(fill@));
                assert(Seq::new(m + 1, |j: int| fill@) =~= Seq::new(m, |j: int| fill@).push(fill@));
                assert(texts(out@) =~= read + Seq::new((out.len() - n0) as nat, |j: int| fill@));
            }
        }
    }
    out
}

/// Read the initial mixing ratios: the title, then up to `nddd` species of
/// `nbox` values each.
pub fn read_initial_densities(src: &mut LineSource, nddd: usize, nbox: usize) -> (r: Result<
    Vec<Vec<Vec<u8>>>,
    BlockError,
>)
    requires
        old(src).wf(),
    ensures
        final(src).wf(),
        final(src).data() == old(src).data(),
        match r {
            Ok(v) => densities_spec(old(src).data(), old(src).position(), nddd as int, nbox as int)
                == Ok::<Seq<Seq<Seq<u8>>>, BlockError>(species_view(v@)),
            Err(e) => densities_spec(old(src).data(), old(src).position(), nddd as int, nbox as int)
                == Err::<Seq<Seq<Seq<u8>>>, BlockError>(e),
        },
{
    let ghost d = src.data();
    let ghost p = src.position();
    proof {
        src.lemma_position_in_data();
        assert(line_start(d, p, 0) == p);
    }
    match read_raw_line(src) {
        Ok(_) => {},
        Err(_) => {
            return Err(BlockError::NotUtf8);
        },
    }
    proof {
        assert(line_start(d, p, 1) == line_end(d, p));
    }
    let ghost mut k: nat = 1;
    let mut out: Vec<Vec<Vec<u8>>> = Vec::new();
    let mut id: usize = 0;
    while id < nddd && !src.at_end()
        invariant
            src.wf(),
            src.data() == d,
            d == old(src).data(),
            p == old(src).position(),
            0 <= p <= d.len(),
            valid_utf8(raw_line(d, p, 0)),
            id <= nddd,
            out.len() == id,
            src.position() == line_start(d, p, k),
            species_from(d, p, 1, nddd as int, nbox as int) == match species_from(
                d,
                p,
                k,
                nddd - id,
                nbox as int,
            ) {
                Ok(rest) => Ok(species_view(out@) + rest),
                Err(e) => Err::<Seq<Seq<Seq<u8>>>, BlockError>(e),
            },
        decreases d.len() - src.position(),
    {
        proof {
            src.lemma_position_in_data();
            lemma_line_start_bounds(d, p, k);
            lemma_line_end_bounds(d, line_start(d, p, k));
            assert(line_start(d, p, k + 1) == line_end(d, line_start(d, p, k)));
        }
        match read_raw_line(src) {
            Ok(_) => {},
            Err(_) => {
                return Err(BlockError::NotUtf8);
            },
        }
        proof {
            crate::blocks::lemma_block_shift(d, p, k + 1, 0, VALUE_WIDTH as int, false, true, nbox as int);
        }
        let vs = match read_fixed_block(src, nbox, VALUE_WIDTH, false, true) {
            Ok(vs) => vs,
            Err(e) => {
                return Err(e);
            },
        };
        let ghost next = block_end(d, p, k + 1, VALUE_WIDTH as int, false, true, nbox as int);
        proof {
            lemma_block_end_after(d, p, k + 1, VALUE_WIDTH as int, false, true, nbox as int);
            lemma_line_start_grows(d, p, k + 1, next);
            lemma_line_start_split(d, p, k + 1, (next - (k + 1)) as nat);
        }
        let filled_vs = fill_values(vs, nbox);
        let ghost before = species_view(out@);
        out.push(filled_vs);
        proof {
            assert(species_view(out@) =~= before.push(texts(filled_vs@)));
            match species_from(d, p, next, nddd - id - 1, nbox as int) {
                Ok(rest) => {
                    assert(species_view(out@) + rest =~= before + (seq![texts(filled_vs@)] + rest));
                },
                Err(_) => {},
            }
            k = next;
            src.lemma_position_in_data();
        }
        id = id + 1;
    }
    proof {
        assert(species_view(out@) + Seq::<Seq<Seq<u8>>>::empty() =~= species_view(out@));
    }
    Ok(out)
}

} // verus!
