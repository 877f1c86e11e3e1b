//! The value blocks of the climatology files (`3X,11F7.1`, `3X,11F7.4` and
//! `3X,11F8.4`): after three columns, fixed-width fields, as many records
//! as it takes to read the values asked for, or up to the end of the file.
//! The values are handed on as the trimmed texts of their fields.
use vstd::prelude::*;
use vstd::utf8::valid_utf8;

use crate::lines::{
    lemma_line_end_bounds, lemma_line_start_bounds, lemma_line_start_split, line_end, line_start,
    raw_line, read_raw_line, LineSource,
};
use crate::text::{at_boundary, back_ws, is_boundary, texts, trim, trim_end_len, trimmed};

verus! {

/// Why a value block could not be read.
#[derive(Debug, Clone, Copy, PartialEq, Eq)]
pub enum BlockError {
    /// A record is not UTF-8 text.
    NotUtf8,
    /// A record cannot be cut at a field's columns: they fall inside a
    /// character.
    NotAtCharBoundary,
}

/// First column of the values of a raw record: after three columns
/// (`3X`) when `skip3` and the record is longer than three bytes, else 0.
pub open spec fn row_start(raw: Seq<u8>, skip3: bool) -> int {
    if skip3 && raw.len() > 3 {
        3
    } else {
        0
    }
}

/// The part of a raw record (line ending included) that holds values;
/// without its trailing whitespace when `trim_end`. `None` when the record
/// cannot be cut after the three columns.
pub open spec fn block_row(raw: Seq<u8>, skip3: bool, trim_end: bool) -> Option<Seq<u8>> {
    if !at_boundary(raw, row_start(raw, skip3)) {
        None
    } else {
        let r = raw.subrange(row_start(raw, skip3), raw.len() as int);
        Some(
            if trim_end {
                r.subrange(0, back_ws(r, 0, r.len() as int))
            } else {
                r
            },
        )
    }
}

/// The trimmed texts of the fields of width `w` of `row` from `off` on,
/// at most `need` of them; `None` when a field's columns fall inside a
/// character.
pub open spec fn row_fields(row: Seq<u8>, w: int, off: int, need: int) -> Option<Seq<Seq<u8>>>
    decreases row.len() - off,
{
    if need <= 0 || off < 0 || w <= 0 || off + w > row.len() {
        Some(Seq::empty())
    } else if !(at_boundary(row, off) && at_boundary(row, off + w)) {
        None
    } else {
        match row_fields(row, w, off + w, need - 1) {
            Some(rest) => Some(seq![trimmed(row.subrange(off, off + w))] + rest),
            None => None,
        }
    }
}

/// The values of the block that starts at record `k` after position `p`:
/// `need` field texts, or fewer when the file ends first.
pub open spec fn block_from(
    d: Seq<u8>,
    p: int,
    k: nat,
    w: int,
    skip3: bool,
    trim_end: bool,
    need: int,
) -> Result<Seq<Seq<u8>>, BlockError>
    decreases d.len() - line_start(d, p, k),
{
    if need <= 0 || p < 0 || p > d.len() || line_start(d, p, k) >= d.len() {
        Ok(Seq::empty())
    } else if !valid_utf8(raw_line(d, p, k)) {
        Err(BlockError::NotUtf8)
    } else {
        proof {
            lemma_line_start_bounds(d, p, k);
            lemma_line_end_bounds(d, line_start(d, p, k));
        }
        match block_row(raw_line(d, p, k), skip3, trim_end) {
            None => Err(BlockError::NotAtCharBoundary),
            Some(row) => match row_fields(row, w, 0, need) {
                None => Err(BlockError::NotAtCharBoundary),
                Some(fs) => match block_from(d, p, k + 1, w, skip3, trim_end, need - fs.len()) {
                    Ok(rest) => Ok(fs + rest),
                    Err(e) => Err(e),
                },
            },
        }
    }
}

/// The record after a block that starts at record `k` and reads without
/// error (see [`block_from`]).
pub open spec fn block_end(
    d: Seq<u8>,
    p: int,
    k: nat,
    w: int,
    skip3: bool,
    trim_end: bool,
    need: int,
) -> nat
    decreases d.len() - line_start(d, p, k),
{
    if need <= 0 || p < 0 || p > d.len() || line_start(d, p, k) >= d.len() {
        k
    } else if !valid_utf8(raw_line(d, p, k)) {
        k
    } else {
        proof {
            lemma_line_start_bounds(d, p, k);
            lemma_line_end_bounds(d, line_start(d, p, k));
        }
        match block_row(raw_line(d, p, k), skip3, trim_end) {
            None => k,
            Some(row) => match row_fields(row, w, 0, need) {
                None => k,
                Some(fs) => block_end(d, p, k + 1, w, skip3, trim_end, need - fs.len()),
            },
        }
    }
}

proof fn lemma_row_fields_len(row: Seq<u8>, w: int, off: int, need: int)
    ensures
        row_fields(row, w, off, need) matches Some(fs) ==> fs.len() <= if need > 0 {
            need
        } else {
            0
        },
    decreases row.len() - off,
{
    if !(need <= 0 || off < 0 || w <= 0 || off + w > row.len()) {
        lemma_row_fields_len(row, w, off + w, need - 1);
    }
}

/// The fields of one row.
fn fields_of(row: &[u8], w: usize, need: usize) -> (r: Option<Vec<Vec<u8>>>)
    requires
        w >= 1,
    ensures
        match r {
            Some(v) => row_fields(row@, w as int, 0, need as int) == Some(texts(v@)),
            None => row_fields(row@, w as int, 0, need as int) is None,
        },
{
    let n = row.len();
    let mut out: Vec<Vec<u8>> = Vec::new();
    let mut off: usize = 0;
    while out.len() < need && off <= n && n - off >= w
        invariant
            w >= 1,
            n == row@.len(),
            off <= n,
            out.len() <= need,
            row_fields(row@, w as int, 0, need as int) == match row_fields(
                row@,
                w as int,
                off as int,
                need - out.len(),
            ) {
                Some(rest) => Some(texts(out@) + rest),
                None => None::<Seq<Seq<u8>>>,
            },
        decreases n - off,
    {
        if !(is_boundary(row, off) && is_boundary(row, off + w)) {
            return None;
        }
        let f = vstd::slice::slice_to_vec(trim(&row[off..off + w]));
        let ghost before = texts(out@);
        out.push(f);
        proof {
            assert(texts(out@) =~= before.push(f@));
            match row_fields(row@, w as int, off + w, need - out.len()) {
                Some(rest) => {
                    assert(texts(out@) + rest =~= before + (seq![f@] + rest));
                },
                None => {},
            }
        }
        off = off + w;
    }
    proof {
        assert(row_fields(row@, w as int, off as int, need - out.len()) == Some(Seq::<Seq<u8>>::empty()));
        assert(texts(out@) + Seq::<Seq<u8>>::empty() =~= texts(out@));
    }
    Some(out)
}

/// Read a block of `count` values in fields of width `w` (at least one)
/// after three columns, the records' trailing whitespace dropped first
/// when `trim_end`; fewer values when the file ends first.
#[verifier::rlimit(40)]
pub fn read_fixed_block(
    src: &mut LineSource,
    count: usize,
    w: usize,
    skip3: bool,
    trim_end: bool,
) -> (r: Result<Vec<Vec<u8>>, BlockError>)
    requires
        old(src).wf(),
        w >= 1,
    ensures
        final(src).wf(),
        final(src).data() == old(src).data(),
        match r {
            Ok(v) => {
                &&& block_from(
                    old(src).data(),
                    old(src).position(),
                    0,
                    w as int,
                    skip3,
                    trim_end,
                    count as int,
                ) == Ok::<Seq<Seq<u8>>, BlockError>(texts(v@))
                &&& final(src).position() == line_start(
                    old(src).data(),
                    old(src).position(),
                    block_end(
                        old(src).data(),
                        old(src).position(),
                        0,
                        w as int,
                        skip3,
                        trim_end,
                        count as int,
                    ),
                )
            },
            Err(e) => block_from(
                old(src).data(),
                old(src).position(),
                0,
                w as int,
                skip3,
                trim_end,
                count as int,
            ) == Err::<Seq<Seq<u8>>, BlockError>(e),
        },
{
    let ghost d = src.data();
    let ghost p = src.position();
    let ghost mut k: nat = 0;
    proof {
        src.lemma_position_in_data();
    }
    let mut out: Vec<Vec<u8>> = Vec::new();
    while out.len() < count && !src.at_end()
        invariant
            src.wf(),
            src.data() == d,
            d == old(src).data(),
            p == old(src).position(),
            0 <= p <= d.len(),
            w >= 1,
            src.position() == line_start(d, p, k),
            out.len() <= count,
            block_from(d, p, 0, w as int, skip3, trim_end, count as int) == match block_from(
                d,
                p,
                k,
                w as int,
                skip3,
                trim_end,
                count - out.len(),
            ) {
                Ok(rest) => Ok(texts(out@) + rest),
                Err(e) => Err::<Seq<Seq<u8>>, BlockError>(e),
            },
            block_from(d, p, k, w as int, skip3, trim_end, count - out.len()) is Ok ==> block_end(
                d,
                p,
                0,
                w as int,
                skip3,
                trim_end,
                count as int,
            ) == block_end(d, p, k, w as int, skip3, trim_end, count - out.len()),
        decreases d.len() - src.position(),
    {
        proof {
            src.lemma_position_in_data();
            lemma_line_start_bounds(d, p, k);
            lemma_line_end_bounds(d, line_start(d, p, k));
            assert(line_start(d, p, k + 1) == line_end(d, line_start(d, p, k)));
        }
        let raw = match read_raw_line(src) {
            Ok(l) => l,
            Err(_) => {
                return Err(BlockError::NotUtf8);
            },
        };
        let n = raw.len();
        let start: usize = if skip3 && n > 3 {
            3
        } else {
            0
        };
        if !is_boundary(raw.as_slice(), start) {
            return Err(BlockError::NotAtCharBoundary);
        }
        let rest = &raw.as_slice()[start..n];
        let row: &[u8] = if trim_end {
            let e = trim_end_len(rest);
            &rest[0..e]
        } else {
            rest
        };
        proof {
            assert(block_row(raw@, skip3, trim_end) == Some(row@));
        }
        let fs = match fields_of(row, w, count - out.len()) {
            Some(fs) => fs,
            None => {
                return Err(BlockError::NotAtCharBoundary);
            },
        };
        proof {
            lemma_row_fields_len(row@, w as int, 0, count - out.len());
        }
        let ghost added = texts(fs@);
        let ghost before = texts(out@);
        let ghost need = count - out.len();
        proof {
            assert(raw@ == raw_line(d, p, k));
            assert(block_from(d, p, k, w as int, skip3, trim_end, need) == match block_from(
                d,
                p,
                k + 1,
                w as int,
                skip3,
                trim_end,
                need - added.len(),
            ) {
                Ok(r) => Ok(added + r),
                Err(e) => Err::<Seq<Seq<u8>>, BlockError>(e),
            });
            assert(block_end(d, p, k, w as int, skip3, trim_end, need) == block_end(
                d,
                p,
                k + 1,
                w as int,
                skip3,
                trim_end,
                need - added.len(),
            ));
        }
        let mut fs = fs;
        out.append(&mut fs);
        proof {
            assert(texts(out@) =~= before + added);
            match block_from(d, p, k + 1, w as int, skip3, trim_end, need - added.len()) {
                Ok(r) => {
                    assert(before + (added + r) =~= texts(out@) + r);
                },
                Err(_) => {},
            }
            k = k + 1;
        }
    }
    proof {
        if out.len() < count {
            assert(line_start(d, p, k) == d.len());
        }
        assert(texts(out@) + Seq::<Seq<u8>>::empty() =~= texts(out@));
    }
    Ok(out)
}

/// Read a block of `count` values in `3X,11F7.1` (or `F7.4`) records.
pub fn read_f7_block(src: &mut LineSource, count: usize) -> (r: Result<Vec<Vec<u8>>, BlockError>)
    requires
        old(src).wf(),
    ensures
        final(src).wf(),
        final(src).data() == old(src).data(),
        match r {
            Ok(v) => block_from(old(src).data(), old(src).position(), 0, 7, true, false, count as int)
                == Ok::<Seq<Seq<u8>>, BlockError>(texts(v@)),
            Err(e) => block_from(old(src).data(), old(src).position(), 0, 7, true, false, count as int)
                == Err::<Seq<Seq<u8>>, BlockError>(e),
        },
{
    read_fixed_block(src, count, 7, true, false)
}

/// Read a block of `count` values in `3X,11F8.4` records, each record's
/// trailing whitespace dropped first.
pub fn read_f8_block(src: &mut LineSource, count: usize) -> (r: Result<Vec<Vec<u8>>, BlockError>)
    requires
        old(src).wf(),
    ensures
        final(src).wf(),
        final(src).data() == old(src).data(),
        match r {
            Ok(v) => block_from(old(src).data(), old(src).position(), 0, 8, true, true, count as int)
                == Ok::<Seq<Seq<u8>>, BlockError>(texts(v@)),
            Err(e) => block_from(old(src).data(), old(src).position(), 0, 8, true, true, count as int)
                == Err::<Seq<Seq<u8>>, BlockError>(e),
        },
{
    read_fixed_block(src, count, 8, true, true)
}

/// A block read from the start of record `a` is the block read at record
/// `a` counted from `p`.
pub proof fn lemma_block_shift(
    d: Seq<u8>,
    p: int,
    a: nat,
    j: nat,
    w: int,
    skip3: bool,
    trim_end: bool,
    need: int,
)
    requires
        0 <= p <= d.len(),
    ensures
        block_from(d, line_start(d, p, a), j, w, skip3, trim_end, need) == block_from(
            d,
            p,
            a + j,
            w,
            skip3,
            trim_end,
            need,
        ),
        block_end(d, line_start(d, p, a), j, w, skip3, trim_end, need) + a == block_end(
            d,
            p,
            a + j,
            w,
            skip3,
            trim_end,
            need,
        ),
    decreases d.len() - line_start(d, p, a + j),
{
    let q = line_start(d, p, a);
    lemma_line_start_split(d, p, a, j);
    lemma_line_start_bounds(d, p, a);
    lemma_line_start_bounds(d, p, a + j);
    if !(need <= 0 || line_start(d, p, a + j) >= d.len()) && valid_utf8(raw_line(d, p, a + j)) {
        lemma_line_end_bounds(d, line_start(d, p, a + j));
        lemma_line_start_split(d, p, a, j + 1);
        assert(line_start(d, p, a + j + 1) == line_end(d, line_start(d, p, a + j)));
        match block_row(raw_line(d, p, a + j), skip3, trim_end) {
            None => {},
            Some(row) => match row_fields(row, w, 0, need) {
                None => {},
                Some(fs) => {
                    lemma_block_shift(d, p, a, j + 1, w, skip3, trim_end, need - fs.len());
                },
            },
        }
    }
}

} // verus!
