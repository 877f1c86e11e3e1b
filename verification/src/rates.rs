//! The rate-constant file: a title, a count line (`A10,14I5`: NRATE1,
//! NRATES), then one record per reaction (`5X,I1,1X,I3,2E10.3,5X,5A8`),
//! each followed by as many addition records as its first field announces.
//! The file holds no records for the reactions after NRATE1 and below 201.
use vstd::prelude::*;
use vstd::utf8::valid_utf8;

use crate::lines::{
    line_end, line_start, lemma_line_start_bounds, next_line, raw_line, text_line, LineError,
    LineSource,
};
use crate::species::lemma_short_field;
use crate::text::{
    e_field_at, e_field_of, fixed_i32_field, fixed_i32s, label_at, label_of, opt_view, usize_at,
    usize_field,
};

verus! {

/// Number of reaction rates the model stores.
pub const NR: usize = 264;

/// Number of addition records the model stores.
pub const NADDM: usize = 50;

/// The two numbers of an addition record, as the texts of their fields.
pub struct RateAddition {
    pub rk1: Option<Vec<u8>>,
    pub rk2: Option<Vec<u8>>,
}

/// One reaction record and its additions. The rate constants are given as
/// the texts of their `E10.3` fields ([`e_field_text`]); `None` is a blank
/// field, which reads as zero.
pub struct RateRecord {
    /// Number of addition records that follow (column 6).
    pub nadd: usize,
    pub rk1: Option<Vec<u8>>,
    pub rk2: Option<Vec<u8>>,
    /// The first two labels (columns 36-43 and 44-51), blank when absent.
    pub labels: Vec<Vec<u8>>,
    pub additions: Vec<RateAddition>,
    /// Index of the first addition among all additions of the file.
    pub first_addition: usize,
}

/// The reaction records of the file, by reaction (0-based), and the index
/// table `NDXRAT` of the first addition of each reaction that has any.
pub struct RateRecords {
    pub records: Vec<Option<RateRecord>>,
    pub ndxrat: Vec<i32>,
}

/// The file holds a record for reaction `j` (0-based).
pub open spec fn rate_is_read(nrate1: usize, j: int) -> bool {
    !(nrate1 < j + 1 && j + 1 < 201)
}

/// Number of addition records that a reaction record announces.
pub open spec fn nadd_of(l: Seq<u8>) -> int {
    usize_at(l, 5, 6) as int
}

/// Number of lines that the records of reactions `0..j` take.
pub open spec fn rate_lines_before(d: Seq<u8>, p: int, nrate1: usize, j: int) -> int
    decreases j,
{
    if j <= 0 {
        0
    } else {
        let k = rate_lines_before(d, p, nrate1, j - 1);
        k + if rate_is_read(nrate1, j - 1) {
            1 + nadd_of(text_line(d, p, k as nat))
        } else {
            0
        }
    }
}

/// Number of addition records of reactions `0..j`.
pub open spec fn additions_before(d: Seq<u8>, p: int, nrate1: usize, j: int) -> int
    decreases j,
{
    if j <= 0 {
        0
    } else {
        additions_before(d, p, nrate1, j - 1) + if rate_is_read(nrate1, j - 1) {
            nadd_of(text_line(d, p, rate_lines_before(d, p, nrate1, j - 1) as nat))
        } else {
            0
        }
    }
}

/// `a` is the addition record on line `l`.
pub open spec fn addition_is(a: RateAddition, l: Seq<u8>) -> bool {
    &&& opt_view(a.rk1) == e_field_at(l, 10, 20)
    &&& opt_view(a.rk2) == e_field_at(l, 20, 30)
}

/// `r` is the record of reaction `j` of the records that start at line `p`
/// of `d`.
pub open spec fn record_is(r: RateRecord, d: Seq<u8>, p: int, nrate1: usize, j: int) -> bool {
    let k = rate_lines_before(d, p, nrate1, j);
    let l = text_line(d, p, k as nat);
    &&& r.nadd == nadd_of(l)
    &&& opt_view(r.rk1) == e_field_at(l, 10, 20)
    &&& opt_view(r.rk2) == e_field_at(l, 20, 30)
    &&& r.labels.len() == 2
    &&& r.labels[0]@ == label_at(l, 35, 43)
    &&& r.labels[1]@ == label_at(l, 43, 51)
    &&& r.additions.len() == r.nadd
    &&& forall|i: int|
        0 <= i < r.nadd ==> #[trigger] addition_is(r.additions[i], text_line(d, p, (k + 1 + i) as nat))
    &&& r.first_addition == additions_before(d, p, nrate1, j)
}

/// The index of the first addition of reaction `j`, 0 when it has none.
pub open spec fn ndxrat_of(d: Seq<u8>, p: int, nrate1: usize, nrates: int, j: int) -> int {
    if j < nrates && rate_is_read(nrate1, j) && nadd_of(
        text_line(d, p, rate_lines_before(d, p, nrate1, j) as nat),
    ) > 0 {
        additions_before(d, p, nrate1, j)
    } else {
        0
    }
}

proof fn lemma_nadd_bound(l: Seq<u8>)
    ensures
        0 <= nadd_of(l) <= 99,
{
    lemma_short_field(l, 5, 6);
}

proof fn lemma_rate_counts_grow(d: Seq<u8>, p: int, nrate1: usize, i: int, j: int)
    requires
        0 <= i <= j,
    ensures
        rate_lines_before(d, p, nrate1, i) <= rate_lines_before(d, p, nrate1, j),
        0 <= additions_before(d, p, nrate1, i) <= additions_before(d, p, nrate1, j),
        additions_before(d, p, nrate1, j) <= 99 * j,
    decreases j,
{
    if j > 0 {
        lemma_nadd_bound(text_line(d, p, rate_lines_before(d, p, nrate1, j - 1) as nat));
        if i < j {
            lemma_rate_counts_grow(d, p, nrate1, i, j - 1);
        } else {
            lemma_rate_counts_grow(d, p, nrate1, j - 1, j - 1);
        }
    }
}

/// Read the title and the count line of the file: NRATE1 and NRATES (the
/// first two `I5` fields after a 10-column label, each taken as unsigned
/// with the bits of the `i32` it reads).
pub fn read_rate_header(src: &mut LineSource) -> (r: Result<(usize, usize), LineError>)
    requires
        old(src).wf(),
    ensures
        final(src).wf(),
        final(src).data() == old(src).data(),
        match r {
            Ok((nrate1, nrates)) => {
                let d = old(src).data();
                let p = old(src).position();
                &&& valid_utf8(raw_line(d, p, 0))
                &&& valid_utf8(raw_line(d, p, 1))
                &&& final(src).position() == line_start(d, p, 2)
                &&& nrate1 == fixed_i32_field(text_line(d, p, 1), 10, 5) as usize
                &&& nrates == fixed_i32_field(text_line(d, p, 1), 15, 5) as usize
            },
            Err(_) => !valid_utf8(raw_line(old(src).data(), old(src).position(), 0)) || !valid_utf8(
                raw_line(old(src).data(), old(src).position(), 1),
            ),
        },
{
    let ghost d = src.data();
    let ghost p = src.position();
    let title = next_line(src);
    assert(line_start(d, p, 0) == p);
    assert(line_start(d, p, 1) == line_end(d, p));
    if title.is_err() {
        return Err(LineError::NotUtf8);
    }
    let line = match next_line(src) {
        Ok(l) => l,
        Err(e) => {
            return Err(e);
        },
    };
    assert(line_start(d, p, 2) == line_end(d, line_start(d, p, 1)));
    let ints = fixed_i32s(line.as_slice(), 10, 5, 14);
    let nrate1 = ints[0] as usize;
    let nrates = ints[1] as usize;
    assert(ints[1] == fixed_i32_field(line@, 15, 5));
    Ok((nrate1, nrates))
}

/// Read the reaction records of reactions `0..nrates`, skipping those the
/// file does not hold, with their addition records. Refused at the first
/// line that is not UTF-8 text.
pub fn read_rate_records(src: &mut LineSource, nrate1: usize, nrates: usize) -> (r: Result<
    RateRecords,
    LineError,
>)
    requires
        old(src).wf(),
        nrates <= NR,
    ensures
        final(src).wf(),
        final(src).data() == old(src).data(),
        ({
            let d = old(src).data();
            let p = old(src).position();
            let total = rate_lines_before(d, p, nrate1, nrates as int);
            match r {
                Ok(t) => {
                    &&& forall|k: int| 0 <= k < total ==> #[trigger] valid_utf8(raw_line(d, p, k as nat))
                    &&& final(src).position() == line_start(d, p, total as nat)
                    &&& t.records.len() == nrates
                    &&& forall|j: int|
                        0 <= j < nrates ==> match #[trigger] t.records[j] {
                            Some(rec) => rate_is_read(nrate1, j) && record_is(rec, d, p, nrate1, j),
                            None => !rate_is_read(nrate1, j),
                        }
                    &&& t.ndxrat.len() == NR
                    &&& forall|j: int|
                        0 <= j < NR ==> #[trigger] t.ndxrat[j] == ndxrat_of(d, p, nrate1, nrates as int, j)
                },
                Err(_) => exists|k: int| 0 <= k < total && !#[trigger] valid_utf8(raw_line(d, p, k as nat)),
            }
        }),
{
    let ghost d = src.data();
    let ghost p = src.position();
    let mut records: Vec<Option<RateRecord>> = Vec::new();
    let mut ndxrat: Vec<i32> = Vec::new();
    let mut ndx0: usize = 0;
    let mut j: usize = 0;
    let ghost mut k: int = 0;
    let ghost total = rate_lines_before(d, p, nrate1, nrates as int);
    proof {
        src.lemma_position_in_data();
    }
    while j < nrates
        invariant
            j <= nrates <= NR,
            src.wf(),
            src.data() == d,
            d == old(src).data(),
            p == old(src).position(),
            0 <= p <= d.len(),
            k == rate_lines_before(d, p, nrate1, j as int),
            0 <= k,
            total == rate_lines_before(d, p, nrate1, nrates as int),
            src.position() == line_start(d, p, k as nat),
            ndx0 == additions_before(d, p, nrate1, j as int),
            forall|i: int| 0 <= i < k ==> #[trigger] valid_utf8(raw_line(d, p, i as nat)),
            records.len() == j,
            forall|i: int|
                0 <= i < j ==> match #[trigger] records[i] {
                    Some(rec) => rate_is_read(nrate1, i) && record_is(rec, d, p, nrate1, i),
                    None => !rate_is_read(nrate1, i),
                },
            ndxrat.len() == j,
            forall|i: int| 0 <= i < j ==> #[trigger] ndxrat[i] == ndxrat_of(d, p, nrate1, nrates as int, i),
        decreases nrates - j,
    {
        proof {
            lemma_rate_counts_grow(d, p, nrate1, j as int, nrates as int);
            lemma_rate_counts_grow(d, p, nrate1, j as int + 1, nrates as int);
        }
        if nrate1 < j + 1 && j + 1 < 201 {
            records.push(None);
            ndxrat.push(0);
        } else {
            proof {
                lemma_line_start_bounds(d, p, k as nat);
            }
            let line = match next_line(src) {
                Ok(l) => l,
                Err(e) => {
                    assert(rate_lines_before(d, p, nrate1, j as int + 1) == k + 1 + nadd_of(
                        text_line(d, p, k as nat),
                    ));
                    assert(k < total);
                    assert(!valid_utf8(raw_line(d, p, k as nat)));
                    return Err(e);
                },
            };
            proof {
                assert(line_start(d, p, (k + 1) as nat) == line_end(d, line_start(d, p, k as nat)));
                assert(rate_lines_before(d, p, nrate1, j as int + 1) == k + 1 + nadd_of(line@));
            }
            let nadd = usize_field(line.as_slice(), 5, 6);
            proof {
                lemma_nadd_bound(line@);
            }
            let rk1 = e_field_of(line.as_slice(), 10, 20);
            let rk2 = e_field_of(line.as_slice(), 20, 30);
            let mut labels: Vec<Vec<u8>> = Vec::new();
            labels.push(label_of(line.as_slice(), 35, 43));
            labels.push(label_of(line.as_slice(), 43, 51));
            let mut additions: Vec<RateAddition> = Vec::new();
            let mut a: usize = 0;
            while a < nadd
                invariant
                    a <= nadd <= 99,
                    src.wf(),
                    src.data() == d,
                    d == old(src).data(),
                    p == old(src).position(),
                    total == rate_lines_before(d, p, nrate1, nrates as int),
                    0 <= p <= d.len(),
                    src.position() == line_start(d, p, (k + 1 + a) as nat),
                    k + 1 + nadd <= total,
                    0 <= k,
                    forall|i: int| 0 <= i < k + 1 + a ==> #[trigger] valid_utf8(raw_line(d, p, i as nat)),
                    additions.len() == a,
                    forall|i: int|
                        0 <= i < a ==> #[trigger] addition_is(additions[i], text_line(d, p, (k + 1 + i) as nat)),
                decreases nadd - a,
            {
                proof {
                    lemma_line_start_bounds(d, p, (k + 1 + a) as nat);
                }
                let add = match next_line(src) {
                    Ok(l) => l,
                    Err(e) => {
                        assert(k + 1 + a < total);
                        assert(!valid_utf8(raw_line(d, p, (k + 1 + a) as nat)));
                        return Err(e);
                    },
                };
                proof {
                    assert(line_start(d, p, (k + 1 + a + 1) as nat) == line_end(
                        d,
                        line_start(d, p, (k + 1 + a) as nat),
                    ));
                }
                additions.push(RateAddition { rk1: e_field_of(add.as_slice(), 10, 20), rk2: e_field_of(add.as_slice(), 20, 30) });
                a = a + 1;
            }
            let rec = RateRecord { nadd, rk1, rk2, labels, additions, first_addition: ndx0 };
            if nadd > 0 {
                ndxrat.push(ndx0 as i32);
            } else {
                ndxrat.push(0);
            }
            records.push(Some(rec));
            ndx0 = ndx0 + nadd;
            proof {
                k = k + 1 + nadd;
            }
        }
        j = j + 1;
    }
    while ndxrat.len() < NR
        invariant
            nrates <= ndxrat.len() <= NR,
            forall|i: int| 0 <= i < ndxrat.len() ==> #[trigger] ndxrat[i] == ndxrat_of(d, p, nrate1, nrates as int, i),
        decreases NR - ndxrat.len(),
    {
        ndxrat.push(0);
    }
    Ok(RateRecords { records, ndxrat })
}

} // verus!
