//! The run-control file: titles, orbit and solver parameters, the box
//! tables, the rate overrides, the print controls and the long-lived
//! species, in that order. Numbers that the model reads as floats are
//! handed on as the texts they are read from: the words after column 10 of
//! an `A10,7E10.3` line, or the trimmed fields of an `A10,14F5.2` line.
use vstd::prelude::*;
use vstd::utf8::valid_utf8;

use crate::lines::{
    lemma_line_start_split, line_end, line_start, next_line, raw_line, text_line, LineError,
    LineSource,
};
use crate::text::{
    e_field_at, e_field_of, field, field_spec, fixed_i32_field, fixed_i32s, fixed_text_field,
    fixed_texts, fortran_logicals, i32_at, i32_field, is_true_word, label_at, label_of, opt_view,
    split_words, text_at, text_field, texts, usize_at, usize_field, words,
};

verus! {

/// Number of fields of a box-table line (`A5,25I3`).
pub const NBOX_FIELDS: usize = 25;

/// Number of values of a float box-table line (`A10,14F5.2`).
pub const NBOXF_FIELDS: usize = 14;

/// The words after column 10 of a line, `None` when the line has no
/// character boundary at column 10 (the line is too short to slice there).
pub open spec fn tail_words(l: Seq<u8>) -> Option<Seq<Seq<u8>>> {
    match field_spec(l, 10, l.len() as int) {
        Some(t) => Some(words(t)),
        None => None,
    }
}

/// The view of optional words.
pub open spec fn opt_texts(o: Option<Vec<Vec<u8>>>) -> Option<Seq<Seq<u8>>> {
    match o {
        Some(v) => Some(texts(v@)),
        None => None,
    }
}

/// The `i`-th `I5` field after the 10-column label of a line.
pub open spec fn i5_at(l: Seq<u8>, i: int) -> i32 {
    fixed_i32_field(l, 10 + 5 * i, 5)
}

/// The words after column 10 of a line.
fn tail_words_of(l: &[u8]) -> (r: Option<Vec<Vec<u8>>>)
    ensures
        opt_texts(r) == tail_words(l@),
{
    match field(l, 10, l.len()) {
        Some(t) => Some(split_words(t)),
        None => None,
    }
}

/// The title, orbit, solver and count lines that open the file.
pub struct RunHeader {
    /// Five `A8` titles, untrimmed, blank when missing.
    pub titler: Vec<Vec<u8>>,
    /// Labels of the atmosphere and the ozone profile (columns 3-10 and
    /// 13-20), trimmed.
    pub titatm: Vec<u8>,
    pub tito3: Vec<u8>,
    /// XLATD, XDECD, FLSCAL, ZO3COL, DAYSEC, GMU0.
    pub orbit: Option<Vec<Vec<u8>>>,
    /// PN2, PO2, PCO2, ZZHT.
    pub gases: Option<Vec<Vec<u8>>>,
    /// ATIME(2..15) and BTIME(1..14).
    pub atime: Vec<Vec<u8>>,
    pub btime: Vec<Vec<u8>>,
    /// CLOUDS.
    pub clouds: Option<Vec<Vec<u8>>>,
    /// AERSOL(1..6).
    pub aerosol: Option<Vec<Vec<u8>>>,
    /// RAFMIN, RAFMAX, RAFPML, RAFEPS, RAFERR, DAYEPS, DAYERR.
    pub solver: Option<Vec<Vec<u8>>>,
    pub maxraf: usize,
    pub maxrlx: usize,
    pub nlbatm: usize,
    /// Number of rate-override records.
    pub nradd: usize,
    pub nd216: i32,
    /// ND216S, which defaults to ND216 when zero.
    pub nd216s: i32,
    pub nday: i32,
    /// Number of boxes: the magnitude of the NBOX field.
    pub nbox: usize,
    /// Number of boxes read from their own input: one when NBOX is
    /// negative, else all.
    pub n2box: usize,
    pub ndval: i32,
    pub nfval: i32,
    pub nddd: usize,
    pub ndaysd: i32,
}

/// `h` is the header read from the first eleven lines after position `p`.
pub open spec fn run_header_is(h: RunHeader, d: Seq<u8>, p: int) -> bool {
    let l0 = text_line(d, p, 0);
    let l1 = text_line(d, p, 1);
    let l9 = text_line(d, p, 9);
    let l10 = text_line(d, p, 10);
    let raw = i5_at(l10, 1);
    &&& h.titler.len() == 5
    &&& forall|i: int| 0 <= i < 5 ==> #[trigger] h.titler[i]@ == label_at(l0, 8 * i, 8 * i + 8)
    &&& h.titatm@ == text_at(l1, 2, 10)
    &&& h.tito3@ == text_at(l1, 12, 20)
    &&& opt_texts(h.orbit) == tail_words(text_line(d, p, 2))
    &&& opt_texts(h.gases) == tail_words(text_line(d, p, 3))
    &&& h.atime.len() == 14
    &&& forall|i: int|
        0 <= i < 14 ==> #[trigger] h.atime[i]@ == fixed_text_field(
            text_line(d, p, 4),
            10 + 5 * i,
            5,
        )
    &&& h.btime.len() == 14
    &&& forall|i: int|
        0 <= i < 14 ==> #[trigger] h.btime[i]@ == fixed_text_field(
            text_line(d, p, 5),
            10 + 5 * i,
            5,
        )
    &&& opt_texts(h.clouds) == tail_words(text_line(d, p, 6))
    &&& opt_texts(h.aerosol) == tail_words(text_line(d, p, 7))
    &&& opt_texts(h.solver) == tail_words(text_line(d, p, 8))
    &&& h.maxraf == i5_at(l9, 0) as usize
    &&& h.maxrlx == i5_at(l9, 1) as usize
    &&& h.nlbatm == i5_at(l9, 2) as usize
    &&& h.nradd == i5_at(l9, 3) as usize
    &&& h.nd216 == i5_at(l9, 4)
    &&& h.nd216s == if i5_at(l9, 5) == 0 {
        i5_at(l9, 4)
    } else {
        i5_at(l9, 5)
    }
    &&& h.nday == i5_at(l10, 0)
    &&& h.nbox == if raw < 0 {
        -raw
    } else {
        raw as int
    }
    &&& h.n2box == if raw < 0 {
        1
    } else {
        h.nbox
    }
    &&& h.ndval == i5_at(l10, 2)
    &&& h.nfval == i5_at(l10, 3)
    &&& h.nddd == i5_at(l10, 4) as usize
    &&& h.ndaysd == i5_at(l10, 5)
}

/// The number of lines that the header takes.
pub const HEADER_LINES: usize = 11;

/// Read the eleven lines that open the run-control file.
pub fn read_run_header(src: &mut LineSource) -> (r: Result<RunHeader, LineError>)
    requires
        old(src).wf(),
    ensures
        final(src).wf(),
        final(src).data() == old(src).data(),
        match r {
            Ok(h) => {
                &&& run_header_is(h, old(src).data(), old(src).position())
                &&& final(src).position() == line_start(
                    old(src).data(),
                    old(src).position(),
                    HEADER_LINES as nat,
                )
                &&& forall|k: int|
                    0 <= k < HEADER_LINES ==> #[trigger] valid_utf8(
                        raw_line(old(src).data(), old(src).position(), k as nat),
                    )
            },
            Err(_) => exists|k: int|
                0 <= k < HEADER_LINES && !#[trigger] valid_utf8(
                    raw_line(old(src).data(), old(src).position(), k as nat),
                ),
        },
{
    let ghost d = src.data();
    let ghost p = src.position();
    let ls = match crate::lines::read_lines(src, HEADER_LINES) {
        Ok(ls) => ls,
        Err(e) => {
            return Err(e);
        },
    };
    let l0 = ls[0].as_slice();
    let mut titler: Vec<Vec<u8>> = Vec::new();
    let mut i: usize = 0;
    while i < 5
        invariant
            i <= 5,
            titler.len() == i,
            forall|k: int| 0 <= k < i ==> #[trigger] titler[k]@ == label_at(l0@, 8 * k, 8 * k + 8),
        decreases 5 - i,
    {
        titler.push(label_of(l0, 8 * i, 8 * i + 8));
        i = i + 1;
    }
    let l1 = ls[1].as_slice();
    let titatm = vstd::slice::slice_to_vec(text_field(l1, 2, 10));
    let tito3 = vstd::slice::slice_to_vec(text_field(l1, 12, 20));
    let orbit = tail_words_of(ls[2].as_slice());
    let gases = tail_words_of(ls[3].as_slice());
    let atime = fixed_texts(ls[4].as_slice(), 10, 5, 14);
    let btime = fixed_texts(ls[5].as_slice(), 10, 5, 14);
    let clouds = tail_words_of(ls[6].as_slice());
    let aerosol = tail_words_of(ls[7].as_slice());
    let solver = tail_words_of(ls[8].as_slice());
    let a = fixed_i32s(ls[9].as_slice(), 10, 5, 14);
    let b = fixed_i32s(ls[10].as_slice(), 10, 5, 14);
    let raw = b[1];
    let nbox: usize = if raw < 0 {
        (0i64 - raw as i64) as usize
    } else {
        raw as usize
    };
    let n2box: usize = if raw < 0 {
        1
    } else {
        nbox
    };
    let h = RunHeader {
        titler,
        titatm,
        tito3,
        orbit,
        gases,
        atime,
        btime,
        clouds,
        aerosol,
        solver,
        maxraf: a[0] as usize,
        maxrlx: a[1] as usize,
        nlbatm: a[2] as usize,
        nradd: a[3] as usize,
        nd216: a[4],
        nd216s: if a[5] == 0 {
            a[4]
        } else {
            a[5]
        },
        nday: b[0],
        nbox,
        n2box,
        ndval: b[2],
        nfval: b[3],
        nddd: b[4] as usize,
        ndaysd: b[5],
    };
    proof {
        assert(forall|i: int| 0 <= i < 14 ==> #[trigger] a[i] == i5_at(ls[9]@, i));
        assert(forall|i: int| 0 <= i < 14 ==> #[trigger] b[i] == i5_at(ls[10]@, i));
        assert(a[0] == i5_at(ls[9]@, 0));
        assert(a[1] == i5_at(ls[9]@, 1));
        assert(a[2] == i5_at(ls[9]@, 2));
        assert(a[3] == i5_at(ls[9]@, 3));
        assert(a[4] == i5_at(ls[9]@, 4));
        assert(a[5] == i5_at(ls[9]@, 5));
        assert(b[0] == i5_at(ls[10]@, 0));
        assert(b[1] == i5_at(ls[10]@, 1));
        assert(b[2] == i5_at(ls[10]@, 2));
        assert(b[3] == i5_at(ls[10]@, 3));
        assert(b[4] == i5_at(ls[10]@, 4));
        assert(b[5] == i5_at(ls[10]@, 5));
        assert(ls[0]@ == text_line(d, p, 0));
        assert(ls[1]@ == text_line(d, p, 1));
        assert(ls[2]@ == text_line(d, p, 2));
        assert(ls[3]@ == text_line(d, p, 3));
        assert(ls[4]@ == text_line(d, p, 4));
        assert(ls[5]@ == text_line(d, p, 5));
        assert(ls[6]@ == text_line(d, p, 6));
        assert(ls[7]@ == text_line(d, p, 7));
        assert(ls[8]@ == text_line(d, p, 8));
        assert(ls[9]@ == text_line(d, p, 9));
        assert(ls[10]@ == text_line(d, p, 10));
    }
    Ok(h)
}

/// Number of lines a float box table of `nbox` values takes (14 a line).
pub open spec fn box_table_lines(nbox: int) -> int {
    (nbox + 13) / 14
}

/// Value `i` of the float box table whose lines start at line `k` after
/// position `p`.
pub open spec fn box_float_at(d: Seq<u8>, p: int, k: int, i: int) -> Seq<u8> {
    fixed_text_field(text_line(d, p, (k + i / 14) as nat), 10 + 5 * (i % 14), 5)
}

/// The integer and float box tables.
pub struct BoxTables {
    /// BOXDO, BOXWT, BOXPR, BOXCT, BOXMX: the first NBOX of the 25 `I3`
    /// fields after a 5-column label.
    pub nboxdo: Vec<i32>,
    pub nboxwt: Vec<i32>,
    pub nboxpr: Vec<i32>,
    pub nboxct: Vec<i32>,
    pub nboxmx: Vec<i32>,
    /// BOXRN, BOXAA, BOXTT: NBOX `F5.2` texts each, 14 a line.
    pub boxrn: Vec<Vec<u8>>,
    pub boxaa: Vec<Vec<u8>>,
    pub boxtt: Vec<Vec<u8>>,
}

/// `v` holds the first `nbox` (at most 25) box fields of line `l`.
pub open spec fn box_ints_are(v: Seq<i32>, l: Seq<u8>, nbox: int) -> bool {
    &&& v.len() == if nbox < 25 {
        nbox
    } else {
        25
    }
    &&& forall|i: int| 0 <= i < v.len() ==> #[trigger] v[i] == fixed_i32_field(l, 5 + 3 * i, 3)
}

/// `v` is the float box table of `nbox` values at line `k`.
pub open spec fn box_floats_are(v: Seq<Vec<u8>>, d: Seq<u8>, p: int, k: int, nbox: int) -> bool {
    &&& v.len() == nbox
    &&& forall|i: int| 0 <= i < nbox ==> #[trigger] v[i]@ == box_float_at(d, p, k, i)
}

/// Number of lines the box tables take.
pub open spec fn box_lines(nbox: int) -> int {
    5 + 3 * box_table_lines(nbox)
}

/// `t` holds the box tables of `nbox` boxes read from position `p`.
pub open spec fn box_tables_are(t: BoxTables, d: Seq<u8>, p: int, nbox: int) -> bool {
    let m = box_table_lines(nbox);
    &&& box_ints_are(t.nboxdo@, text_line(d, p, 0), nbox)
    &&& box_ints_are(t.nboxwt@, text_line(d, p, 1), nbox)
    &&& box_ints_are(t.nboxpr@, text_line(d, p, 2), nbox)
    &&& box_ints_are(t.nboxct@, text_line(d, p, 3), nbox)
    &&& box_ints_are(t.nboxmx@, text_line(d, p, 4), nbox)
    &&& box_floats_are(t.boxrn@, d, p, 5, nbox)
    &&& box_floats_are(t.boxaa@, d, p, 5 + m, nbox)
    &&& box_floats_are(t.boxtt@, d, p, 5 + 2 * m, nbox)
}

/// The first `nbox` (at most 25) box fields of a line.
fn box_ints(l: &[u8], nbox: usize) -> (r: Vec<i32>)
    ensures
        box_ints_are(r@, l@, nbox as int),
{
    let all = fixed_i32s(l, 5, 3, NBOX_FIELDS);
    let count = if nbox < NBOX_FIELDS {
        nbox
    } else {
        NBOX_FIELDS
    };
    let mut r: Vec<i32> = Vec::new();
    let mut i: usize = 0;
    while i < count
        invariant
            i <= count <= 25,
            all.len() == 25,
            count == if nbox < 25 { nbox } else { 25 },
            r.len() == i,
            forall|k: int| 0 <= k < 25 ==> #[trigger] all[k] == fixed_i32_field(l@, 5 + k * 3, 3),
            forall|k: int| 0 <= k < i ==> #[trigger] r[k] == fixed_i32_field(l@, 5 + 3 * k, 3),
        decreases count - i,
    {
        assert(all[i as int] == fixed_i32_field(l@, 5 + (i as int) * 3, 3));
        r.push(all[i]);
        i = i + 1;
    }
    r
}

/// The lines of the float box tables are read in one piece; this reads the
/// values of one table from its lines.
fn box_floats(ls: &Vec<Vec<u8>>, first: usize, nbox: usize, Ghost(d): Ghost<Seq<u8>>, Ghost(p): Ghost<int>) -> (r: Vec<Vec<u8>>)
    requires
        first + box_table_lines(nbox as int) <= ls.len(),
        forall|k: int| 0 <= k < ls.len() ==> #[trigger] ls[k]@ == text_line(d, p, (5 + k) as nat),
    ensures
        box_floats_are(r@, d, p, 5 + first, nbox as int),
{
    let mut r: Vec<Vec<u8>> = Vec::new();
    let mut i: usize = 0;
    while i < nbox
        invariant
            i <= nbox,
            first + box_table_lines(nbox as int) <= ls.len(),
            forall|k: int| 0 <= k < ls.len() ==> #[trigger] ls[k]@ == text_line(d, p, (5 + k) as nat),
            r.len() == i,
            forall|k: int| 0 <= k < i ==> #[trigger] r[k]@ == box_float_at(d, p, 5 + first, k),
        decreases nbox - i,
    {
        let line_no = i / 14;
        let col = i % 14;
        assert(line_no < box_table_lines(nbox as int)) by (nonlinear_arith)
            requires
                i < nbox,
                line_no == i / 14,
        ;
        let line = ls[first + line_no].as_slice();
        let one = fixed_texts(line, 10 + 5 * col, 5, 1);
        assert(one[0]@ == fixed_text_field(line@, 10 + 5 * col, 5));
        assert(ls[(first + line_no) as int]@ == text_line(d, p, (5 + first + line_no) as nat));
        r.push(one[0].clone());
        proof {
            assert(r[i as int]@ == one[0]@);
        }
        i = i + 1;
    }
    r
}

/// Read the box tables of `nbox` boxes.
pub fn read_box_tables(src: &mut LineSource, nbox: usize) -> (r: Result<BoxTables, LineError>)
    requires
        old(src).wf(),
    ensures
        final(src).wf(),
        final(src).data() == old(src).data(),
        match r {
            Ok(t) => {
                &&& box_tables_are(t, old(src).data(), old(src).position(), nbox as int)
                &&& final(src).position() == line_start(
                    old(src).data(),
                    old(src).position(),
                    box_lines(nbox as int) as nat,
                )
                &&& forall|k: int|
                    0 <= k < box_lines(nbox as int) ==> #[trigger] valid_utf8(
                        raw_line(old(src).data(), old(src).position(), k as nat),
                    )
            },
            Err(_) => exists|k: int|
                0 <= k < box_lines(nbox as int) && !#[trigger] valid_utf8(
                    raw_line(old(src).data(), old(src).position(), k as nat),
                ),
        },
{
    let ghost d = src.data();
    let ghost p = src.position();
    let ints = match crate::lines::read_lines(src, 5) {
        Ok(ls) => ls,
        Err(e) => {
            return Err(e);
        },
    };
    let m = nbox / 14 + if nbox % 14 != 0 {
        1
    } else {
        0
    };
    assert(m == box_table_lines(nbox as int));
    assert(m <= nbox);
    let ghost q = src.position();
    proof {
        lemma_line_start_split(d, p, 5, 0);
    }
    let floats = match crate::lines::read_lines(src, 3 * m) {
        Ok(ls) => ls,
        Err(e) => {
            proof {
                let k = choose|k: int| 0 <= k < 3 * m && !#[trigger] valid_utf8(raw_line(d, q, k as nat));
                lemma_line_start_split(d, p, 5, k as nat);
                assert(raw_line(d, q, k as nat) == raw_line(d, p, (5 + k) as nat));
                assert(!valid_utf8(raw_line(d, p, ((5 + k) as int) as nat)));
            }
            return Err(e);
        },
    };
    proof {
        assert forall|k: int| 0 <= k < floats.len() implies #[trigger] floats[k]@ == text_line(d, p, (5 + k) as nat) by {
            lemma_line_start_split(d, p, 5, k as nat);
        }
        lemma_line_start_split(d, p, 5, (3 * m) as nat);
        assert forall|k: int| 0 <= k < box_lines(nbox as int) implies #[trigger] valid_utf8(raw_line(d, p, k as nat)) by {
            if k >= 5 {
                lemma_line_start_split(d, p, 5, (k - 5) as nat);
                assert(floats[k - 5]@ == text_line(d, q, ((k - 5) as int) as nat));
                assert(raw_line(d, q, (k - 5) as nat) == raw_line(d, p, k as nat));
            } else {
                assert(ints[k]@ == text_line(d, p, k as nat));
            }
        }
    }
    let t = BoxTables {
        nboxdo: box_ints(ints[0].as_slice(), nbox),
        nboxwt: box_ints(ints[1].as_slice(), nbox),
        nboxpr: box_ints(ints[2].as_slice(), nbox),
        nboxct: box_ints(ints[3].as_slice(), nbox),
        nboxmx: box_ints(ints[4].as_slice(), nbox),
        boxrn: box_floats(&floats, 0, nbox, Ghost(d), Ghost(p)),
        boxaa: box_floats(&floats, m, nbox, Ghost(d), Ghost(p)),
        boxtt: box_floats(&floats, 2 * m, nbox, Ghost(d), Ghost(p)),
    };
    Ok(t)
}

/// A rate-override record (`5X,I1,1X,I3,2E10.3`) and its additions.
pub struct RateOverride {
    /// Reaction overridden (0-based): the `I3` field less one, held at 0.
    pub rate: usize,
    /// Number of addition records that follow.
    pub nadd: usize,
    pub rk1: Option<Vec<u8>>,
    pub rk2: Option<Vec<u8>>,
    pub additions: Vec<crate::rates::RateAddition>,
    /// Storage slot of the first addition.
    pub first_slot: usize,
    /// The reaction's `NDXRAT` entry: the first slot, 0 without additions.
    pub ndxrat: i32,
}

/// `o` is the override record at line 0 after `p`, its additions stored
/// from slot `ndx0`.
pub open spec fn override_is(o: RateOverride, d: Seq<u8>, p: int, ndx0: int) -> bool {
    let l = text_line(d, p, 0);
    &&& o.rate == if usize_at(l, 7, 10) > 0 {
        usize_at(l, 7, 10) - 1
    } else {
        0
    }
    &&& o.nadd == usize_at(l, 5, 6)
    &&& opt_view(o.rk1) == e_field_at(l, 10, 20)
    &&& opt_view(o.rk2) == e_field_at(l, 20, 30)
    &&& o.additions.len() == o.nadd
    &&& forall|i: int|
        0 <= i < o.nadd ==> #[trigger] crate::rates::addition_is(
            o.additions[i],
            text_line(d, p, (1 + i) as nat),
        )
    &&& o.first_slot == ndx0
    &&& o.ndxrat == if o.nadd > 0 {
        ndx0
    } else {
        0
    }
}

/// Read one rate-override record and its additions, storing the additions
/// from slot `ndx0`; gives the record and the slot the next record starts
/// from, which lies past twice the additions read.
pub fn read_rate_override(src: &mut LineSource, ndx0: usize) -> (r: Result<
    (RateOverride, usize),
    LineError,
>)
    requires
        old(src).wf(),
        ndx0 <= 0x7000_0000,
    ensures
        final(src).wf(),
        final(src).data() == old(src).data(),
        match r {
            Ok((o, next)) => {
                let d = old(src).data();
                let p = old(src).position();
                &&& override_is(o, d, p, ndx0 as int)
                &&& next == ndx0 + 2 * o.nadd
                &&& final(src).position() == line_start(d, p, (1 + o.nadd) as nat)
                &&& forall|k: int| 0 <= k <= o.nadd ==> #[trigger] valid_utf8(raw_line(d, p, k as nat))
            },
            Err(_) => {
                let d = old(src).data();
                let p = old(src).position();
                exists|k: int|
                    0 <= k <= usize_at(text_line(d, p, 0), 5, 6) && !#[trigger] valid_utf8(
                        raw_line(d, p, k as nat),
                    )
            },
        },
{
    let ghost d = src.data();
    let ghost p = src.position();
    let line = match next_line(src) {
        Ok(l) => l,
        Err(e) => {
            assert(line_start(d, p, 0) == p);
            let ghost w: int = 0;
            assert(!valid_utf8(raw_line(d, p, w as nat)));
            return Err(e);
        },
    };
    proof {
        assert(line_start(d, p, 0) == p);
        assert(line_start(d, p, 1) == line_end(d, p));
        crate::species::lemma_short_field(line@, 5, 6);
    }
    let nadd = usize_field(line.as_slice(), 5, 6);
    let ir = usize_field(line.as_slice(), 7, 10);
    let rk1 = e_field_of(line.as_slice(), 10, 20);
    let rk2 = e_field_of(line.as_slice(), 20, 30);
    let ghost q = src.position();
    let adds = match crate::lines::read_lines(src, nadd) {
        Ok(ls) => ls,
        Err(e) => {
            proof {
                let k = choose|k: int| 0 <= k < nadd && !#[trigger] valid_utf8(raw_line(d, q, k as nat));
                lemma_line_start_split(d, p, 1, k as nat);
                assert(!valid_utf8(raw_line(d, p, ((1 + k) as int) as nat)));
            }
            return Err(e);
        },
    };
    let mut additions: Vec<crate::rates::RateAddition> = Vec::new();
    let mut i: usize = 0;
    while i < nadd
        invariant
            i <= nadd,
            adds.len() == nadd,
            forall|k: int| 0 <= k < nadd ==> #[trigger] adds[k]@ == text_line(d, q, k as nat),
            q == line_start(d, p, 1),
            additions.len() == i,
            forall|k: int|
                0 <= k < i ==> #[trigger] crate::rates::addition_is(
                    additions[k],
                    text_line(d, p, (1 + k) as nat),
                ),
        decreases nadd - i,
    {
        let a = adds[i].as_slice();
        proof {
            lemma_line_start_split(d, p, 1, i as nat);
            assert(adds[i as int]@ == text_line(d, q, (i as int) as nat));
        }
        additions.push(crate::rates::RateAddition { rk1: e_field_of(a, 10, 20), rk2: e_field_of(a, 20, 30) });
        i = i + 1;
    }
    proof {
        lemma_line_start_split(d, p, 1, nadd as nat);
        assert forall|k: int| 0 <= k <= nadd implies #[trigger] valid_utf8(raw_line(d, p, k as nat)) by {
            if k >= 1 {
                lemma_line_start_split(d, p, 1, (k - 1) as nat);
                assert(adds[k - 1]@ == text_line(d, q, ((k - 1) as int) as nat));
            }
        }
    }
    let o = RateOverride {
        rate: if ir > 0 {
            ir - 1
        } else {
            0
        },
        nadd,
        rk1,
        rk2,
        additions,
        first_slot: ndx0,
        ndxrat: if nadd > 0 {
            ndx0 as i32
        } else {
            0
        },
    };
    Ok((o, ndx0 + 2 * nadd))
}

/// The print controls and the long-lived block header that follow the
/// rate overrides.
pub struct RunTail {
    /// DIFFC, XDMAX, ZSHEAR, DIFFAC.
    pub diffusion: Option<Vec<Vec<u8>>>,
    /// NDXPP and NDXQQ: 25 `I3` fields each, taken as unsigned.
    pub ndxpp: Vec<usize>,
    pub ndxqq: Vec<usize>,
    /// NPRT1, NPRT2, NPRTRR, ITPRTX, ITPRTR, NPSTD, ITPRTB.
    pub prints: Vec<i32>,
    /// LPRT, LPRTX, LPRTJV, LPRTY, LPRT8.
    pub flags: Vec<bool>,
    /// Count given by the long-lived block's header (columns 9-10).
    pub nfl_header: usize,
}

/// Number of lines the tail takes.
pub const TAIL_LINES: usize = 6;

/// `t` is the tail read from the six lines after `p`.
pub open spec fn run_tail_is(t: RunTail, d: Seq<u8>, p: int) -> bool {
    &&& opt_texts(t.diffusion) == tail_words(text_line(d, p, 0))
    &&& t.ndxpp.len() == 25
    &&& forall|i: int|
        0 <= i < 25 ==> #[trigger] t.ndxpp[i] == fixed_i32_field(text_line(d, p, 1), 5 + 3 * i, 3) as usize
    &&& t.ndxqq.len() == 25
    &&& forall|i: int|
        0 <= i < 25 ==> #[trigger] t.ndxqq[i] == fixed_i32_field(text_line(d, p, 2), 5 + 3 * i, 3) as usize
    &&& t.prints.len() == 7
    &&& forall|i: int| 0 <= i < 7 ==> #[trigger] t.prints[i] == i5_at(text_line(d, p, 3), i)
    &&& t.flags.len() == 5
    &&& forall|i: int|
        0 <= i < 5 ==> #[trigger] t.flags[i] == (i < words(text_line(d, p, 4)).len() && is_true_word(
            words(text_line(d, p, 4))[i],
        ))
    &&& t.nfl_header == usize_at(text_line(d, p, 5), 8, 10)
}

/// The fields of a box-index line, as unsigned numbers.
fn index_fields(l: &[u8]) -> (r: Vec<usize>)
    ensures
        r.len() == 25,
        forall|i: int| 0 <= i < 25 ==> #[trigger] r[i] == fixed_i32_field(l@, 5 + 3 * i, 3) as usize,
{
    let all = fixed_i32s(l, 5, 3, 25);
    let mut r: Vec<usize> = Vec::new();
    let mut i: usize = 0;
    while i < 25
        invariant
            i <= 25,
            all.len() == 25,
            forall|k: int| 0 <= k < 25 ==> #[trigger] all[k] == fixed_i32_field(l@, 5 + k * 3, 3),
            r.len() == i,
            forall|k: int| 0 <= k < i ==> #[trigger] r[k] == fixed_i32_field(l@, 5 + 3 * k, 3) as usize,
        decreases 25 - i,
    {
        assert(all[i as int] == fixed_i32_field(l@, 5 + (i as int) * 3, 3));
        r.push(all[i] as usize);
        i = i + 1;
    }
    r
}

/// Read the six lines after the rate overrides.
pub fn read_run_tail(src: &mut LineSource) -> (r: Result<RunTail, LineError>)
    requires
        old(src).wf(),
    ensures
        final(src).wf(),
        final(src).data() == old(src).data(),
        match r {
            Ok(t) => {
                &&& run_tail_is(t, old(src).data(), old(src).position())
                &&& final(src).position() == line_start(
                    old(src).data(),
                    old(src).position(),
                    TAIL_LINES as nat,
                )
                &&& forall|k: int|
                    0 <= k < TAIL_LINES ==> #[trigger] valid_utf8(
                        raw_line(old(src).data(), old(src).position(), k as nat),
                    )
            },
            Err(_) => exists|k: int|
                0 <= k < TAIL_LINES && !#[trigger] valid_utf8(
                    raw_line(old(src).data(), old(src).position(), k as nat),
                ),
        },
{
    let ghost d = src.data();
    let ghost p = src.position();
    let ls = match crate::lines::read_lines(src, TAIL_LINES) {
        Ok(ls) => ls,
        Err(e) => {
            return Err(e);
        },
    };
    let ints = fixed_i32s(ls[3].as_slice(), 10, 5, 14);
    let mut prints: Vec<i32> = Vec::new();
    let mut i: usize = 0;
    while i < 7
        invariant
            i <= 7,
            ints.len() == 14,
            forall|k: int| 0 <= k < 14 ==> #[trigger] ints[k] == fixed_i32_field(ls[3]@, 10 + k * 5, 5),
            prints.len() == i,
            forall|k: int| 0 <= k < i ==> #[trigger] prints[k] == i5_at(ls[3]@, k),
        decreases 7 - i,
    {
        assert(ints[i as int] == fixed_i32_field(ls[3]@, 10 + (i as int) * 5, 5));
        prints.push(ints[i]);
        i = i + 1;
    }
    let t = RunTail {
        diffusion: tail_words_of(ls[0].as_slice()),
        ndxpp: index_fields(ls[1].as_slice()),
        ndxqq: index_fields(ls[2].as_slice()),
        prints,
        flags: fortran_logicals(ls[4].as_slice(), 5),
        nfl_header: usize_field(ls[5].as_slice(), 8, 10),
    };
    proof {
        assert(ls[0]@ == text_line(d, p, 0));
        assert(ls[1]@ == text_line(d, p, 1));
        assert(ls[2]@ == text_line(d, p, 2));
        assert(ls[3]@ == text_line(d, p, 3));
        assert(ls[4]@ == text_line(d, p, 4));
        assert(ls[5]@ == text_line(d, p, 5));
    }
    Ok(t)
}

/// A long-lived species record (`A8,I2,2I5`).
pub struct LongLived {
    /// Name (columns 1-8), trimmed.
    pub name: Vec<u8>,
    /// Index the record gives itself (columns 9-10).
    pub index: usize,
    /// NFLO (columns 11-15).
    pub nflo: i32,
    /// Diffusion flag (columns 16-20).
    pub jx: i32,
}

/// `r` is the long-lived record on line `l`.
pub open spec fn long_lived_is(r: LongLived, l: Seq<u8>) -> bool {
    &&& r.name@ == text_at(l, 0, 8)
    &&& r.index == usize_at(l, 8, 10)
    &&& r.nflo == i32_at(l, 10, 15)
    &&& r.jx == i32_at(l, 15, 20)
}

/// Read `nfl` long-lived species records.
pub fn read_long_lived(src: &mut LineSource, nfl: usize) -> (r: Result<Vec<LongLived>, LineError>)
    requires
        old(src).wf(),
    ensures
        final(src).wf(),
        final(src).data() == old(src).data(),
        match r {
            Ok(v) => {
                &&& v.len() == nfl
                &&& forall|i: int|
                    0 <= i < nfl ==> #[trigger] long_lived_is(
                        v[i],
                        text_line(old(src).data(), old(src).position(), i as nat),
                    )
                &&& final(src).position() == line_start(
                    old(src).data(),
                    old(src).position(),
                    nfl as nat,
                )
                &&& lines_valid(old(src).data(), old(src).position(), nfl as int)
            },
            Err(_) => exists|k: int|
                0 <= k < nfl && !#[trigger] valid_utf8(
                    raw_line(old(src).data(), old(src).position(), k as nat),
                ),
        },
{
    let ls = match crate::lines::read_lines(src, nfl) {
        Ok(ls) => ls,
        Err(e) => {
            return Err(e);
        },
    };
    proof {
        assert forall|k: int| 0 <= k < nfl implies #[trigger] valid_utf8(
            raw_line(old(src).data(), old(src).position(), k as nat),
        ) by {
            assert(ls[k]@ == text_line(old(src).data(), old(src).position(), k as nat));
        }
    }
    let mut v: Vec<LongLived> = Vec::new();
    let mut i: usize = 0;
    while i < nfl
        invariant
            i <= nfl,
            ls.len() == nfl,
            forall|k: int|
                0 <= k < nfl ==> #[trigger] ls[k]@ == text_line(old(src).data(), old(src).position(), k as nat),
            v.len() == i,
            forall|k: int|
                0 <= k < i ==> #[trigger] long_lived_is(
                    v[k],
                    text_line(old(src).data(), old(src).position(), k as nat),
                ),
        decreases nfl - i,
    {
        let l = ls[i].as_slice();
        v.push(
            LongLived {
                name: vstd::slice::slice_to_vec(text_field(l, 0, 8)),
                index: usize_field(l, 8, 10),
                nflo: i32_field(l, 10, 15),
                jx: i32_field(l, 15, 20),
            },
        );
        i = i + 1;
    }
    Ok(v)
}

/// Read the implicit-radical block: its header line and the NTOTX records
/// it announces (see [`crate::species::SpeciesTable::read_radicals`]).
pub fn read_radical_block(src: &mut LineSource) -> (r: Result<(Vec<u8>, Vec<Vec<u8>>), LineError>)
    requires
        old(src).wf(),
    ensures
        final(src).wf(),
        final(src).data() == old(src).data(),
        match r {
            Ok((h, ls)) => {
                let d = old(src).data();
                let p = old(src).position();
                &&& h@ == text_line(d, p, 0)
                &&& ls.len() == crate::species::radical_count(h@)
                &&& forall|i: int| 0 <= i < ls.len() ==> #[trigger] ls[i]@ == text_line(d, p, (1 + i) as nat)
                &&& final(src).position() == line_start(d, p, (1 + ls.len()) as nat)
                &&& lines_valid(d, p, ls.len() + 1)
            },
            Err(_) => {
                let d = old(src).data();
                let p = old(src).position();
                exists|k: int|
                    0 <= k <= crate::species::radical_count(text_line(d, p, 0)) && !#[trigger] valid_utf8(
                        raw_line(d, p, k as nat),
                    )
            },
        },
{
    let ghost d = src.data();
    let ghost p = src.position();
    let header = match next_line(src) {
        Ok(l) => l,
        Err(e) => {
            assert(line_start(d, p, 0) == p);
            let ghost w: int = 0;
            assert(!valid_utf8(raw_line(d, p, w as nat)));
            return Err(e);
        },
    };
    proof {
        assert(line_start(d, p, 0) == p);
        assert(line_start(d, p, 1) == line_end(d, p));
    }
    let ntotx = crate::species::count_radicals(header.as_slice());
    let ghost q = src.position();
    let ls = match crate::lines::read_lines(src, ntotx) {
        Ok(ls) => ls,
        Err(e) => {
            proof {
                let k = choose|k: int| 0 <= k < ntotx && !#[trigger] valid_utf8(raw_line(d, q, k as nat));
                lemma_line_start_split(d, p, 1, k as nat);
                assert(!valid_utf8(raw_line(d, p, ((1 + k) as int) as nat)));
            }
            return Err(e);
        },
    };
    proof {
        assert forall|i: int| 0 <= i < ls.len() implies #[trigger] ls[i]@ == text_line(d, p, (1 + i) as nat) by {
            lemma_line_start_split(d, p, 1, i as nat);
        }
        lemma_line_start_split(d, p, 1, ntotx as nat);
        assert forall|k: int| 0 <= k < ls.len() + 1 implies #[trigger] valid_utf8(raw_line(d, p, k as nat)) by {
            if k == 0 {
                assert(raw_line(d, p, 0) == raw_line(d, p, k as nat));
            } else {
                lemma_line_start_split(d, p, 1, (k - 1) as nat);
                assert(ls[k - 1]@ == text_line(d, q, (k - 1) as nat));
                assert(valid_utf8(raw_line(d, q, (k - 1) as nat)));
            }
        }
    }
    Ok((header, ls))
}

/// Number of boxes the model's tables hold.
pub const NB_BOXES: usize = 25;

/// Size of the long-lived name table.
pub const NFL_MAX: usize = 20;

/// Number of per-species diffusion flags: every species of the files.
pub const NSPEC_FLAGS: usize = 59;

/// Why the run-control file could not be read.
#[derive(Debug, Clone, Copy, PartialEq, Eq)]
pub enum ControlError {
    /// A line is not UTF-8 text.
    NotUtf8,
    /// More boxes than the model's tables hold.
    TooManyBoxes,
    /// A rate override names a reaction beyond the rate table.
    RateBeyondTable,
    /// A rate override stores additions beyond the addition table.
    AdditionBeyondTable,
    /// The long-lived species do not fit the name and diffusion tables.
    TooManyLongLived,
    /// A radical record names a slot beyond the implicit species.
    SlotBeyondTable,
    /// More slow species than the model solves for.
    TooManySlow,
    /// The radical records do not name each species once.
    Checksum,
}

/// What the run-control file sets up, in the order of the file.
pub struct RunControl {
    pub header: RunHeader,
    pub boxes: BoxTables,
    pub overrides: Vec<RateOverride>,
    /// The addition slot after the last override.
    pub next_slot: usize,
    pub tail: RunTail,
    pub long_lived: Vec<LongLived>,
    /// The radical block's header line and records.
    pub block_header: Vec<u8>,
    pub block: Vec<Vec<u8>>,
    /// The species table laid out from the radical records.
    pub table: crate::species::SpeciesTable,
}

/// Lines `0..n` after `p` are UTF-8 text.
pub open spec fn lines_valid(d: Seq<u8>, p: int, n: int) -> bool {
    forall|k: int| 0 <= k < n ==> #[trigger] valid_utf8(raw_line(d, p, k as nat))
}

/// The header's count fields.
pub open spec fn header_nbox(d: Seq<u8>, p: int) -> int {
    let raw = i5_at(text_line(d, p, 10), 1);
    if raw < 0 {
        -raw
    } else {
        raw as int
    }
}

pub open spec fn header_nradd(d: Seq<u8>, p: int) -> int {
    i5_at(text_line(d, p, 9), 3) as usize as int
}

pub open spec fn header_ndval(d: Seq<u8>, p: int) -> int {
    i5_at(text_line(d, p, 10), 2) as int
}

pub open spec fn header_nfval(d: Seq<u8>, p: int) -> int {
    i5_at(text_line(d, p, 10), 3) as int
}

/// Additions of the override record at `q`.
pub open spec fn override_nadd(d: Seq<u8>, q: int) -> int {
    usize_at(text_line(d, q, 0), 5, 6) as int
}

/// Reaction (0-based) of the override record at `q`.
pub open spec fn override_rate(d: Seq<u8>, q: int) -> int {
    let v = usize_at(text_line(d, q, 0), 7, 10);
    if v > 0 {
        v - 1
    } else {
        0
    }
}

/// Reading `k` override records from `p`, additions stored from slot
/// `ndx`: the start of the next record and the next slot, or the error.
pub open spec fn overrides_run(d: Seq<u8>, p: int, ndx: int, k: nat) -> Result<(int, int), ControlError>
    decreases k,
{
    if k == 0 {
        Ok((p, ndx))
    } else {
        match overrides_run(d, p, ndx, (k - 1) as nat) {
            Err(e) => Err(e),
            Ok((q, nd)) => {
                let nadd = override_nadd(d, q);
                if !lines_valid(d, q, nadd + 1) {
                    Err(ControlError::NotUtf8)
                } else if override_rate(d, q) >= crate::rates::NR {
                    Err(ControlError::RateBeyondTable)
                } else if nadd > 0 && nd + nadd > crate::rates::NADDM {
                    Err(ControlError::AdditionBeyondTable)
                } else {
                    Ok((line_start(d, q, (1 + nadd) as nat), nd + 2 * nadd))
                }
            },
        }
    }
}

/// The long-lived species do not fit: some of them, with an NDVAL that is
/// negative, or more than the name table, or past the diffusion flags.
pub open spec fn long_lived_overflow(ndval: int, nfval: int) -> bool {
    nfval < 0 || (nfval > 0 && (ndval < 0 || nfval > NFL_MAX || ndval + nfval > NSPEC_FLAGS))
}

/// The slots of a fresh table.
pub open spec fn zero_slots() -> Seq<usize> {
    Seq::new((crate::species::NDEN + 1) as nat, |j: int| 0usize)
}

/// Where the parts of the file start, once the header, the boxes and the
/// overrides are read.
pub open spec fn boxes_start(d: Seq<u8>, p: int) -> int {
    line_start(d, p, HEADER_LINES as nat)
}

pub open spec fn overrides_start(d: Seq<u8>, p: int) -> int {
    line_start(d, boxes_start(d, p), box_lines(header_nbox(d, p)) as nat)
}

/// Why the run-control file cannot be read, if it can't: the checks in the
/// order of the file.
pub open spec fn control_failure(d: Seq<u8>, p: int) -> Option<ControlError> {
    if !lines_valid(d, p, HEADER_LINES as int) {
        Some(ControlError::NotUtf8)
    } else if !lines_valid(d, boxes_start(d, p), box_lines(header_nbox(d, p))) {
        Some(ControlError::NotUtf8)
    } else if header_nbox(d, p) > NB_BOXES {
        Some(ControlError::TooManyBoxes)
    } else {
        match overrides_run(d, overrides_start(d, p), 0, header_nradd(d, p) as nat) {
            Err(e) => Some(e),
            Ok((q, _)) => if !lines_valid(d, q, TAIL_LINES as int) {
                Some(ControlError::NotUtf8)
            } else if long_lived_overflow(header_ndval(d, p), header_nfval(d, p)) {
                Some(ControlError::TooManyLongLived)
            } else {
                let q2 = line_start(d, q, TAIL_LINES as nat);
                let nfl = header_nfval(d, p);
                let q3 = line_start(d, q2, nfl as nat);
                let nrec = crate::species::radical_count(text_line(d, q3, 0)) as int;
                let ls = Seq::new(nrec as nat, |i: int| text_line(d, q3, (1 + i) as nat));
                if !lines_valid(d, q2, nfl) || !lines_valid(d, q3, nrec + 1) {
                    Some(ControlError::NotUtf8)
                } else if crate::species::count_slow(ls, nrec) <= crate::species::NSLOWM
                    && !crate::species::radicals_fit(zero_slots(), ls) {
                    Some(ControlError::SlotBeyondTable)
                } else if crate::species::count_slow(ls, nrec) > crate::species::NSLOWM {
                    Some(ControlError::TooManySlow)
                } else if crate::species::jx_sum(ls, nrec) != nrec * (nrec + 1) / 2 {
                    Some(ControlError::Checksum)
                } else {
                    None
                }
            },
        }
    }
}

/// The records of the radical block of the run-control file at `p`, and
/// their count (the `I2` after the block's `A8` title).
pub open spec fn radical_records(d: Seq<u8>, p: int) -> (Seq<Seq<u8>>, int) {
    match overrides_run(d, overrides_start(d, p), 0, header_nradd(d, p) as nat) {
        Ok((q, _)) => {
            let q2 = line_start(d, q, TAIL_LINES as nat);
            let q3 = line_start(d, q2, header_nfval(d, p) as nat);
            let nrec = crate::species::radical_count(text_line(d, q3, 0)) as int;
            (Seq::new(nrec as nat, |i: int| text_line(d, q3, (1 + i) as nat)), nrec)
        },
        Err(_) => (Seq::empty(), 0),
    }
}

/// The run-control file at `p` reads without fault up to its radical
/// block, and the block's species numbers fit the species table.
pub open spec fn reaches_radical_block(d: Seq<u8>, p: int) -> bool {
    &&& lines_valid(d, p, HEADER_LINES as int)
    &&& lines_valid(d, boxes_start(d, p), box_lines(header_nbox(d, p)))
    &&& header_nbox(d, p) <= NB_BOXES
    &&& match overrides_run(d, overrides_start(d, p), 0, header_nradd(d, p) as nat) {
        Ok((q, _)) => {
            let q2 = line_start(d, q, TAIL_LINES as nat);
            let q3 = line_start(d, q2, header_nfval(d, p) as nat);
            let (ls, nrec) = radical_records(d, p);
            &&& lines_valid(d, q, TAIL_LINES as int)
            &&& !long_lived_overflow(header_ndval(d, p), header_nfval(d, p))
            &&& lines_valid(d, q2, header_nfval(d, p))
            &&& lines_valid(d, q3, nrec + 1)
            &&& crate::species::radicals_fit(zero_slots(), ls)
        },
        Err(_) => false,
    }
}

/// A run-control file that reads well up to its radical block fails
/// exactly when the block has more slow species than the model allows,
/// or its species numbers do not sum to `k (k + 1) / 2` for `k` records;
/// the slow-species count is checked first.
pub proof fn law_radical_block_decides_failure(d: Seq<u8>, p: int)
    requires
        reaches_radical_block(d, p),
    ensures
        ({
            let (ls, k) = radical_records(d, p);
            let slow = crate::species::count_slow(ls, k) > crate::species::NSLOWM;
            let sum_off = crate::species::jx_sum(ls, k) != (k + k * k) / 2;
            &&& control_failure(d, p) is Some <==> slow || sum_off
            &&& slow ==> control_failure(d, p) == Some(ControlError::TooManySlow)
            &&& !slow && sum_off ==> control_failure(d, p) == Some(ControlError::Checksum)
        }),
{
    let (ls, k) = radical_records(d, p);
    assert(k * (k + 1) == k + k * k) by (nonlinear_arith);
}

/// `o` is override record `j` read from `p`.
pub open spec fn override_at(d: Seq<u8>, p: int, j: int, o: RateOverride) -> bool {
    match overrides_run(d, p, 0, j as nat) {
        Ok((q, nd)) => override_is(o, d, q, nd),
        Err(_) => false,
    }
}

/// `c` is what the run-control file at `p` sets up.
pub open spec fn run_control_is(c: RunControl, d: Seq<u8>, p: int) -> bool {
    &&& control_failure(d, p) is None
    &&& run_header_is(c.header, d, p)
    &&& box_tables_are(c.boxes, d, boxes_start(d, p), header_nbox(d, p))
    &&& c.overrides.len() == header_nradd(d, p)
    &&& forall|k: int|
        0 <= k < c.overrides.len() ==> override_at(d, overrides_start(d, p), k, #[trigger] c.overrides[k])
    &&& match overrides_run(d, overrides_start(d, p), 0, header_nradd(d, p) as nat) {
        Ok((q, nd)) => {
            let q2 = line_start(d, q, TAIL_LINES as nat);
            let q3 = line_start(d, q2, header_nfval(d, p) as nat);
            &&& c.next_slot == nd
            &&& run_tail_is(c.tail, d, q)
            &&& c.long_lived.len() == header_nfval(d, p)
            &&& forall|i: int|
                0 <= i < c.long_lived.len() ==> #[trigger] long_lived_is(
                    c.long_lived[i],
                    text_line(d, q2, i as nat),
                )
            &&& c.block_header@ == text_line(d, q3, 0)
            &&& c.block.len() == crate::species::radical_count(c.block_header@)
            &&& forall|i: int|
                0 <= i < c.block.len() ==> #[trigger] c.block[i]@ == text_line(d, q3, (1 + i) as nat)
        },
        Err(_) => false,
    }
    &&& exists|o: crate::species::SpeciesTable|
        #[trigger] o.wf() && o.ntsav@ == zero_slots() && crate::species::radicals_read(
            o,
            c.table,
            texts(c.block@),
            c.block.len() as int,
        )
}

/// Read the run-control file: the header, the box tables, the rate
/// overrides (their additions stored one after another from slot 0), the
/// print controls, the long-lived species (as many as NFVAL) and the radical
/// block, then lay out the species table from the radical records. Where
/// the model's tables would overflow, the read stops with an error.
pub fn read_run_control(src: &mut LineSource) -> (r: Result<RunControl, ControlError>)
    requires
        old(src).wf(),
    ensures
        final(src).wf(),
        final(src).data() == old(src).data(),
        match r {
            Ok(c) => run_control_is(c, old(src).data(), old(src).position()),
            Err(e) => control_failure(old(src).data(), old(src).position()) == Some(e),
        },
{
    let ghost d = src.data();
    let ghost p = src.position();
    let header = match read_run_header(src) {
        Ok(h) => h,
        Err(_) => {
            return Err(ControlError::NotUtf8);
        },
    };
    proof {
        assert(lines_valid(d, p, HEADER_LINES as int));
    }
    let boxes = match read_box_tables(src, header.nbox) {
        Ok(b) => b,
        Err(_) => {
            return Err(ControlError::NotUtf8);
        },
    };
    if header.nbox > NB_BOXES {
        return Err(ControlError::TooManyBoxes);
    }
    let ghost p2 = src.position();
    let mut overrides: Vec<RateOverride> = Vec::new();
    let mut ndx0: usize = 0;
    let mut k: usize = 0;
    while k < header.nradd
        invariant
            src.wf(),
            src.data() == d,
            d == old(src).data(),
            p == old(src).position(),
            run_header_is(header, d, p),
            p2 == overrides_start(d, p),
            lines_valid(d, p, HEADER_LINES as int),
            lines_valid(d, boxes_start(d, p), box_lines(header_nbox(d, p))),
            header.nbox <= NB_BOXES,
            header_nbox(d, p) == header.nbox,
            header_nradd(d, p) == header.nradd,
            k <= header.nradd,
            ndx0 <= 100,
            overrides.len() == k,
            overrides_run(d, p2, 0, k as nat) == Ok::<(int, int), ControlError>(
                (src.position(), ndx0 as int),
            ),
            forall|j: int| 0 <= j < k ==> override_at(d, p2, j, #[trigger] overrides[j]),
        decreases header.nradd - k,
    {
        let ghost q0 = src.position();
        let (o, next) = match read_rate_override(src, ndx0) {
            Ok(x) => x,
            Err(_) => {
                proof {
                    lemma_overrides_error_stays(d, p2, (k + 1) as nat, header.nradd as nat, ControlError::NotUtf8);
                }
                return Err(ControlError::NotUtf8);
            },
        };
        if o.rate >= crate::rates::NR {
            proof {
                lemma_overrides_error_stays(d, p2, (k + 1) as nat, header.nradd as nat, ControlError::RateBeyondTable);
            }
            return Err(ControlError::RateBeyondTable);
        }
        if o.nadd > 0 && o.first_slot + o.nadd > crate::rates::NADDM {
            proof {
                lemma_overrides_error_stays(d, p2, (k + 1) as nat, header.nradd as nat, ControlError::AdditionBeyondTable);
            }
            return Err(ControlError::AdditionBeyondTable);
        }
        let ghost before = overrides@;
        overrides.push(o);
        proof {
            assert(overrides_run(d, p2, 0, (k + 1) as nat) == Ok::<(int, int), ControlError>(
                (src.position(), next as int),
            ));
            assert forall|j: int| 0 <= j < k + 1 implies override_at(d, p2, j, #[trigger] overrides[j]) by {
                if j < k {
                    assert(overrides[j] == before[j]);
                } else {
                    assert(overrides_run(d, p2, 0, k as nat) == Ok::<(int, int), ControlError>(
                        (q0, ndx0 as int),
                    ));
                    assert(overrides[j] == o);
                }
            }
        }
        ndx0 = next;
        k = k + 1;
    }
    let ghost q = src.position();
    let tail = match read_run_tail(src) {
        Ok(t) => t,
        Err(_) => {
            return Err(ControlError::NotUtf8);
        },
    };
    let ndval = header.ndval;
    let nfval = header.nfval;
    if nfval < 0 || (nfval > 0 && (ndval < 0 || nfval > 20 || ndval as i64 + nfval as i64 > 59)) {
        return Err(ControlError::TooManyLongLived);
    }
    let ghost q2 = src.position();
    let long_lived = match read_long_lived(src, nfval as usize) {
        Ok(v) => v,
        Err(_) => {
            return Err(ControlError::NotUtf8);
        },
    };
    let ghost q3 = src.position();
    let (block_header, block) = match read_radical_block(src) {
        Ok(x) => x,
        Err(_) => {
            return Err(ControlError::NotUtf8);
        },
    };
    proof {
        crate::species::lemma_short_field(block_header@, 8, 10);
        assert(texts(block@) =~= Seq::new(
            block.len() as nat,
            |i: int| text_line(d, q3, (1 + i) as nat),
        ));
    }
    let mut table = crate::species::SpeciesTable::new();
    assert(table.ntsav@ =~= zero_slots());
    if !table.radicals_can_be_stored(&block) {
        return Err(ControlError::SlotBeyondTable);
    }
    let ghost t0 = table;
    assert(t0.wf());
    match table.read_radicals(block_header.as_slice(), &block) {
        Ok(()) => {},
        Err(crate::species::LayoutError::TooManySlow) => {
            return Err(ControlError::TooManySlow);
        },
        Err(crate::species::LayoutError::Checksum) => {
            return Err(ControlError::Checksum);
        },
    }
    let c = RunControl {
        header,
        boxes,
        overrides,
        next_slot: ndx0,
        tail,
        long_lived,
        block_header,
        block,
        table,
    };
    proof {
        assert(run_header_is(c.header, d, p));
        assert(box_tables_are(c.boxes, d, boxes_start(d, p), header_nbox(d, p)));
        assert(overrides_run(d, overrides_start(d, p), 0, header_nradd(d, p) as nat) == Ok::<(int, int), ControlError>((q, ndx0 as int)));
        assert(q2 == line_start(d, q, TAIL_LINES as nat));
        assert(q3 == line_start(d, q2, header_nfval(d, p) as nat));
        assert(control_failure(d, p) is None);
        assert(crate::species::radicals_read(t0, c.table, texts(c.block@), c.block.len() as int));
    }
    Ok(c)
}

/// Once the overrides fail, reading more of them fails alike.
proof fn lemma_overrides_error_stays(d: Seq<u8>, p: int, k: nat, m: nat, e: ControlError)
    requires
        k <= m,
        overrides_run(d, p, 0, k) == Err::<(int, int), ControlError>(e),
    ensures
        overrides_run(d, p, 0, m) == Err::<(int, int), ControlError>(e),
    decreases m - k,
{
    if k < m {
        lemma_overrides_error_stays(d, p, k + 1, m, e);
    }
}

} // verus!
