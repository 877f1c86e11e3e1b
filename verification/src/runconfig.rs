//! The run configuration of the steady-state climatology runs, one value
//! (or one list of values) per line: Julian day, latitude and albedo, the
//! input weighting flags, the aerosol factor, the species, rate and
//! photolysis print lists, the solar-zenith output choice, and the name of
//! the box output file. Float values are handed on as their texts.
use vstd::prelude::*;

use crate::lines::{line_end, line_start, raw_line, read_raw_line, LineError, LineSource};
use crate::text::{i32_value, split_words, texts, trim, trimmed, usize_value, words};

verus! {

/// Number of lines of the configuration.
pub const CONFIG_LINES: usize = 13;

/// The configuration of a climatology run.
pub struct RunConfig {
    pub jdaydo: i32,
    pub xlatdo: Vec<u8>,
    pub xalbedo: Vec<u8>,
    pub iwnoy: usize,
    pub iwn2o: usize,
    pub iwbry: usize,
    pub aero_sf: Vec<u8>,
    /// Species, rate and photolysis print lists (8, 24 and 10 entries).
    pub ipf: Vec<i32>,
    pub ipfr: Vec<i32>,
    pub ipjv: Vec<i32>,
    /// 1 for output at one solar zenith angle, 0 for the full day.
    pub isza: i32,
    pub szaout: Vec<u8>,
    /// 0 for the morning crossing of that angle, 1 for the evening one.
    pub iampm: i32,
    pub ivar_o3: i32,
    /// File name of the box output: the last component of the path given.
    pub output_name: Vec<u8>,
}

/// An `i32` line: its trimmed text read as an `i32`, 0 when it does not read.
pub open spec fn i32_line(l: Seq<u8>) -> i32 {
    match i32_value(trimmed(l)) {
        Some(v) => v,
        None => 0,
    }
}

/// Word `i` of a list line read as an `i32`, 0 when missing or unreadable.
pub open spec fn i32_word(l: Seq<u8>, i: int) -> i32 {
    if i < words(l).len() {
        match i32_value(words(l)[i]) {
            Some(v) => v,
            None => 0,
        }
    } else {
        0
    }
}

/// Word `i` of a list line read as a `usize`, 0 when missing or unreadable.
pub open spec fn usize_word(l: Seq<u8>, i: int) -> usize {
    if i < words(l).len() {
        match usize_value(words(l)[i]) {
            Some(v) => v,
            None => 0,
        }
    } else {
        0
    }
}

/// `v` holds the first `n` words of `l` read as `i32`.
pub open spec fn i32_words_are(v: Seq<i32>, l: Seq<u8>, n: int) -> bool {
    v.len() == n && forall|i: int| 0 <= i < n ==> #[trigger] v[i] == i32_word(l, i)
}

/// Whether a byte separates path components (`\` or `/`).
pub open spec fn is_separator(b: u8) -> bool {
    b == 0x5c || b == 0x2f
}

/// Position just after the last separator among the first `j` bytes, or 0.
pub open spec fn after_last_separator(t: Seq<u8>, j: int) -> int
    decreases j,
{
    if j <= 0 {
        0
    } else if is_separator(t[j - 1]) {
        j
    } else {
        after_last_separator(t, j - 1)
    }
}

/// The file name of a path line: the text after its last separator, or
/// `boxout.dat` when that is empty.
pub open spec fn output_name_of(l: Seq<u8>) -> Seq<u8> {
    let t = trimmed(l);
    let name = t.subrange(after_last_separator(t, t.len() as int), t.len() as int);
    if name.len() > 0 {
        name
    } else {
        default_output_name()
    }
}

/// `boxout.dat`.
pub open spec fn default_output_name() -> Seq<u8> {
    seq![0x62u8, 0x6f, 0x78, 0x6f, 0x75, 0x74, 0x2e, 0x64, 0x61, 0x74]
}

/// `c` is the configuration read from the lines (with their endings) after
/// position `p`.
pub open spec fn run_config_is(c: RunConfig, d: Seq<u8>, p: int) -> bool {
    let l = |k: nat| raw_line(d, p, k);
    &&& c.jdaydo == i32_line(l(0))
    &&& c.xlatdo@ == trimmed(l(1))
    &&& c.xalbedo@ == trimmed(l(2))
    &&& c.iwnoy == usize_word(l(3), 0)
    &&& c.iwn2o == usize_word(l(3), 1)
    &&& c.iwbry == usize_word(l(3), 2)
    &&& c.aero_sf@ == trimmed(l(4))
    &&& i32_words_are(c.ipf@, l(5), 8)
    &&& i32_words_are(c.ipfr@, l(6), 24)
    &&& i32_words_are(c.ipjv@, l(7), 10)
    &&& c.isza == i32_line(l(8))
    &&& c.szaout@ == trimmed(l(9))
    &&& c.iampm == i32_line(l(10))
    &&& c.ivar_o3 == i32_line(l(11))
    &&& c.output_name@ == output_name_of(l(12))
}

fn i32_of(t: &[u8]) -> (r: i32)
    ensures
        r == match i32_value(t@) {
            Some(v) => v,
            None => 0i32,
        },
{
    match crate::text::parse_i32(t) {
        Some(v) => v,
        None => 0,
    }
}

fn i32_words(l: &[u8], n: usize) -> (r: Vec<i32>)
    ensures
        i32_words_are(r@, l@, n as int),
{
    let ws = split_words(l);
    let mut r: Vec<i32> = Vec::new();
    let mut i: usize = 0;
    while i < n
        invariant
            i <= n,
            texts(ws@) == words(l@),
            r.len() == i,
            forall|k: int| 0 <= k < i ==> #[trigger] r[k] == i32_word(l@, k),
        decreases n - i,
    {
        let v = if i < ws.len() {
            proof {
                assert(texts(ws@)[i as int] == ws[i as int]@);
            }
            i32_of(ws[i].as_slice())
        } else {
            0
        };
        r.push(v);
        i = i + 1;
    }
    r
}

fn usize_words(l: &[u8]) -> (r: (usize, usize, usize))
    ensures
        r.0 == usize_word(l@, 0),
        r.1 == usize_word(l@, 1),
        r.2 == usize_word(l@, 2),
{
    let ws = split_words(l);
    let mut v: Vec<usize> = Vec::new();
    let mut i: usize = 0;
    while i < 3
        invariant
            i <= 3,
            texts(ws@) == words(l@),
            v.len() == i,
            forall|k: int| 0 <= k < i ==> #[trigger] v[k] == usize_word(l@, k),
        decreases 3 - i,
    {
        let x = if i < ws.len() {
            proof {
                assert(texts(ws@)[i as int] == ws[i as int]@);
            }
            match crate::text::parse_usize(ws[i].as_slice()) {
                Some(x) => x,
                None => 0,
            }
        } else {
            0
        };
        v.push(x);
        i = i + 1;
    }
    (v[0], v[1], v[2])
}

fn output_name(l: &[u8]) -> (r: Vec<u8>)
    ensures
        r@ == output_name_of(l@),
{
    let t = trim(l);
    let n = t.len();
    let mut j = n;
    while j > 0 && !(t[j - 1] == 0x5c || t[j - 1] == 0x2f)
        invariant
            j <= n,
            n == t@.len(),
            after_last_separator(t@, j as int) == after_last_separator(t@, n as int),
        decreases j,
    {
        j = j - 1;
    }
    let name = &t[j..n];
    if name.len() > 0 {
        vstd::slice::slice_to_vec(name)
    } else {
        let r: Vec<u8> = vec![0x62u8, 0x6f, 0x78, 0x6f, 0x75, 0x74, 0x2e, 0x64, 0x61, 0x74];
        assert(r@ =~= default_output_name());
        r
    }
}

/// Read the thirteen lines of a run configuration; a missing line reads as
/// empty. Refused at the first line that is not UTF-8 text.
pub fn read_run_config(src: &mut LineSource) -> (r: Result<RunConfig, LineError>)
    requires
        old(src).wf(),
    ensures
        final(src).wf(),
        final(src).data() == old(src).data(),
        match r {
            Ok(c) => run_config_is(c, old(src).data(), old(src).position())
                && final(src).position() == line_start(
                old(src).data(),
                old(src).position(),
                CONFIG_LINES as nat,
            ),
            Err(_) => exists|k: int|
                0 <= k < CONFIG_LINES && !#[trigger] vstd::utf8::valid_utf8(
                    raw_line(old(src).data(), old(src).position(), k as nat),
                ),
        },
{
    let ghost d = src.data();
    let ghost p = src.position();
    let mut ls: Vec<Vec<u8>> = Vec::new();
    let mut k: usize = 0;
    while k < CONFIG_LINES
        invariant
            k <= CONFIG_LINES,
            src.wf(),
            src.data() == d,
            d == old(src).data(),
            p == old(src).position(),
            src.position() == line_start(d, p, k as nat),
            ls.len() == k,
            forall|i: int| 0 <= i < k ==> #[trigger] ls[i]@ == raw_line(d, p, i as nat),
        decreases CONFIG_LINES - k,
    {
        let l = match read_raw_line(src) {
            Ok(l) => l,
            Err(e) => {
                let ghost w: int = k as int;
                assert(!vstd::utf8::valid_utf8(raw_line(d, p, w as nat)));
                return Err(e);
            },
        };
        proof {
            assert(line_start(d, p, (k + 1) as nat) == line_end(d, line_start(d, p, k as nat)));
        }
        ls.push(l);
        k = k + 1;
    }
    let (iwnoy, iwn2o, iwbry) = usize_words(ls[3].as_slice());
    let c = RunConfig {
        jdaydo: i32_of(trim(ls[0].as_slice())),
        xlatdo: vstd::slice::slice_to_vec(trim(ls[1].as_slice())),
        xalbedo: vstd::slice::slice_to_vec(trim(ls[2].as_slice())),
        iwnoy,
        iwn2o,
        iwbry,
        aero_sf: vstd::slice::slice_to_vec(trim(ls[4].as_slice())),
        ipf: i32_words(ls[5].as_slice(), 8),
        ipfr: i32_words(ls[6].as_slice(), 24),
        ipjv: i32_words(ls[7].as_slice(), 10),
        isza: i32_of(trim(ls[8].as_slice())),
        szaout: vstd::slice::slice_to_vec(trim(ls[9].as_slice())),
        iampm: i32_of(trim(ls[10].as_slice())),
        ivar_o3: i32_of(trim(ls[11].as_slice())),
        output_name: output_name(ls[12].as_slice()),
    };
    proof {
        assert(ls[0]@ == raw_line(d, p, 0));
        assert(ls[1]@ == raw_line(d, p, 1));
        assert(ls[2]@ == raw_line(d, p, 2));
        assert(ls[3]@ == raw_line(d, p, 3));
        assert(ls[4]@ == raw_line(d, p, 4));
        assert(ls[5]@ == raw_line(d, p, 5));
        assert(ls[6]@ == raw_line(d, p, 6));
        assert(ls[7]@ == raw_line(d, p, 7));
        assert(ls[8]@ == raw_line(d, p, 8));
        assert(ls[9]@ == raw_line(d, p, 9));
        assert(ls[10]@ == raw_line(d, p, 10));
        assert(ls[11]@ == raw_line(d, p, 11));
        assert(ls[12]@ == raw_line(d, p, 12));
    }
    Ok(c)
}

} // verus!
