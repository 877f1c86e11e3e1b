//! The layout of the spectral-data file: its title and count header, the
//! band numbers of the oscillator-strength records, the `A20` titles of the
//! photolysis rates, and where the iodine cross sections stand. The float
//! values are skipped here: an array of `n` values ends on the line where
//! its `n`-th word that reads as a float is found.
use vstd::prelude::*;

use vstd::utf8::valid_utf8;

use crate::lines::{lemma_line_end_bounds, line_end, line_text, next_line, read_raw_line, LineSource};
use crate::text::{
    all_digits, field_spec, fixed_i32_field, fixed_i32s, is_digit, text_at, text_field, trim, trimmed,
    usize_at, usize_field, words, field,
};

verus! {

/// ASCII lower case of a byte.
pub open spec fn lower(b: u8) -> u8 {
    if 0x41 <= b && b <= 0x5a {
        (b + 0x20) as u8
    } else {
        b
    }
}

/// `t` equals the lower-case word `w` when lower-cased.
pub open spec fn eq_lower(t: Seq<u8>, w: Seq<u8>) -> bool {
    t.len() == w.len() && forall|i: int| 0 <= i < t.len() ==> lower(#[trigger] t[i]) == w[i]
}

/// A sign byte, `+` or `-`.
pub open spec fn is_sign(b: u8) -> bool {
    b == 0x2b || b == 0x2d
}

/// Number of dots in `s`.
pub open spec fn dot_count(s: Seq<u8>) -> int
    decreases s.len(),
{
    if s.len() == 0 {
        0
    } else {
        dot_count(s.drop_last()) + if s.last() == 0x2e {
            1int
        } else {
            0int
        }
    }
}

/// Number of digits in `s`.
pub open spec fn digit_count(s: Seq<u8>) -> int
    decreases s.len(),
{
    if s.len() == 0 {
        0
    } else {
        digit_count(s.drop_last()) + if is_digit(s.last()) {
            1int
        } else {
            0int
        }
    }
}

/// The mantissa of a decimal number: digits with at most one dot, and at
/// least one digit (`Digit+ | Digit+ '.' Digit* | Digit* '.' Digit+`).
pub open spec fn mantissa_ok(m: Seq<u8>) -> bool {
    &&& forall|i: int| 0 <= i < m.len() ==> is_digit(#[trigger] m[i]) || m[i] == 0x2e
    &&& dot_count(m) <= 1
    &&& digit_count(m) >= 1
}

/// The digits of an exponent, after its letter: a sign, then one or more
/// digits.
pub open spec fn exponent_ok(s: Seq<u8>) -> bool {
    let d = if s.len() > 0 && is_sign(s[0]) {
        s.subrange(1, s.len() as int)
    } else {
        s
    };
    d.len() > 0 && all_digits(d)
}

/// Position of the first exponent letter (`e` or `E`) at or after `i`, or
/// the length.
pub open spec fn first_e(s: Seq<u8>, i: int) -> int
    decreases s.len() - i,
{
    if i >= s.len() {
        s.len() as int
    } else if lower(s[i]) == 0x65 {
        i
    } else {
        first_e(s, i + 1)
    }
}

/// A decimal number: a mantissa, then an optional exponent.
pub open spec fn number_ok(b: Seq<u8>) -> bool {
    let k = first_e(b, 0);
    if k >= b.len() {
        mantissa_ok(b)
    } else {
        mantissa_ok(b.subrange(0, k)) && exponent_ok(b.subrange(k + 1, b.len() as int))
    }
}

/// `inf`, `infinity` and `nan`.
pub open spec fn inf_word() -> Seq<u8> {
    seq![0x69u8, 0x6e, 0x66]
}

pub open spec fn infinity_word() -> Seq<u8> {
    seq![0x69u8, 0x6e, 0x66, 0x69, 0x6e, 0x69, 0x74, 0x79]
}

pub open spec fn nan_word() -> Seq<u8> {
    seq![0x6eu8, 0x61, 0x6e]
}

/// A word that std's float parsing accepts. Its documentation gives the
/// grammar, to be matched after lower-casing: `Sign? ('inf' | 'infinity' |
/// 'nan' | Number)`, with `Number ::= (Digit+ | Digit+ '.' Digit* | Digit*
/// '.' Digit+) Exp?`, `Exp ::= 'e' Sign? Digit+`, `Sign ::= [+-]`. No other
/// character lower-cases to one of these letters, so the ASCII lower case
/// suffices.
pub open spec fn float_text(t: Seq<u8>) -> bool {
    let b = if t.len() > 0 && is_sign(t[0]) {
        t.subrange(1, t.len() as int)
    } else {
        t
    };
    eq_lower(b, inf_word()) || eq_lower(b, infinity_word()) || eq_lower(b, nan_word())
        || number_ok(b)
}

/// Whether `t` equals the lower-case word `w` when lower-cased.
fn eq_lower_exec(t: &[u8], w: &[u8]) -> (r: bool)
    ensures
        r == eq_lower(t@, w@),
{
    if t.len() != w.len() {
        return false;
    }
    let mut i: usize = 0;
    while i < t.len()
        invariant
            i <= t.len(),
            t.len() == w.len(),
            forall|j: int| 0 <= j < i ==> lower(#[trigger] t@[j]) == w@[j],
        decreases t.len() - i,
    {
        let b = t[i];
        let l: u8 = if 0x41 <= b && b <= 0x5a {
            b + 0x20
        } else {
            b
        };
        if l != w[i] {
            return false;
        }
        i = i + 1;
    }
    true
}

/// Whether `m` is a mantissa.
fn mantissa_exec(m: &[u8]) -> (r: bool)
    ensures
        r == mantissa_ok(m@),
{
    let mut dots: usize = 0;
    let mut digits: usize = 0;
    let mut i: usize = 0;
    while i < m.len()
        invariant
            i <= m.len(),
            dots as int == dot_count(m@.take(i as int)),
            digits as int == digit_count(m@.take(i as int)),
            digits <= i,
            dots <= i,
            forall|j: int| 0 <= j < i ==> is_digit(#[trigger] m@[j]) || m@[j] == 0x2e,
        decreases m.len() - i,
    {
        let b = m[i];
        proof {
            assert(m@.take(i + 1).drop_last() =~= m@.take(i as int));
        }
        if 0x30 <= b && b <= 0x39 {
            digits = digits + 1;
        } else if b == 0x2e {
            dots = dots + 1;
        } else {
            return false;
        }
        i = i + 1;
    }
    assert(m@.take(m.len() as int) =~= m@);
    dots <= 1 && digits >= 1
}

/// Whether `s` is the rest of an exponent.
fn exponent_exec(s: &[u8]) -> (r: bool)
    ensures
        r == exponent_ok(s@),
{
    let from: usize = if s.len() > 0 && (s[0] == 0x2b || s[0] == 0x2d) {
        1
    } else {
        0
    };
    let d = &s[from..s.len()];
    assert(d@ =~= (if s@.len() > 0 && is_sign(s@[0]) {
        s@.subrange(1, s@.len() as int)
    } else {
        s@
    }));
    if d.len() == 0 {
        return false;
    }
    let mut i: usize = 0;
    while i < d.len()
        invariant
            i <= d.len(),
            d@ == (if s@.len() > 0 && is_sign(s@[0]) {
                s@.subrange(1, s@.len() as int)
            } else {
                s@
            }),
            forall|j: int| 0 <= j < i ==> is_digit(#[trigger] d@[j]),
        decreases d.len() - i,
    {
        if !(0x30 <= d[i] && d[i] <= 0x39) {
            assert(!is_digit(d@[i as int]));
            assert(!all_digits(d@));
            return false;
        }
        i = i + 1;
    }
    true
}

/// Whether the word `t` reads as a float.
pub fn float_word(t: &[u8]) -> (r: bool)
    ensures
        r == float_text(t@),
{
    let from: usize = if t.len() > 0 && (t[0] == 0x2b || t[0] == 0x2d) {
        1
    } else {
        0
    };
    let b = &t[from..t.len()];
    assert(b@ =~= (if t@.len() > 0 && is_sign(t@[0]) {
        t@.subrange(1, t@.len() as int)
    } else {
        t@
    }));
    let inf: Vec<u8> = vec![0x69u8, 0x6e, 0x66];
    let infinity: Vec<u8> = vec![0x69u8, 0x6e, 0x66, 0x69, 0x6e, 0x69, 0x74, 0x79];
    let nan: Vec<u8> = vec![0x6eu8, 0x61, 0x6e];
    assert(inf@ =~= inf_word());
    assert(infinity@ =~= infinity_word());
    assert(nan@ =~= nan_word());
    if eq_lower_exec(b, inf.as_slice()) || eq_lower_exec(b, infinity.as_slice()) || eq_lower_exec(
        b,
        nan.as_slice(),
    ) {
        return true;
    }
    let mut k: usize = 0;
    while k < b.len() && !(b[k] == 0x65 || b[k] == 0x45)
        invariant
            k <= b.len(),
            first_e(b@, 0) == first_e(b@, k as int),
        decreases b.len() - k,
    {
        k = k + 1;
    }
    if k >= b.len() {
        mantissa_exec(b)
    } else {
        assert(lower(b@[k as int]) == 0x65);
        mantissa_exec(&b[0..k]) && exponent_exec(&b[k + 1..b.len()])
    }
}

/// Number of the words that read as floats.
pub open spec fn float_count(ws: Seq<Seq<u8>>) -> int
    decreases ws.len(),
{
    if ws.len() == 0 {
        0
    } else {
        float_count(ws.drop_last()) + if float_text(ws.last()) {
            1int
        } else {
            0int
        }
    }
}

/// Number of the words of `line` that read as floats.
pub fn floats_in(line: &[u8]) -> (r: usize)
    ensures
        r == float_count(words(line@)),
{
    let ws = crate::text::split_words(line);
    let ghost wv = crate::text::texts(ws@);
    let mut c: usize = 0;
    let mut i: usize = 0;
    while i < ws.len()
        invariant
            i <= ws.len(),
            wv == crate::text::texts(ws@),
            c <= i,
            c == float_count(wv.take(i as int)),
        decreases ws.len() - i,
    {
        proof {
            assert(wv.take(i + 1).drop_last() =~= wv.take(i as int));
            assert(wv.take(i + 1).last() == ws@[i as int]@);
        }
        if float_word(ws[i].as_slice()) {
            c = c + 1;
        }
        i = i + 1;
    }
    assert(wv.take(ws.len() as int) =~= wv);
    c
}

/// Why the spectral-data file could not be laid out.
#[derive(Debug, Clone, Copy, PartialEq, Eq)]
pub enum SpectralError {
    /// A line is not UTF-8 text.
    NotUtf8,
    /// The file ends inside an array of floats.
    UnexpectedEnd,
    /// A count of the header is negative or larger than the model's tables
    /// (77 wavelengths, 15 Schumann-Runge bands, 6 opacity points), where
    /// the model would index past them.
    TooLarge,
}

/// The raw bytes of the line that starts at `p`, ending included.
pub open spec fn raw_at(d: Seq<u8>, p: int) -> Seq<u8> {
    d.subrange(p, line_end(d, p))
}

/// Reading one line at `p`: its end, refused when it is not UTF-8.
pub open spec fn line_step(d: Seq<u8>, p: int) -> Result<int, SpectralError> {
    if valid_utf8(raw_at(d, p)) {
        Ok(line_end(d, p))
    } else {
        Err(SpectralError::NotUtf8)
    }
}

/// Reading an array of `n` floats from `p`: lines are read until the `n`-th
/// word that reads as a float, the rest of that line skipped; the position
/// after it, or the error.
pub open spec fn floats_end(d: Seq<u8>, p: int, n: int) -> Result<int, SpectralError>
    decreases d.len() - p,
{
    if n <= 0 {
        Ok(p)
    } else if p < 0 || p >= d.len() {
        Err(SpectralError::UnexpectedEnd)
    } else if !valid_utf8(raw_at(d, p)) {
        Err(SpectralError::NotUtf8)
    } else {
        let c = float_count(words(raw_at(d, p)));
        if c >= n {
            Ok(line_end(d, p))
        } else {
            proof {
                lemma_line_end_bounds(d, p);
            }
            floats_end(d, line_end(d, p), n - c)
        }
    }
}

pub proof fn lemma_floats_end_bounds(d: Seq<u8>, p: int, n: int)
    requires
        0 <= p <= d.len(),
    ensures
        floats_end(d, p, n) matches Ok(q) ==> p <= q <= d.len(),
    decreases d.len() - p,
{
    if n > 0 && p < d.len() && valid_utf8(raw_at(d, p)) {
        lemma_line_end_bounds(d, p);
        let c = float_count(words(raw_at(d, p)));
        if c < n {
            lemma_floats_end_bounds(d, line_end(d, p), n - c);
        }
    }
}

/// One read of the layout: a line, or an array of floats.
#[derive(Debug, Clone, Copy, PartialEq, Eq)]
pub enum Read {
    Line,
    Floats(usize),
}

/// The position after one read at `p`.
pub open spec fn read_step(d: Seq<u8>, p: int, op: Read) -> Result<int, SpectralError> {
    match op {
        Read::Line => line_step(d, p),
        Read::Floats(n) => floats_end(d, p, n as int),
    }
}

/// Running the reads `ops` from `p`: the start of each, and the position
/// after the last; or the first error.
pub open spec fn run_reads(d: Seq<u8>, p: int, ops: Seq<Read>) -> Result<(Seq<int>, int), SpectralError>
    decreases ops.len(),
{
    if ops.len() == 0 {
        Ok((Seq::empty(), p))
    } else {
        match run_reads(d, p, ops.drop_last()) {
            Err(e) => Err(e),
            Ok((st, q)) => match read_step(d, q, ops.last()) {
                Err(e) => Err(e),
                Ok(q2) => Ok((st.push(q), q2)),
            },
        }
    }
}

/// The text each read keeps: the line of a line read, nothing of a float
/// array.
pub open spec fn read_text(d: Seq<u8>, start: int, op: Read) -> Seq<u8> {
    match op {
        Read::Line => line_text(raw_at(d, start)),
        Read::Floats(_) => Seq::empty(),
    }
}

/// A read that fails stops the whole run with its error.
proof fn lemma_run_error_stays(d: Seq<u8>, p: int, ops: Seq<Read>, k: int, e: SpectralError)
    requires
        0 <= k <= ops.len(),
        run_reads(d, p, ops.take(k)) == Err::<(Seq<int>, int), SpectralError>(e),
    ensures
        run_reads(d, p, ops) == Err::<(Seq<int>, int), SpectralError>(e),
    decreases ops.len() - k,
{
    if k == ops.len() {
        assert(ops.take(k) =~= ops);
    } else {
        assert(ops.take(k + 1).drop_last() =~= ops.take(k));
        lemma_run_error_stays(d, p, ops, k + 1, e);
    }
}

/// Read one line.
fn step_line(src: &mut LineSource) -> (r: Result<Vec<u8>, SpectralError>)
    requires
        old(src).wf(),
    ensures
        final(src).wf(),
        final(src).data() == old(src).data(),
        match r {
            Ok(t) => line_step(old(src).data(), old(src).position()) == Ok::<int, SpectralError>(
                final(src).position(),
            ) && t@ == line_text(raw_at(old(src).data(), old(src).position())),
            Err(e) => line_step(old(src).data(), old(src).position()) == Err::<int, SpectralError>(e),
        },
{
    match next_line(src) {
        Ok(t) => Ok(t),
        Err(_) => Err(SpectralError::NotUtf8),
    }
}

/// Skip an array of `n` floats.
fn skip_floats(src: &mut LineSource, n: usize) -> (r: Result<(), SpectralError>)
    requires
        old(src).wf(),
    ensures
        final(src).wf(),
        final(src).data() == old(src).data(),
        match r {
            Ok(()) => floats_end(old(src).data(), old(src).position(), n as int) == Ok::<
                int,
                SpectralError,
            >(final(src).position()),
            Err(e) => floats_end(old(src).data(), old(src).position(), n as int) == Err::<
                int,
                SpectralError,
            >(e),
        },
{
    let ghost d = src.data();
    let ghost p0 = src.position();
    let mut need = n;
    while need > 0
        invariant
            src.wf(),
            src.data() == d,
            d == old(src).data(),
            p0 == old(src).position(),
            floats_end(d, p0, n as int) == floats_end(d, src.position(), need as int),
        decreases d.len() - src.position(),
    {
        proof {
            src.lemma_position_in_data();
        }
        if src.at_end() {
            return Err(SpectralError::UnexpectedEnd);
        }
        let ghost p = src.position();
        let raw = match read_raw_line(src) {
            Ok(raw) => raw,
            Err(_) => {
                return Err(SpectralError::NotUtf8);
            },
        };
        proof {
            lemma_line_end_bounds(d, p);
        }
        let c = floats_in(raw.as_slice());
        if c >= need {
            return Ok(());
        }
        need = need - c;
    }
    Ok(())
}

/// Run the reads `ops`, keeping the text of each.
fn run_reads_exec(src: &mut LineSource, ops: &Vec<Read>) -> (r: Result<Vec<Vec<u8>>, SpectralError>)
    requires
        old(src).wf(),
    ensures
        final(src).wf(),
        final(src).data() == old(src).data(),
        match r {
            Ok(ts) => match run_reads(old(src).data(), old(src).position(), ops@) {
                Ok((st, q)) => {
                    &&& q == final(src).position()
                    &&& ts.len() == ops.len()
                    &&& forall|j: int|
                        0 <= j < ops.len() ==> #[trigger] ts[j]@ == read_text(
                            old(src).data(),
                            st[j],
                            ops[j],
                        )
                },
                Err(_) => false,
            },
            Err(e) => run_reads(old(src).data(), old(src).position(), ops@) == Err::<
                (Seq<int>, int),
                SpectralError,
            >(e),
        },
{
    let ghost d = src.data();
    let ghost p0 = src.position();
    let ghost mut st: Seq<int> = Seq::empty();
    let mut ts: Vec<Vec<u8>> = Vec::new();
    let mut i: usize = 0;
    assert(ops@.take(0) =~= Seq::<Read>::empty());
    while i < ops.len()
        invariant
            i <= ops.len(),
            src.wf(),
            src.data() == d,
            d == old(src).data(),
            p0 == old(src).position(),
            run_reads(d, p0, ops@.take(i as int)) == Ok::<(Seq<int>, int), SpectralError>(
                (st, src.position()),
            ),
            ts.len() == i,
            st.len() == i,
            forall|j: int| 0 <= j < i ==> #[trigger] ts[j]@ == read_text(d, st[j], ops[j]),
        decreases ops.len() - i,
    {
        let ghost q = src.position();
        proof {
            assert(ops@.take(i + 1).drop_last() =~= ops@.take(i as int));
            assert(ops@.take(i + 1).last() == ops@[i as int]);
        }
        match ops[i] {
            Read::Line => {
                match step_line(src) {
                    Ok(t) => {
                        ts.push(t);
                    },
                    Err(e) => {
                        proof {
                            lemma_run_error_stays(d, p0, ops@, i + 1, e);
                        }
                        return Err(e);
                    },
                }
            },
            Read::Floats(n) => {
                match skip_floats(src, n) {
                    Ok(()) => {
                        ts.push(Vec::new());
                    },
                    Err(e) => {
                        proof {
                            lemma_run_error_stays(d, p0, ops@, i + 1, e);
                        }
                        return Err(e);
                    },
                }
            },
        }
        proof {
            st = st.push(q);
        }
        i = i + 1;
    }
    assert(ops@.take(ops.len() as int) =~= ops@);
    Ok(ts)
}

/// `n` copies of a read.
pub open spec fn reps(op: Read, n: int) -> Seq<Read> {
    Seq::new(n as nat, |i: int| op)
}

/// The reads of one temperature of the O2 cross sections: its title, the
/// cross sections, a blank line, and the opacity distribution of each band.
pub open spec fn o2_reads(nwww: int, nsr: int, nodf: int) -> Seq<Read> {
    seq![Read::Line, Read::Floats(nwww as usize), Read::Line] + reps(
        Read::Floats(nodf as usize),
        nsr,
    )
}

/// `m` title lines, each followed by an array of `nwww` cross sections.
pub open spec fn title_pairs(nwww: int, m: int) -> Seq<Read> {
    Seq::new(
        (2 * m) as nat,
        |i: int|
            if i % 2 == 0 {
                Read::Line
            } else {
                Read::Floats(nwww as usize)
            },
    )
}

/// Number of titled cross-section arrays after the O2 block: three O3
/// temperatures, three O(1D) temperatures, and two temperatures of each of
/// the 40 tabulated species.
pub const TITLED_ARRAYS: usize = 86;

/// The reads that follow the header: the float parameters line, a title
/// line, the wavelength bin edges, a blank line, the solar flux, a blank
/// line, the `nsr` opacity records, the NO title and a blank line, the NO
/// band data, the three O2 temperatures, then the titled arrays.
pub open spec fn spectral_reads(nwww: int, nsr: int, nodf: int) -> Seq<Read> {
    seq![
        Read::Line,
        Read::Line,
        Read::Floats((nwww + 1) as usize),
        Read::Line,
        Read::Floats(nwww as usize),
        Read::Line,
    ] + reps(Read::Line, nsr) + seq![Read::Line, Read::Line] + reps(
        Read::Floats((1 + nodf) as usize),
        nsr,
    ) + o2_reads(nwww, nsr, nodf) + o2_reads(nwww, nsr, nodf) + o2_reads(nwww, nsr, nodf)
        + title_pairs(nwww, TITLED_ARRAYS as int)
}

/// Append `n` copies of a read.
fn push_reps(v: &mut Vec<Read>, op: Read, n: usize)
    ensures
        final(v)@ == old(v)@ + reps(op, n as int),
{
    let ghost before = v@;
    let mut k: usize = 0;
    while k < n
        invariant
            k <= n,
            v@ == before + reps(op, k as int),
        decreases n - k,
    {
        v.push(op);
        k = k + 1;
        assert(v@ =~= before + reps(op, k as int));
    }
}

/// Executable form of [`spectral_reads`].
fn spectral_reads_exec(nwww: usize, nsr: usize, nodf: usize) -> (r: Vec<Read>)
    requires
        nwww <= 77,
        nodf <= 6,
    ensures
        r@ == spectral_reads(nwww as int, nsr as int, nodf as int),
{
    let mut v: Vec<Read> = vec![
        Read::Line,
        Read::Line,
        Read::Floats(nwww + 1),
        Read::Line,
        Read::Floats(nwww),
        Read::Line,
    ];
    push_reps(&mut v, Read::Line, nsr);
    v.push(Read::Line);
    v.push(Read::Line);
    push_reps(&mut v, Read::Floats(1 + nodf), nsr);
    let mut k: usize = 0;
    let ghost head = v@;
    while k < 3
        invariant
            k <= 3,
            nwww <= 77,
            nodf <= 6,
            k == 0 ==> v@ == head,
            k == 1 ==> v@ == head + o2_reads(nwww as int, nsr as int, nodf as int),
            k == 2 ==> v@ == head + o2_reads(nwww as int, nsr as int, nodf as int) + o2_reads(
                nwww as int,
                nsr as int,
                nodf as int,
            ),
            k == 3 ==> v@ == head + o2_reads(nwww as int, nsr as int, nodf as int) + o2_reads(
                nwww as int,
                nsr as int,
                nodf as int,
            ) + o2_reads(nwww as int, nsr as int, nodf as int),
        decreases 3 - k,
    {
        let ghost b = v@;
        v.push(Read::Line);
        v.push(Read::Floats(nwww));
        v.push(Read::Line);
        push_reps(&mut v, Read::Floats(nodf), nsr);
        assert(v@ =~= b + o2_reads(nwww as int, nsr as int, nodf as int));
        k = k + 1;
    }
    let ghost mid = v@;
    let mut t: usize = 0;
    while t < TITLED_ARRAYS
        invariant
            t <= TITLED_ARRAYS,
            v@ == mid + title_pairs(nwww as int, t as int),
        decreases TITLED_ARRAYS - t,
    {
        v.push(Read::Line);
        v.push(Read::Floats(nwww));
        t = t + 1;
        assert(v@ =~= mid + title_pairs(nwww as int, t as int));
    }
    assert(v@ =~= spectral_reads(nwww as int, nsr as int, nodf as int));
    v
}

/// `k` occurs in `s`.
pub open spec fn contains_text(s: Seq<u8>, k: Seq<u8>) -> bool {
    exists|i: int| 0 <= i && i + k.len() <= s.len() && #[trigger] s.subrange(i, i + k.len()) == k
}

/// Whether `k` occurs in `s` at `i`.
fn occurs_at(s: &[u8], k: &[u8], i: usize) -> (r: bool)
    requires
        i + k.len() <= s.len(),
    ensures
        r == (s@.subrange(i as int, i + k.len()) == k@),
{
    let mut j: usize = 0;
    while j < k.len()
        invariant
            j <= k.len(),
            i + k.len() <= s.len(),
            forall|m: int| 0 <= m < j ==> s@[i + m] == k@[m],
        decreases k.len() - j,
    {
        if s[i + j] != k[j] {
            assert(s@.subrange(i as int, i + k.len())[j as int] != k@[j as int]);
            return false;
        }
        j = j + 1;
    }
    assert(s@.subrange(i as int, i + k.len()) =~= k@);
    true
}

/// Whether `k` occurs in `s`.
fn contains_exec(s: &[u8], k: &[u8]) -> (r: bool)
    ensures
        r == contains_text(s@, k@),
{
    if k.len() > s.len() {
        return false;
    }
    if k.len() == 0 {
        assert(s@.subrange(0, 0 + k@.len() as int) =~= k@);
        return true;
    }
    let last = s.len() - k.len();
    let mut i: usize = 0;
    while i <= last
        invariant
            k.len() <= s.len(),
            k.len() > 0,
            last == s.len() - k.len(),
            i <= last + 1,
            forall|m: int| 0 <= m < i ==> #[trigger] s@.subrange(m, m + k.len()) != k@,
        decreases last + 1 - i,
    {
        if occurs_at(s, k, i) {
            return true;
        }
        i = i + 1;
    }
    false
}

/// The title tags of the three iodine cross sections: `J(IO)`, `J(HOI)`
/// and `J(IONO2)`.
pub open spec fn iodine_tag(j: int) -> Seq<u8> {
    if j == 0 {
        seq![0x4au8, 0x28, 0x49, 0x4f, 0x29]
    } else if j == 1 {
        seq![0x4au8, 0x28, 0x48, 0x4f, 0x49, 0x29]
    } else {
        seq![0x4au8, 0x28, 0x49, 0x4f, 0x4e, 0x4f, 0x32, 0x29]
    }
}

/// The iodine slot a title names: the first tag, in order, that it holds,
/// or 3 for none.
pub open spec fn iodine_slot_of(t: Seq<u8>) -> int {
    if contains_text(t, iodine_tag(0)) {
        0
    } else if contains_text(t, iodine_tag(1)) {
        1
    } else if contains_text(t, iodine_tag(2)) {
        2
    } else {
        3
    }
}

/// A scanned title is stored under the iodine cross section whose tag it
/// holds: a title holding the tag of slot `j` (`J(IO)`, `J(HOI)` or
/// `J(IONO2)`) and no other iodine tag goes to slot `j`; a title holding
/// none of them is no iodine cross section (3); and whatever slot a title
/// goes to, it holds that slot's tag and no tag of an earlier slot.
pub proof fn law_iodine_slot_names_its_tag(t: Seq<u8>, j: int)
    requires
        0 <= j < 3,
    ensures
        contains_text(t, iodine_tag(j)) && (forall|k: int|
            0 <= k < 3 && k != j ==> !contains_text(t, #[trigger] iodine_tag(k)))
            ==> iodine_slot_of(t) == j,
        (forall|k: int| 0 <= k < 3 ==> !contains_text(t, #[trigger] iodine_tag(k))) ==> iodine_slot_of(t)
            == 3,
        iodine_slot_of(t) == j ==> contains_text(t, iodine_tag(j)) && forall|k: int|
            0 <= k < j ==> !contains_text(t, #[trigger] iodine_tag(k)),
{
    let c0 = contains_text(t, iodine_tag(0));
    let c1 = contains_text(t, iodine_tag(1));
    let c2 = contains_text(t, iodine_tag(2));
    assert(0 <= 0int < 3 && 0 <= 1int < 3 && 0 <= 2int < 3);
    if iodine_slot_of(t) == j {
        assert forall|k: int| 0 <= k < j implies !contains_text(t, #[trigger] iodine_tag(k)) by {
            if k == 0 {
                assert(!c0);
            } else {
                assert(!c1);
            }
        }
    }
}

/// Executable form of [`iodine_slot_of`].
fn iodine_slot_exec(t: &[u8]) -> (r: usize)
    ensures
        r == iodine_slot_of(t@),
{
    let k0: Vec<u8> = vec![0x4au8, 0x28, 0x49, 0x4f, 0x29];
    let k1: Vec<u8> = vec![0x4au8, 0x28, 0x48, 0x4f, 0x49, 0x29];
    let k2: Vec<u8> = vec![0x4au8, 0x28, 0x49, 0x4f, 0x4e, 0x4f, 0x32, 0x29];
    assert(k0@ =~= iodine_tag(0));
    assert(k1@ =~= iodine_tag(1));
    assert(k2@ =~= iodine_tag(2));
    if contains_exec(t, k0.as_slice()) {
        0
    } else if contains_exec(t, k1.as_slice()) {
        1
    } else if contains_exec(t, k2.as_slice()) {
        2
    } else {
        3
    }
}

/// Matches after which the scan for the iodine cross sections stops: the
/// 48 cross-section slots less the 40 tabulated ones.
pub const IODINE_MATCH_LIMIT: usize = 8;

/// An iodine cross section found by the scan: the number (0-based) of the
/// scanned pair of arrays that was stored for it, and the trimmed `A20`
/// titles of its two temperatures.
pub struct IodineEntry {
    pub pair: usize,
    pub cold_title: Vec<u8>,
    pub warm_title: Vec<u8>,
}

/// The view of a scan slot.
pub open spec fn entry_view(e: Option<IodineEntry>) -> Option<(int, Seq<u8>, Seq<u8>)> {
    match e {
        Some(x) => Some((x.pair as int, x.cold_title@, x.warm_title@)),
        None => None,
    }
}

/// The views of the scan slots.
pub open spec fn entries_view(v: Seq<Option<IodineEntry>>) -> Seq<Option<(int, Seq<u8>, Seq<u8>)>> {
    Seq::new(v.len(), |i: int| entry_view(v[i]))
}

/// The title of a scanned array, from its raw line: the first 20 bytes,
/// trimmed, nothing for a shorter line.
pub open spec fn scan_title(d: Seq<u8>, p: int) -> Seq<u8> {
    text_at(raw_at(d, p), 0, 20)
}

/// The scan for the iodine cross sections from `p`: pairs of titled arrays
/// are read until the file ends (at a title) or `IODINE_MATCH_LIMIT`
/// matches; a pair whose first title names an iodine slot is stored in it,
/// replacing an earlier one. `found` matches and `pair` pairs lie behind.
pub open spec fn scan_spec(
    d: Seq<u8>,
    p: int,
    nwww: int,
    found: int,
    slots: Seq<Option<(int, Seq<u8>, Seq<u8>)>>,
    pair: int,
) -> Result<Seq<Option<(int, Seq<u8>, Seq<u8>)>>, SpectralError>
    decreases d.len() - p,
{
    if p < 0 || p >= d.len() {
        Ok(slots)
    } else if !valid_utf8(raw_at(d, p)) {
        Err(SpectralError::NotUtf8)
    } else {
        let t1 = scan_title(d, p);
        let q1 = line_end(d, p);
        proof {
            lemma_line_end_bounds(d, p);
            lemma_floats_end_bounds(d, q1, nwww);
        }
        match floats_end(d, q1, nwww) {
            Err(e) => Err(e),
            Ok(q2) => if q2 >= d.len() {
                Ok(slots)
            } else if !valid_utf8(raw_at(d, q2)) {
                Err(SpectralError::NotUtf8)
            } else {
                let t2 = scan_title(d, q2);
                let q3 = line_end(d, q2);
                proof {
                    lemma_line_end_bounds(d, q2);
                    lemma_floats_end_bounds(d, q3, nwww);
                }
                match floats_end(d, q3, nwww) {
                    Err(e) => Err(e),
                    Ok(q4) => {
                        let j = iodine_slot_of(t1);
                        if j < 3 {
                            let s2 = slots.update(j, Some((pair, t1, t2)));
                            if found + 1 >= IODINE_MATCH_LIMIT {
                                Ok(s2)
                            } else {
                                scan_spec(d, q4, nwww, found + 1, s2, pair + 1)
                            }
                        } else {
                            scan_spec(d, q4, nwww, found, slots, pair + 1)
                        }
                    },
                }
            },
        }
    }
}

/// No iodine cross section found yet.
pub open spec fn empty_slots() -> Seq<Option<(int, Seq<u8>, Seq<u8>)>> {
    seq![None, None, None]
}

/// Scan for the iodine cross sections.
fn scan_iodine(src: &mut LineSource, nwww: usize) -> (r: Result<Vec<Option<IodineEntry>>, SpectralError>)
    requires
        old(src).wf(),
    ensures
        final(src).wf(),
        final(src).data() == old(src).data(),
        match r {
            Ok(v) => scan_spec(old(src).data(), old(src).position(), nwww as int, 0, empty_slots(), 0)
                == Ok::<Seq<Option<(int, Seq<u8>, Seq<u8>)>>, SpectralError>(entries_view(v@)),
            Err(e) => scan_spec(old(src).data(), old(src).position(), nwww as int, 0, empty_slots(), 0)
                == Err::<Seq<Option<(int, Seq<u8>, Seq<u8>)>>, SpectralError>(e),
        },
{
    let ghost d = src.data();
    let ghost p0 = src.position();
    let mut slots: Vec<Option<IodineEntry>> = Vec::new();
    slots.push(None);
    slots.push(None);
    slots.push(None);
    assert(entries_view(slots@) =~= empty_slots());
    let mut found: usize = 0;
    let mut pair: usize = 0;
    proof {
        src.lemma_position_in_data();
    }
    loop
        invariant
            src.wf(),
            src.data() == d,
            d == old(src).data(),
            p0 == old(src).position(),
            slots.len() == 3,
            found < IODINE_MATCH_LIMIT,
            pair <= src.position(),
            scan_spec(d, p0, nwww as int, 0, empty_slots(), 0) == scan_spec(
                d,
                src.position(),
                nwww as int,
                found as int,
                entries_view(slots@),
                pair as int,
            ),
        decreases d.len() - src.position(),
    {
        proof {
            src.lemma_position_in_data();
        }
        let ghost p = src.position();
        if src.at_end() {
            return Ok(slots);
        }
        let raw1 = match read_raw_line(src) {
            Ok(raw) => raw,
            Err(_) => {
                return Err(SpectralError::NotUtf8);
            },
        };
        proof {
            lemma_line_end_bounds(d, p);
        }
        let t1 = vstd::slice::slice_to_vec(text_field(raw1.as_slice(), 0, 20));
        match skip_floats(src, nwww) {
            Ok(()) => {},
            Err(e) => {
                return Err(e);
            },
        }
        let ghost q2 = src.position();
        proof {
            lemma_floats_end_bounds(d, line_end(d, p), nwww as int);
            src.lemma_position_in_data();
        }
        if src.at_end() {
            return Ok(slots);
        }
        let raw2 = match read_raw_line(src) {
            Ok(raw) => raw,
            Err(_) => {
                return Err(SpectralError::NotUtf8);
            },
        };
        proof {
            lemma_line_end_bounds(d, q2);
        }
        let t2 = vstd::slice::slice_to_vec(text_field(raw2.as_slice(), 0, 20));
        match skip_floats(src, nwww) {
            Ok(()) => {},
            Err(e) => {
                return Err(e);
            },
        }
        proof {
            lemma_floats_end_bounds(d, line_end(d, q2), nwww as int);
            src.lemma_position_in_data();
        }
        let j = iodine_slot_exec(t1.as_slice());
        if j < 3 {
            let ghost before = entries_view(slots@);
            slots.set(j, Some(IodineEntry { pair, cold_title: t1, warm_title: t2 }));
            proof {
                assert(entries_view(slots@) =~= before.update(
                    j as int,
                    Some((pair as int, scan_title(d, p), scan_title(d, q2))),
                ));
            }
            found = found + 1;
            if found >= IODINE_MATCH_LIMIT {
                return Ok(slots);
            }
        }
        pair = pair + 1;
    }
}

/// The layout of the spectral-data file.
pub struct SpectralLayout {
    /// The title line.
    pub title0: Vec<u8>,
    /// The counts of the `10X,14I5` header as written: cross sections
    /// (NQQQ), wavelengths (NWWW), the first and last wavelengths used
    /// (NW1, NW2), the first Schumann-Runge wavelength (NWSRB), the bands
    /// (NSR) and the opacity points per band (NODF).
    pub nqqq: i32,
    pub nwww: i32,
    pub nw1: i32,
    pub nw2: i32,
    pub nwsrb: i32,
    pub nsr: i32,
    pub nodf: i32,
    /// Number of J-values: the cross sections and the four base rates.
    pub njval: usize,
    /// The band number (ISR, the `I3` field after the opacity fields) of
    /// each opacity record.
    pub isr: Vec<usize>,
    /// The opacity fields (`F10.1`) of each record, as texts.
    pub odf: Vec<Vec<Vec<u8>>>,
    /// The `A20` J-value titles, trimmed, in file order: NO, the three O2
    /// temperatures, then the 86 titled arrays.
    pub titles: Vec<Vec<u8>>,
    /// The iodine cross sections J(IO), J(HOI), J(IONO2) found by the scan.
    pub iodine: Vec<Option<IodineEntry>>,
}

/// The header line.
pub open spec fn header_line(d: Seq<u8>, p: int) -> Seq<u8> {
    line_text(raw_at(d, line_end(d, p)))
}

/// Field `i` of the `10X,14I5` header.
pub open spec fn header_field(d: Seq<u8>, p: int, i: int) -> i32 {
    fixed_i32_field(header_line(d, p), 10 + 5 * i, 5)
}

/// The counts fit the model's tables (see [`SpectralError::TooLarge`]).
pub open spec fn counts_fit(nqqq: int, nwww: int, nsr: int, nodf: int) -> bool {
    0 <= nqqq && 0 <= nwww <= 77 && 0 <= nsr <= 15 && 0 <= nodf <= 6
}

/// Where the reads after the header start.
pub open spec fn body_start(d: Seq<u8>, p: int) -> int {
    line_end(d, line_end(d, p))
}

/// The reads after the header, by its counts.
pub open spec fn body_reads(d: Seq<u8>, p: int) -> Seq<Read> {
    spectral_reads(header_field(d, p, 1) as int, header_field(d, p, 5) as int, header_field(d, p, 6) as int)
}

/// Why the file cannot be laid out, if it can't: the first line that is
/// not UTF-8, counts that do not fit, the end of the file inside an array.
pub open spec fn spectral_failure(d: Seq<u8>, p: int) -> Option<SpectralError> {
    if !valid_utf8(raw_at(d, p)) || !valid_utf8(raw_at(d, line_end(d, p))) {
        Some(SpectralError::NotUtf8)
    } else if !counts_fit(
        header_field(d, p, 0) as int,
        header_field(d, p, 1) as int,
        header_field(d, p, 5) as int,
        header_field(d, p, 6) as int,
    ) {
        Some(SpectralError::TooLarge)
    } else {
        match run_reads(d, body_start(d, p), body_reads(d, p)) {
            Err(e) => Some(e),
            Ok((st, q)) => match scan_spec(d, q, header_field(d, p, 1) as int, 0, empty_slots(), 0) {
                Err(e) => Some(e),
                Ok(_) => None,
            },
        }
    }
}

/// The text kept by read `j`.
pub open spec fn kept(d: Seq<u8>, st: Seq<int>, ops: Seq<Read>, j: int) -> Seq<u8> {
    read_text(d, st[j], ops[j])
}

/// The NO title: the first 20 bytes of its line, trimmed, or the whole
/// line trimmed when it is shorter.
pub open spec fn no_title(t: Seq<u8>) -> Seq<u8> {
    match field_spec(t, 0, 20) {
        Some(f) => trimmed(f),
        None => trimmed(t),
    }
}

/// Read position of the title of O2 temperature `k`.
pub open spec fn o2_title_read(k: int, nsr: int) -> int {
    8 + 2 * nsr + k * (3 + nsr)
}

/// Read position of the title of titled array `t`.
pub open spec fn array_title_read(t: int, nsr: int) -> int {
    17 + 5 * nsr + 2 * t
}

/// The end of the `I3` band field of an opacity record with `nodf` fields,
/// held to the end of the line: what follows the field (a wavelength note)
/// is not part of it.
pub open spec fn band_end(l: Seq<u8>, nodf: int) -> int {
    if 10 * nodf + 3 < l.len() {
        10 * nodf + 3
    } else {
        l.len() as int
    }
}

/// The band number of an opacity record: the `I3` field after its `nodf`
/// opacity fields, 0 when blank or unreadable.
pub open spec fn band_at(l: Seq<u8>, nodf: int) -> usize {
    usize_at(l, 10 * nodf, band_end(l, nodf))
}

/// Reads the band number of an opacity record.
pub fn band_field(line: &[u8], nodf: usize) -> (r: usize)
    requires
        nodf <= 6,
    ensures
        r == band_at(line@, nodf as int),
{
    let a = 10 * nodf;
    let e = if a + 3 < line.len() {
        a + 3
    } else {
        line.len()
    };
    usize_field(line, a, e)
}

/// The fields read after the header, from the reads' starts `st` and the
/// end `q`.
pub open spec fn layout_body_is(l: SpectralLayout, d: Seq<u8>, st: Seq<int>, q: int, ops: Seq<Read>) -> bool {
    let nsr = l.nsr as int;
    let nodf = l.nodf as int;
    &&& l.isr.len() == nsr
    &&& forall|r: int|
        0 <= r < nsr ==> #[trigger] l.isr[r] == band_at(kept(d, st, ops, 6 + r), nodf)
    &&& l.odf.len() == nsr
    &&& forall|r: int| 0 <= r < nsr ==> (#[trigger] l.odf[r]).len() == nodf
    &&& forall|r: int, i: int|
        0 <= r < nsr && 0 <= i < nodf ==> (#[trigger] l.odf[r][i])@ == text_at(
            kept(d, st, ops, 6 + r),
            10 * i,
            10 * i + 10,
        )
    &&& l.titles.len() == 4 + TITLED_ARRAYS
    &&& l.titles[0]@ == no_title(kept(d, st, ops, 6 + nsr))
    &&& forall|k: int|
        0 <= k < 3 ==> (#[trigger] l.titles[1 + k])@ == text_at(
            kept(d, st, ops, o2_title_read(k, nsr)),
            0,
            20,
        )
    &&& forall|t: int|
        0 <= t < TITLED_ARRAYS ==> (#[trigger] l.titles[4 + t])@ == text_at(
            kept(d, st, ops, array_title_read(t, nsr)),
            0,
            20,
        )
    &&& scan_spec(d, q, l.nwww as int, 0, empty_slots(), 0) == Ok::<
        Seq<Option<(int, Seq<u8>, Seq<u8>)>>,
        SpectralError,
    >(entries_view(l.iodine@))
}

/// `l` is the layout of the spectral-data file read from `p`.
pub open spec fn spectral_layout_is(l: SpectralLayout, d: Seq<u8>, p: int) -> bool {
    &&& spectral_failure(d, p) is None
    &&& l.title0@ == line_text(raw_at(d, p))
    &&& l.nqqq == header_field(d, p, 0)
    &&& l.nwww == header_field(d, p, 1)
    &&& l.nw1 == header_field(d, p, 2)
    &&& l.nw2 == header_field(d, p, 3)
    &&& l.nwsrb == header_field(d, p, 4)
    &&& l.nsr == header_field(d, p, 5)
    &&& l.nodf == header_field(d, p, 6)
    &&& l.njval == l.nqqq + 4
    &&& match run_reads(d, body_start(d, p), body_reads(d, p)) {
        Ok((st, q)) => layout_body_is(l, d, st, q, body_reads(d, p)),
        Err(_) => false,
    }
}

/// Read the layout of the spectral-data file: its title, its count header,
/// the band number and the opacity fields of each opacity record, the
/// `A20` J-value titles, and the iodine cross sections found among the
/// arrays that follow the tabulated ones. The float arrays in between are
/// skipped by counting the words that read as floats.
pub fn read_spectral_layout(src: &mut LineSource) -> (r: Result<SpectralLayout, SpectralError>)
    requires
        old(src).wf(),
    ensures
        final(src).wf(),
        final(src).data() == old(src).data(),
        match r {
            Ok(l) => spectral_layout_is(l, old(src).data(), old(src).position()),
            Err(e) => spectral_failure(old(src).data(), old(src).position()) == Some(e),
        },
{
    let ghost d = src.data();
    let ghost p = src.position();
    let title0 = match step_line(src) {
        Ok(t) => t,
        Err(e) => {
            return Err(e);
        },
    };
    let ghost p1 = src.position();
    let l1 = match step_line(src) {
        Ok(t) => t,
        Err(e) => {
            return Err(e);
        },
    };
    let hv = fixed_i32s(l1.as_slice(), 10, 5, 7);
    proof {
        assert forall|i: int| 0 <= i < 7 implies #[trigger] hv[i] == header_field(d, p, i) by {
            assert(10 + i * 5 == 10 + 5 * i);
        }
    }
    let nqqq = hv[0];
    let nwww = hv[1];
    let nsr = hv[5];
    let nodf = hv[6];
    if !(0 <= nqqq && 0 <= nwww && nwww <= 77 && 0 <= nsr && nsr <= 15 && 0 <= nodf && nodf <= 6) {
        return Err(SpectralError::TooLarge);
    }
    let nw = nwww as usize;
    let ns = nsr as usize;
    let nd = nodf as usize;
    let ops = spectral_reads_exec(nw, ns, nd);
    let ts = match run_reads_exec(src, &ops) {
        Ok(ts) => ts,
        Err(e) => {
            return Err(e);
        },
    };
    let ghost st: Seq<int> = match run_reads(d, body_start(d, p), body_reads(d, p)) {
        Ok((st, q)) => st,
        Err(_) => Seq::empty(),
    };
    let ghost q = src.position();
    proof {
        assert(ops@ == body_reads(d, p));
    }
    let mut isr: Vec<usize> = Vec::new();
    let mut odf: Vec<Vec<Vec<u8>>> = Vec::new();
    let mut r: usize = 0;
    while r < ns
        invariant
            r <= ns <= 15,
            nd <= 6,
            ts.len() == ops.len(),
            ops@ == spectral_reads(nw as int, ns as int, nd as int),
            forall|j: int| 0 <= j < ops.len() ==> #[trigger] ts[j]@ == kept(d, st, ops@, j),
            isr.len() == r,
            odf.len() == r,
            forall|k: int|
                0 <= k < r ==> #[trigger] isr[k] == band_at(kept(d, st, ops@, 6 + k), nd as int),
            forall|k: int| 0 <= k < r ==> (#[trigger] odf[k]).len() == nd,
            forall|k: int, i: int|
                0 <= k < r && 0 <= i < nd ==> (#[trigger] odf[k][i])@ == text_at(
                    kept(d, st, ops@, 6 + k),
                    10 * i,
                    10 * i + 10,
                ),
        decreases ns - r,
    {
        let line = ts[6 + r].as_slice();
        isr.push(band_field(line, nd));
        let mut fields: Vec<Vec<u8>> = Vec::new();
        let mut i: usize = 0;
        while i < nd
            invariant
                i <= nd <= 6,
                fields.len() == i,
                forall|m: int| 0 <= m < i ==> (#[trigger] fields[m])@ == text_at(line@, 10 * m, 10 * m + 10),
            decreases nd - i,
        {
            fields.push(vstd::slice::slice_to_vec(text_field(line, 10 * i, 10 * i + 10)));
            i = i + 1;
        }
        odf.push(fields);
        r = r + 1;
    }
    let mut titles: Vec<Vec<u8>> = Vec::new();
    let tno = ts[6 + ns].as_slice();
    let no = match field(tno, 0, 20) {
        Some(f) => vstd::slice::slice_to_vec(trim(f)),
        None => vstd::slice::slice_to_vec(trim(tno)),
    };
    titles.push(no);
    let mut k: usize = 0;
    while k < 3
        invariant
            k <= 3,
            ns <= 15,
            ts.len() == ops.len(),
            ops@ == spectral_reads(nw as int, ns as int, nd as int),
            forall|j: int| 0 <= j < ops.len() ==> #[trigger] ts[j]@ == kept(d, st, ops@, j),
            titles.len() == 1 + k,
            titles[0]@ == no_title(kept(d, st, ops@, 6 + ns)),
            forall|m: int|
                0 <= m < k ==> (#[trigger] titles[1 + m])@ == text_at(
                    kept(d, st, ops@, o2_title_read(m, ns as int)),
                    0,
                    20,
                ),
        decreases 3 - k,
    {
        let at = 8 + 2 * ns + k * (3 + ns);
        assert(at == o2_title_read(k as int, ns as int)) by (nonlinear_arith)
            requires
                at == 8 + 2 * ns + k * (3 + ns),
        ;
        titles.push(vstd::slice::slice_to_vec(text_field(ts[at].as_slice(), 0, 20)));
        k = k + 1;
    }
    let mut t: usize = 0;
    while t < TITLED_ARRAYS
        invariant
            t <= TITLED_ARRAYS,
            ns <= 15,
            ts.len() == ops.len(),
            ops@ == spectral_reads(nw as int, ns as int, nd as int),
            forall|j: int| 0 <= j < ops.len() ==> #[trigger] ts[j]@ == kept(d, st, ops@, j),
            titles.len() == 4 + t,
            titles[0]@ == no_title(kept(d, st, ops@, 6 + ns)),
            forall|m: int|
                0 <= m < 3 ==> (#[trigger] titles[1 + m])@ == text_at(
                    kept(d, st, ops@, o2_title_read(m, ns as int)),
                    0,
                    20,
                ),
            forall|m: int|
                0 <= m < t ==> (#[trigger] titles[4 + m])@ == text_at(
                    kept(d, st, ops@, array_title_read(m, ns as int)),
                    0,
                    20,
                ),
        decreases TITLED_ARRAYS - t,
    {
        let at = 17 + 5 * ns + 2 * t;
        titles.push(vstd::slice::slice_to_vec(text_field(ts[at].as_slice(), 0, 20)));
        t = t + 1;
    }
    let iodine = match scan_iodine(src, nw) {
        Ok(v) => v,
        Err(e) => {
            return Err(e);
        },
    };
    let layout = SpectralLayout {
        title0,
        nqqq,
        nwww,
        nw1: hv[2],
        nw2: hv[3],
        nwsrb: hv[4],
        nsr,
        nodf,
        njval: nqqq as usize + 4,
        isr,
        odf,
        titles,
        iodine,
    };
    Ok(layout)
}

} // verus!
