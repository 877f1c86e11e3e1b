//! Line-by-line reading of an input file held in memory, as the model's
//! `BufRead` readers see it.
use vstd::prelude::*;
use vstd::utf8::valid_utf8;

use crate::text::is_utf8;

verus! {

/// Why a line could not be read.
#[derive(Debug, Clone, Copy, PartialEq, Eq)]
pub enum LineError {
    /// The line is not UTF-8 text.
    NotUtf8,
}

/// The contents of an input file and the read position in them.
pub struct LineSource {
    bytes: Vec<u8>,
    pos: usize,
}

/// Position just past the next `\n` at or after `i`, or the end of `b`.
pub open spec fn line_end(b: Seq<u8>, i: int) -> int
    decreases b.len() - i,
{
    if i >= b.len() {
        b.len() as int
    } else if b[i] == 0x0a {
        i + 1
    } else {
        line_end(b, i + 1)
    }
}

pub proof fn lemma_line_end_bounds(b: Seq<u8>, i: int)
    requires
        0 <= i <= b.len(),
    ensures
        i <= line_end(b, i) <= b.len(),
        i < b.len() ==> line_end(b, i) > i,
    decreases b.len() - i,
{
    if i < b.len() && b[i] != 0x0a {
        lemma_line_end_bounds(b, i + 1);
    }
}

/// Start of the `k`-th line (0-based) after position `p`.
pub open spec fn line_start(b: Seq<u8>, p: int, k: nat) -> int
    decreases k,
{
    if k == 0 {
        p
    } else {
        line_end(b, line_start(b, p, (k - 1) as nat))
    }
}

/// The raw bytes of the `k`-th line after position `p`, ending included.
pub open spec fn raw_line(b: Seq<u8>, p: int, k: nat) -> Seq<u8> {
    b.subrange(line_start(b, p, k), line_end(b, line_start(b, p, k)))
}

/// The `k`-th line after position `p` as the model reads it.
pub open spec fn text_line(b: Seq<u8>, p: int, k: nat) -> Seq<u8> {
    line_text(raw_line(b, p, k))
}

pub proof fn lemma_line_start_bounds(b: Seq<u8>, p: int, k: nat)
    requires
        0 <= p <= b.len(),
    ensures
        p <= line_start(b, p, k) <= b.len(),
    decreases k,
{
    if k > 0 {
        lemma_line_start_bounds(b, p, (k - 1) as nat);
        lemma_line_end_bounds(b, line_start(b, p, (k - 1) as nat));
    }
}

/// Lines counted from the start of line `a` continue the count from `p`.
pub proof fn lemma_line_start_split(d: Seq<u8>, p: int, a: nat, k: nat)
    ensures
        line_start(d, line_start(d, p, a), k) == line_start(d, p, a + k),
        raw_line(d, line_start(d, p, a), k) == raw_line(d, p, a + k),
        text_line(d, line_start(d, p, a), k) == text_line(d, p, a + k),
    decreases k,
{
    if k > 0 {
        lemma_line_start_split(d, p, a, (k - 1) as nat);
        assert(line_start(d, p, a + k) == line_end(d, line_start(d, p, (a + k - 1) as nat)));
    }
}

/// `s` without its trailing copies of the byte `c` (`str::trim_end_matches`).
pub open spec fn strip_trailing(s: Seq<u8>, c: u8) -> Seq<u8>
    decreases s.len(),
{
    if s.len() > 0 && s.last() == c {
        strip_trailing(s.drop_last(), c)
    } else {
        s
    }
}

/// A line without its line ending: trailing `\n` removed, then trailing `\r`.
pub open spec fn line_text(raw: Seq<u8>) -> Seq<u8> {
    strip_trailing(strip_trailing(raw, 0x0a), 0x0d)
}

impl LineSource {
    /// The file's bytes.
    pub closed spec fn data(&self) -> Seq<u8> {
        self.bytes@
    }

    /// The read position.
    pub closed spec fn position(&self) -> int {
        self.pos as int
    }

    /// The read position lies within the data.
    pub closed spec fn wf(&self) -> bool {
        self.pos <= self.bytes.len()
    }

    /// A well-formed source reads within its data.
    pub proof fn lemma_position_in_data(&self)
        requires
            self.wf(),
        ensures
            0 <= self.position() <= self.data().len(),
            self.data().len() <= usize::MAX,
    {
    }

    /// The raw bytes of the next line, line ending included.
    pub open spec fn next_raw(&self) -> Seq<u8> {
        self.data().subrange(self.position(), line_end(self.data(), self.position()))
    }

    /// A source positioned at the start of `bytes`.
    pub fn new(bytes: Vec<u8>) -> (r: LineSource)
        ensures
            r.wf(),
            r.data() == bytes@,
            r.position() == 0,
    {
        LineSource { bytes, pos: 0 }
    }

    /// Whether every byte has been read.
    pub fn at_end(&self) -> (r: bool)
        requires
            self.wf(),
        ensures
            r == (self.position() == self.data().len()),
    {
        self.pos == self.bytes.len()
    }

    /// Read through the next `\n` (or to the end): what `BufRead::read_line`
    /// consumes.
    fn take_raw(&mut self) -> (r: Vec<u8>)
        requires
            old(self).wf(),
        ensures
            final(self).wf(),
            final(self).data() == old(self).data(),
            final(self).position() == line_end(old(self).data(), old(self).position()),
            r@ == old(self).next_raw(),
    {
        let n = self.bytes.len();
        let start = self.pos;
        let mut k = start;
        while k < n && self.bytes[k] != 0x0a
            invariant
                start <= k <= n,
                n == self.bytes@.len(),
                line_end(self.bytes@, k as int) == line_end(self.bytes@, start as int),
            decreases n - k,
        {
            k = k + 1;
        }
        let end = if k < n { k + 1 } else { n };
        let r = vstd::slice::slice_to_vec(&self.bytes.as_slice()[start..end]);
        self.pos = end;
        r
    }
}

/// Strip the trailing copies of `c`.
fn strip_trailing_exec(s: Vec<u8>, c: u8) -> (r: Vec<u8>)
    ensures
        r@ == strip_trailing(s@, c),
{
    let mut v = s;
    let ghost orig = v@;
    while v.len() > 0 && v[v.len() - 1] == c
        invariant
            strip_trailing(v@, c) == strip_trailing(orig, c),
        decreases v.len(),
    {
        let ghost before = v@;
        v.pop();
        proof {
            assert(v@ =~= before.drop_last());
        }
    }
    v
}

/// Read one line and return it without its line ending; an exhausted source
/// gives an empty line. A line that is not UTF-8 is consumed and refused.
pub fn next_line(src: &mut LineSource) -> (r: Result<Vec<u8>, LineError>)
    requires
        old(src).wf(),
    ensures
        final(src).wf(),
        final(src).data() == old(src).data(),
        final(src).position() == line_end(old(src).data(), old(src).position()),
        match r {
            Ok(line) => valid_utf8(old(src).next_raw()) && line@ == line_text(old(src).next_raw()),
            Err(e) => !valid_utf8(old(src).next_raw()) && e == LineError::NotUtf8,
        },
{
    let raw = src.take_raw();
    if !is_utf8(raw.as_slice()) {
        return Err(LineError::NotUtf8);
    }
    let a = strip_trailing_exec(raw, 0x0a);
    Ok(strip_trailing_exec(a, 0x0d))
}

/// Read one line with its line ending (what `BufRead::read_line` appends);
/// an exhausted source gives an empty line. A line that is not UTF-8 is
/// consumed and refused.
pub fn read_raw_line(src: &mut LineSource) -> (r: Result<Vec<u8>, LineError>)
    requires
        old(src).wf(),
    ensures
        final(src).wf(),
        final(src).data() == old(src).data(),
        final(src).position() == line_end(old(src).data(), old(src).position()),
        match r {
            Ok(line) => valid_utf8(old(src).next_raw()) && line@ == old(src).next_raw(),
            Err(e) => !valid_utf8(old(src).next_raw()) && e == LineError::NotUtf8,
        },
{
    let raw = src.take_raw();
    if is_utf8(raw.as_slice()) {
        Ok(raw)
    } else {
        Err(LineError::NotUtf8)
    }
}

/// Read one line and discard it.
pub fn skip_line(src: &mut LineSource) -> (r: Result<(), LineError>)
    requires
        old(src).wf(),
    ensures
        final(src).wf(),
        final(src).data() == old(src).data(),
        final(src).position() == line_end(old(src).data(), old(src).position()),
        r is Ok <==> valid_utf8(old(src).next_raw()),
{
    let raw = src.take_raw();
    if is_utf8(raw.as_slice()) {
        Ok(())
    } else {
        Err(LineError::NotUtf8)
    }
}

/// Read the next `count` lines, refused at the first that is not UTF-8.
pub fn read_lines(src: &mut LineSource, count: usize) -> (r: Result<Vec<Vec<u8>>, LineError>)
    requires
        old(src).wf(),
    ensures
        final(src).wf(),
        final(src).data() == old(src).data(),
        match r {
            Ok(ls) => {
                &&& ls.len() == count
                &&& final(src).position() == line_start(old(src).data(), old(src).position(), count as nat)
                &&& forall|i: int|
                    0 <= i < count ==> #[trigger] ls[i]@ == text_line(
                        old(src).data(),
                        old(src).position(),
                        i as nat,
                    ) && valid_utf8(raw_line(old(src).data(), old(src).position(), i as nat))
            },
            Err(_) => exists|i: int|
                0 <= i < count && !#[trigger] valid_utf8(
                    raw_line(old(src).data(), old(src).position(), i as nat),
                ),
        },
{
    let ghost d = src.data();
    let ghost p = src.position();
    let mut out: Vec<Vec<u8>> = Vec::new();
    let mut i: usize = 0;
    while i < count
        invariant
            i <= count,
            src.wf(),
            src.data() == d,
            d == old(src).data(),
            p == old(src).position(),
            src.position() == line_start(d, p, i as nat),
            out.len() == i,
            forall|k: int|
                0 <= k < i ==> #[trigger] out[k]@ == text_line(d, p, k as nat) && valid_utf8(
                    raw_line(d, p, k as nat),
                ),
        decreases count - i,
    {
        let l = match next_line(src) {
            Ok(l) => l,
            Err(e) => {
                let ghost w: int = i as int;
                assert(!valid_utf8(raw_line(d, p, w as nat)));
                assert(exists|k: int| 0 <= k < count && !#[trigger] valid_utf8(raw_line(d, p, k as nat)));
                return Err(e);
            },
        };
        proof {
            assert(line_start(d, p, (i + 1) as nat) == line_end(d, line_start(d, p, i as nat)));
        }
        out.push(l);
        i = i + 1;
    }
    Ok(out)
}

} // verus!
