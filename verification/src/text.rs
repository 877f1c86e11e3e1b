//! Fixed-format text fields: character boundaries, Unicode whitespace
//! trimming and decimal integer parsing, all on the UTF-8 bytes of a line.
use vstd::prelude::*;
use vstd::string::StringSliceAdditionalSpecFns;
use vstd::utf8::valid_utf8;

verus! {

/// A UTF-8 continuation byte (`10xxxxxx`).
pub open spec fn is_continuation(b: u8) -> bool {
    0x80 <= b && b <= 0xbf
}

/// Position `i` of the UTF-8 text `s` is a character boundary: the start,
/// the end, or a position whose byte begins a character.
pub open spec fn at_boundary(s: Seq<u8>, i: int) -> bool {
    i == 0 || i == s.len() || (0 < i < s.len() && !is_continuation(s[i]))
}

/// What `str::get(a..b)` yields on the text whose bytes are `s`.
pub open spec fn field_spec(s: Seq<u8>, a: int, b: int) -> Option<Seq<u8>> {
    if 0 <= a <= b && b <= s.len() && at_boundary(s, a) && at_boundary(s, b) {
        Some(s.subrange(a, b))
    } else {
        None
    }
}

/// The byte range `a..b` of `s`, when both ends are character boundaries
/// (the behaviour of `str::get(a..b)`).
pub fn field(s: &[u8], a: usize, b: usize) -> (r: Option<&[u8]>)
    ensures
        match r {
            Some(f) => field_spec(s@, a as int, b as int) == Some(f@),
            None => field_spec(s@, a as int, b as int) is None,
        },
{
    if a <= b && b <= s.len() && is_boundary(s, a) && is_boundary(s, b) {
        Some(&s[a..b])
    } else {
        None
    }
}

/// Executable form of [`at_boundary`].
pub fn is_boundary(s: &[u8], i: usize) -> (r: bool)
    ensures
        r == at_boundary(s@, i as int),
{
    if i == 0 || i == s.len() {
        true
    } else if i < s.len() {
        !(0x80 <= s[i] && s[i] <= 0xbf)
    } else {
        false
    }
}


/// A three-byte UTF-8 encoding of a Unicode whitespace character
/// (U+1680, U+2000..=U+200A, U+2028, U+2029, U+202F, U+205F, U+3000).
pub open spec fn is_ws3(a: u8, b: u8, c: u8) -> bool {
    ||| (a == 0xe1 && b == 0x9a && c == 0x80)
    ||| (a == 0xe2 && b == 0x80 && ((0x80 <= c && c <= 0x8a) || c == 0xa8 || c == 0xa9 || c == 0xaf))
    ||| (a == 0xe2 && b == 0x81 && c == 0x9f)
    ||| (a == 0xe3 && b == 0x80 && c == 0x80)
}

/// Length of the whitespace character (Unicode `White_Space`, as
/// `char::is_whitespace`) encoded at position `i` of `s`, or 0 if none is.
pub open spec fn ws_len_at(s: Seq<u8>, i: int) -> int {
    if !(0 <= i < s.len()) {
        0
    } else if s[i] == 0x20 || (0x09 <= s[i] && s[i] <= 0x0d) {
        1
    } else if s[i] == 0xc2 && i + 1 < s.len() && (s[i + 1] == 0x85 || s[i + 1] == 0xa0) {
        2
    } else if i + 2 < s.len() && is_ws3(s[i], s[i + 1], s[i + 2]) {
        3
    } else {
        0
    }
}

/// Length of the whitespace character that ends exactly at position `j`, or 0.
pub open spec fn ws_len_before(s: Seq<u8>, j: int) -> int {
    if j >= 1 && ws_len_at(s, j - 1) == 1 {
        1
    } else if j >= 2 && ws_len_at(s, j - 2) == 2 {
        2
    } else if j >= 3 && ws_len_at(s, j - 3) == 3 {
        3
    } else {
        0
    }
}

/// First position at or after `i` that does not start a whitespace character.
pub open spec fn skip_ws(s: Seq<u8>, i: int) -> int
    decreases s.len() - i,
{
    if 0 <= i < s.len() && ws_len_at(s, i) > 0 {
        skip_ws(s, i + ws_len_at(s, i))
    } else {
        i
    }
}

/// Last position at or before `j`, not below `lo`, that does not end a
/// whitespace character.
pub open spec fn back_ws(s: Seq<u8>, lo: int, j: int) -> int
    decreases j,
{
    if 0 <= lo < j && ws_len_before(s, j) > 0 && j - ws_len_before(s, j) >= lo {
        back_ws(s, lo, j - ws_len_before(s, j))
    } else {
        j
    }
}

/// Start of the trimmed text.
pub open spec fn trim_start(s: Seq<u8>) -> int {
    skip_ws(s, 0)
}

/// End of the trimmed text.
pub open spec fn trim_end(s: Seq<u8>) -> int {
    back_ws(s, trim_start(s), s.len() as int)
}

/// The text with leading and trailing whitespace removed (`str::trim`).
pub open spec fn trimmed(s: Seq<u8>) -> Seq<u8> {
    s.subrange(trim_start(s), trim_end(s))
}

pub proof fn lemma_skip_ws_bounds(s: Seq<u8>, i: int)
    requires
        0 <= i <= s.len(),
    ensures
        i <= skip_ws(s, i) <= s.len(),
    decreases s.len() - i,
{
    if 0 <= i < s.len() && ws_len_at(s, i) > 0 {
        lemma_skip_ws_bounds(s, i + ws_len_at(s, i));
    }
}

pub proof fn lemma_back_ws_bounds(s: Seq<u8>, lo: int, j: int)
    requires
        0 <= lo <= j,
    ensures
        lo <= back_ws(s, lo, j) <= j,
    decreases j,
{
    if 0 <= lo < j && ws_len_before(s, j) > 0 && j - ws_len_before(s, j) >= lo {
        lemma_back_ws_bounds(s, lo, j - ws_len_before(s, j));
    }
}

pub proof fn lemma_trim_bounds(s: Seq<u8>)
    ensures
        0 <= trim_start(s) <= trim_end(s) <= s.len(),
{
    lemma_skip_ws_bounds(s, 0);
    lemma_back_ws_bounds(s, trim_start(s), s.len() as int);
}

/// Executable form of [`ws_len_at`].
fn ws_len(s: &[u8], i: usize) -> (r: usize)
    ensures
        r == ws_len_at(s@, i as int),
        r <= 3,
{
    let n = s.len();
    if i >= n {
        return 0;
    }
    let b = s[i];
    if b == 0x20 || (0x09 <= b && b <= 0x0d) {
        1
    } else if b == 0xc2 && n - i > 1 && (s[i + 1] == 0x85 || s[i + 1] == 0xa0) {
        2
    } else if n - i > 2 {
        let b1 = s[i + 1];
        let b2 = s[i + 2];
        if (b == 0xe1 && b1 == 0x9a && b2 == 0x80) || (b == 0xe2 && b1 == 0x80 && ((0x80 <= b2
            && b2 <= 0x8a) || b2 == 0xa8 || b2 == 0xa9 || b2 == 0xaf)) || (b == 0xe2 && b1 == 0x81
            && b2 == 0x9f) || (b == 0xe3 && b1 == 0x80 && b2 == 0x80) {
            3
        } else {
            0
        }
    } else {
        0
    }
}

/// Executable form of [`ws_len_before`].
fn ws_len_end(s: &[u8], j: usize) -> (r: usize)
    requires
        j <= s.len(),
    ensures
        r == ws_len_before(s@, j as int),
        r <= j,
{
    if j >= 1 && ws_len(s, j - 1) == 1 {
        1
    } else if j >= 2 && ws_len(s, j - 2) == 2 {
        2
    } else if j >= 3 && ws_len(s, j - 3) == 3 {
        3
    } else {
        0
    }
}

/// Bounds of the trimmed text inside `s` (`str::trim`, which removes the
/// whitespace characters of Unicode at both ends).
pub fn trim_range(s: &[u8]) -> (r: (usize, usize))
    ensures
        r.0 == trim_start(s@),
        r.1 == trim_end(s@),
        r.0 <= r.1 <= s.len(),
{
    let n = s.len();
    let mut i: usize = 0;
    while i < n && ws_len(s, i) > 0
        invariant
            i <= n,
            n == s@.len(),
            skip_ws(s@, i as int) == skip_ws(s@, 0),
        decreases n - i,
    {
        let w = ws_len(s, i);
        i = i + w;
    }
    let mut j: usize = n;
    while j > i && ws_len_end(s, j) > 0 && j - ws_len_end(s, j) >= i
        invariant
            i <= j <= n,
            n == s@.len(),
            i == skip_ws(s@, 0),
            back_ws(s@, i as int, j as int) == back_ws(s@, i as int, n as int),
        decreases j,
    {
        let w = ws_len_end(s, j);
        j = j - w;
    }
    proof {
        lemma_trim_bounds(s@);
    }
    (i, j)
}

/// End of `s` without its trailing whitespace (`str::trim_end`).
pub open spec fn trim_end_only(s: Seq<u8>) -> int {
    back_ws(s, 0, s.len() as int)
}

/// Executable form of [`trim_end_only`].
pub fn trim_end_len(s: &[u8]) -> (r: usize)
    ensures
        r == trim_end_only(s@),
        r <= s.len(),
{
    let n = s.len();
    let mut j: usize = n;
    while j > 0 && ws_len_end(s, j) > 0
        invariant
            j <= n,
            n == s@.len(),
            back_ws(s@, 0, j as int) == back_ws(s@, 0, n as int),
        decreases j,
    {
        let w = ws_len_end(s, j);
        j = j - w;
    }
    proof {
        lemma_back_ws_bounds(s@, 0, n as int);
    }
    j
}

/// The text with leading and trailing whitespace removed.
pub fn trim(s: &[u8]) -> (r: &[u8])
    ensures
        r@ == trimmed(s@),
{
    let (a, b) = trim_range(s);
    &s[a..b]
}


/// An ASCII decimal digit.
pub open spec fn is_digit(b: u8) -> bool {
    0x30 <= b && b <= 0x39
}

/// Every byte of `s` is an ASCII digit.
pub open spec fn all_digits(s: Seq<u8>) -> bool {
    forall|i: int| 0 <= i < s.len() ==> is_digit(#[trigger] s[i])
}

/// The value of a string of decimal digits.
pub open spec fn digits_value(s: Seq<u8>) -> int
    decreases s.len(),
{
    if s.len() == 0 {
        0
    } else {
        digits_value(s.drop_last()) * 10 + (s.last() - 0x30)
    }
}

/// The grammar of std's integer `FromStr`: an optional `+` (or, for a
/// signed type, `-`) followed by one or more decimal digits; the value it
/// denotes, or `None` if `s` is not of that form.
pub open spec fn decimal_value(s: Seq<u8>, signed: bool) -> Option<int> {
    if s.len() > 0 && (s[0] == 0x2b || (signed && s[0] == 0x2d)) {
        let d = s.subrange(1, s.len() as int);
        if d.len() > 0 && all_digits(d) {
            Some(if s[0] == 0x2d { -digits_value(d) } else { digits_value(d) })
        } else {
            None
        }
    } else if s.len() > 0 && all_digits(s) {
        Some(digits_value(s))
    } else {
        None
    }
}

/// What `s.parse::<i32>()` yields, as an `Option`.
pub open spec fn i32_value(s: Seq<u8>) -> Option<i32> {
    match decimal_value(s, true) {
        Some(v) => if i32::MIN <= v <= i32::MAX { Some(v as i32) } else { None },
        None => None,
    }
}

/// What `s.parse::<usize>()` yields, as an `Option`.
pub open spec fn usize_value(s: Seq<u8>) -> Option<usize> {
    match decimal_value(s, false) {
        Some(v) => if 0 <= v <= usize::MAX { Some(v as usize) } else { None },
        None => None,
    }
}

pub proof fn lemma_digits_value_nonneg(s: Seq<u8>)
    requires
        all_digits(s),
    ensures
        digits_value(s) >= 0,
    decreases s.len(),
{
    if s.len() > 0 {
        assert(all_digits(s.drop_last()));
        lemma_digits_value_nonneg(s.drop_last());
        assert(is_digit(s[s.len() - 1]));
    }
}

/// 2^64: the cap above which a magnitude no longer fits any type parsed here.
pub open spec fn magnitude_cap() -> int {
    0x1_0000_0000_0000_0000
}

/// The value of the digits `s[from..]`, capped at 2^64, if they are one or
/// more ASCII digits.
fn digits_capped(s: &[u8], from: usize) -> (r: Option<u128>)
    requires
        from <= s.len(),
    ensures
        ({
            let d = s@.subrange(from as int, s.len() as int);
            match r {
                Some(v) => d.len() > 0 && all_digits(d) && (v == digits_value(d) || (v
                    == magnitude_cap() && digits_value(d) >= magnitude_cap())),
                None => !(d.len() > 0 && all_digits(d)),
            }
        }),
{
    let n = s.len();
    if from == n {
        return None;
    }
    let cap: u128 = 0x1_0000_0000_0000_0000;
    let mut acc: u128 = 0;
    let mut k: usize = from;
    while k < n
        invariant
            from <= k <= n,
            n == s@.len(),
            cap == magnitude_cap(),
            all_digits(s@.subrange(from as int, k as int)),
            acc <= cap,
            acc < cap ==> acc == digits_value(s@.subrange(from as int, k as int)),
            acc == cap ==> digits_value(s@.subrange(from as int, k as int)) >= cap,
        decreases n - k,
    {
        let b = s[k];
        if !(0x30 <= b && b <= 0x39) {
            proof {
                let d = s@.subrange(from as int, n as int);
                assert(d[k - from] == b);
            }
            return None;
        }
        let ghost pre = s@.subrange(from as int, k as int);
        let ghost post = s@.subrange(from as int, k + 1);
        proof {
            assert(post.drop_last() =~= pre);
            assert(post.last() == b);
            assert(all_digits(post)) by {
                assert forall|i: int| 0 <= i < post.len() implies is_digit(#[trigger] post[i]) by {
                    if i < pre.len() {
                        assert(post[i] == pre[i]);
                    }
                }
            }
            lemma_digits_value_nonneg(pre);
        }
        if acc < cap {
            let next: u128 = acc * 10 + (b - 0x30) as u128;
            acc = if next >= cap { cap } else { next };
        }
        k = k + 1;
    }
    assert(s@.subrange(from as int, n as int).len() > 0);
    Some(acc)
}

/// `s.parse::<i32>().ok()`.
pub fn parse_i32(s: &[u8]) -> (r: Option<i32>)
    ensures
        r == i32_value(s@),
{
    let n = s.len();
    if n == 0 {
        return None;
    }
    let first = s[0];
    let neg = first == 0x2d;
    let from: usize = if first == 0x2b || first == 0x2d { 1 } else { 0 };
    proof {
        if from == 0 {
            assert(s@.subrange(0, n as int) =~= s@);
        }
    }
    match digits_capped(s, from) {
        None => None,
        Some(m) => {
            if neg {
                if m <= 0x8000_0000 {
                    Some((0 - (m as i64)) as i32)
                } else {
                    None
                }
            } else if m <= 0x7fff_ffff {
                Some(m as i32)
            } else {
                None
            }
        },
    }
}

/// `s.parse::<usize>().ok()`.
pub fn parse_usize(s: &[u8]) -> (r: Option<usize>)
    ensures
        r == usize_value(s@),
{
    let n = s.len();
    if n == 0 {
        return None;
    }
    let from: usize = if s[0] == 0x2b { 1 } else { 0 };
    proof {
        if from == 0 {
            assert(s@.subrange(0, n as int) =~= s@);
        }
    }
    match digits_capped(s, from) {
        None => None,
        Some(m) => {
            if m <= usize::MAX as u128 {
                Some(m as usize)
            } else {
                None
            }
        },
    }
}


/// Whether the bytes are well-formed UTF-8 text.
///
/// Calls `std::str::from_utf8`, which returns `Ok` exactly when the slice is
/// valid UTF-8 (its documentation); the contract states that, with vstd's
/// definition of well-formed UTF-8.
#[verifier::external_body]
pub(crate) fn is_utf8(bytes: &[u8]) -> (r: bool)
    ensures
        r == valid_utf8(bytes@),
{
    std::str::from_utf8(bytes).is_ok()
}

/// The smaller of two integers.
pub open spec fn min_int(a: int, b: int) -> int {
    if a <= b { a } else { b }
}

/// The integer read from the fixed-width field of `width` bytes at `start`
/// of the line `s`: 0 past the end of the line, for a field that is not
/// UTF-8 text, or for a trimmed field that is not an `i32`.
pub open spec fn fixed_i32_field(s: Seq<u8>, start: int, width: int) -> i32 {
    if start >= s.len() {
        0
    } else {
        let chunk = s.subrange(start, min_int(start + width, s.len() as int));
        if !valid_utf8(chunk) {
            0
        } else {
            match i32_value(trimmed(chunk)) {
                Some(v) => v,
                None => 0,
            }
        }
    }
}

/// Parse `count` fixed-width `i32` fields of `width` characters each,
/// starting at byte `offset` of `line` (Fortran `nIw` input).
pub fn parse_fixed_i32s(line: &str, offset: usize, width: usize, count: usize) -> (r: Vec<i32>)
    requires
        offset + count * width <= usize::MAX,
    ensures
        r.len() == count,
        forall|i: int|
            0 <= i < count ==> #[trigger] r[i] == fixed_i32_field(
                line.spec_bytes(),
                offset + i * width,
                width as int,
            ),
{
    fixed_i32s(line.as_bytes(), offset, width, count)
}

/// [`parse_fixed_i32s`] on the bytes of a line.
pub fn fixed_i32s(bytes: &[u8], offset: usize, width: usize, count: usize) -> (r: Vec<i32>)
    requires
        offset + count * width <= usize::MAX,
    ensures
        r.len() == count,
        forall|i: int|
            0 <= i < count ==> #[trigger] r[i] == fixed_i32_field(
                bytes@,
                offset + i * width,
                width as int,
            ),
{
    let n = bytes.len();
    let mut out: Vec<i32> = Vec::new();
    let mut i: usize = 0;
    let mut start: usize = offset;
    while i < count
        invariant
            i <= count,
            n == bytes@.len(),
            offset + count * width <= usize::MAX,
            start == offset + i * width,
            out.len() == i,
            forall|k: int|
                0 <= k < i ==> #[trigger] out[k] == fixed_i32_field(
                    bytes@,
                    offset + k * width,
                    width as int,
                ),
        decreases count - i,
    {
        proof {
            assert((i + 1) * width == i * width + width) by (nonlinear_arith);
            assert(i * width + width <= count * width) by (nonlinear_arith)
                requires
                    i < count,
            ;
        }
        let end = if start + width < n { start + width } else { n };
        let v: i32 = if start >= n {
            0
        } else {
            let chunk = &bytes[start..end];
            if !is_utf8(chunk) {
                0
            } else {
                match parse_i32(trim(chunk)) {
                    Some(v) => v,
                    None => 0,
                }
            }
        };
        out.push(v);
        i = i + 1;
        start = start + width;
    }
    out
}

/// End of the run of non-whitespace characters that starts at `i`.
pub open spec fn token_end(s: Seq<u8>, i: int) -> int
    decreases s.len() - i,
{
    if 0 <= i < s.len() && ws_len_at(s, i) == 0 {
        token_end(s, i + 1)
    } else {
        i
    }
}

pub proof fn lemma_token_end_bounds(s: Seq<u8>, i: int)
    requires
        0 <= i <= s.len(),
    ensures
        i <= token_end(s, i) <= s.len(),
        i < s.len() && ws_len_at(s, i) == 0 ==> token_end(s, i) > i,
    decreases s.len() - i,
{
    if 0 <= i < s.len() && ws_len_at(s, i) == 0 {
        lemma_token_end_bounds(s, i + 1);
    }
}

/// The whitespace-separated words of `s` from position `i` on
/// (`str::split_whitespace`).
pub open spec fn words_from(s: Seq<u8>, i: int) -> Seq<Seq<u8>>
    decreases s.len() - i,
{
    if 0 <= i <= s.len() {
        let a = skip_ws(s, i);
        if a >= s.len() {
            Seq::empty()
        } else {
            let b = token_end(s, a);
            proof {
                lemma_skip_ws_bounds(s, i);
                lemma_token_end_bounds(s, a);
            }
            if b > i {
                seq![s.subrange(a, b)] + words_from(s, b)
            } else {
                Seq::empty()
            }
        }
    } else {
        Seq::empty()
    }
}

/// The whitespace-separated words of `s`.
pub open spec fn words(s: Seq<u8>) -> Seq<Seq<u8>> {
    words_from(s, 0)
}

/// ASCII upper case of a byte (`u8::to_ascii_uppercase`).
pub open spec fn upper(b: u8) -> u8 {
    if 0x61 <= b && b <= 0x7a { (b - 32) as u8 } else { b }
}

/// A Fortran logical that reads as true: `T`, `.T.` or `.TRUE.`, in any case.
pub open spec fn is_true_word(t: Seq<u8>) -> bool {
    ||| t.len() == 1 && upper(t[0]) == 0x54
    ||| t.len() == 3 && t[0] == 0x2e && upper(t[1]) == 0x54 && t[2] == 0x2e
    ||| t.len() == 6 && t[0] == 0x2e && upper(t[1]) == 0x54 && upper(t[2]) == 0x52 && upper(t[3])
        == 0x55 && upper(t[4]) == 0x45 && t[5] == 0x2e
}

fn upper_exec(b: u8) -> (r: u8)
    ensures
        r == upper(b),
{
    if 0x61 <= b && b <= 0x7a {
        b - 32
    } else {
        b
    }
}

fn true_word(t: &[u8]) -> (r: bool)
    ensures
        r == is_true_word(t@),
{
    let n = t.len();
    if n == 1 {
        upper_exec(t[0]) == 0x54
    } else if n == 3 {
        t[0] == 0x2e && upper_exec(t[1]) == 0x54 && t[2] == 0x2e
    } else if n == 6 {
        t[0] == 0x2e && upper_exec(t[1]) == 0x54 && upper_exec(t[2]) == 0x52 && upper_exec(t[3])
            == 0x55 && upper_exec(t[4]) == 0x45 && t[5] == 0x2e
    } else {
        false
    }
}

/// Read `count` Fortran logicals (`nL2` input): the first `count` words of
/// the line, each true when it reads `T`, `.T.` or `.TRUE.` in any case;
/// missing words read as false.
pub fn parse_fortran_logicals(text: &str, count: usize) -> (r: Vec<bool>)
    ensures
        r.len() == count,
        forall|i: int|
            0 <= i < count ==> #[trigger] r[i] == (i < words(text.spec_bytes()).len()
                && is_true_word(words(text.spec_bytes())[i])),
{
    fortran_logicals(text.as_bytes(), count)
}

/// [`parse_fortran_logicals`] on the bytes of a line.
pub fn fortran_logicals(line: &[u8], count: usize) -> (r: Vec<bool>)
    ensures
        r.len() == count,
        forall|i: int|
            0 <= i < count ==> #[trigger] r[i] == (i < words(line@).len() && is_true_word(
                words(line@)[i],
            )),
{
    let n = line.len();
    let mut out: Vec<bool> = Vec::new();
    let mut pos: usize = 0;
    let ghost mut seen: Seq<Seq<u8>> = Seq::empty();
    let mut done = false;
    while out.len() < count && !done
        invariant
            pos <= n,
            n == line@.len(),
            out.len() == seen.len(),
            out.len() <= count,
            words(line@) == seen + words_from(line@, pos as int),
            done ==> words_from(line@, pos as int) == Seq::<Seq<u8>>::empty(),
            forall|k: int| 0 <= k < out.len() ==> #[trigger] out[k] == is_true_word(seen[k]),
        decreases count - out.len(), if done { 0int } else { 1int },
    {
        let mut a = pos;
        while a < n && ws_len(line, a) > 0
            invariant
                pos <= a <= n,
                n == line@.len(),
                skip_ws(line@, a as int) == skip_ws(line@, pos as int),
            decreases n - a,
        {
            a = a + ws_len(line, a);
        }
        if a >= n {
            done = true;
        } else {
            let mut b = a;
            while b < n && ws_len(line, b) == 0
                invariant
                    a <= b <= n,
                    n == line@.len(),
                    token_end(line@, b as int) == token_end(line@, a as int),
                decreases n - b,
            {
                b = b + 1;
            }
            proof {
                lemma_token_end_bounds(line@, a as int);
                let w = line@.subrange(a as int, b as int);
                assert(words_from(line@, pos as int) == seq![w] + words_from(line@, b as int));
                seen = seen.push(w);
            }
            out.push(true_word(&line[a..b]));
            pos = b;
        }
    }
    proof {
        if out.len() < count {
            assert(words(line@) =~= seen);
        }
    }
    while out.len() < count
        invariant
            out.len() <= count,
            out.len() >= seen.len(),
            seen.len() < out.len() || out.len() < count ==> words(line@) == seen,
            words(line@).len() >= seen.len(),
            forall|k: int| 0 <= k < seen.len() ==> #[trigger] words(line@)[k] == seen[k],
            forall|k: int| 0 <= k < seen.len() ==> #[trigger] out[k] == is_true_word(seen[k]),
            forall|k: int| seen.len() <= k < out.len() ==> #[trigger] out[k] == false,
        decreases count - out.len(),
    {
        out.push(false);
    }
    out
}


/// Position of the first sign (`+` or `-`) at or after `i` that follows a
/// digit or a `.`, or the length of `s` if there is none.
pub open spec fn bare_sign_from(s: Seq<u8>, i: int) -> int
    decreases s.len() - i,
{
    if i >= s.len() || i < 1 {
        s.len() as int
    } else if (s[i] == 0x2b || s[i] == 0x2d) && (is_digit(s[i - 1]) || s[i - 1] == 0x2e) {
        i
    } else {
        bare_sign_from(s, i + 1)
    }
}

/// `s` with an `e` inserted before the first sign that follows a digit or a
/// `.` (a Fortran exponent written without its letter, `1.80-11`), or `s`
/// itself if it has no such sign.
pub open spec fn with_exponent_letter(s: Seq<u8>) -> Seq<u8> {
    let p = bare_sign_from(s, 1);
    if p < s.len() {
        s.subrange(0, p) + seq![0x65u8] + s.subrange(p, s.len() as int)
    } else {
        s
    }
}

pub proof fn lemma_bare_sign_bounds(s: Seq<u8>, i: int)
    requires
        1 <= i,
    ensures
        i <= bare_sign_from(s, i) || bare_sign_from(s, i) == s.len(),
        bare_sign_from(s, i) <= s.len(),
        bare_sign_from(s, i) < s.len() ==> bare_sign_from(s, i) >= 1,
    decreases s.len() - i,
{
    if i < s.len() && !((s[i] == 0x2b || s[i] == 0x2d) && (is_digit(s[i - 1]) || s[i - 1] == 0x2e)) {
        lemma_bare_sign_bounds(s, i + 1);
    }
}

/// Insert the missing exponent letter of a Fortran `E` field
/// (`"1.80-11"` becomes `"1.80e-11"`); other text is returned unchanged.
pub fn fix_bare_exponent(s: &[u8]) -> (r: Vec<u8>)
    ensures
        r@ == with_exponent_letter(s@),
{
    let n = s.len();
    let mut i: usize = 1;
    while i < n
        invariant
            1 <= i,
            n == s@.len(),
            bare_sign_from(s@, i as int) == bare_sign_from(s@, 1),
        decreases n - i,
    {
        let c = s[i];
        let prev = s[i - 1];
        if (c == 0x2b || c == 0x2d) && ((0x30 <= prev && prev <= 0x39) || prev == 0x2e) {
            let mut out = vstd::slice::slice_to_vec(&s[0..i]);
            out.push(0x65);
            let mut k = i;
            while k < n
                invariant
                    i <= k <= n,
                    n == s@.len(),
                    out@ == s@.subrange(0, i as int) + seq![0x65u8] + s@.subrange(i as int, k as int),
                decreases n - k,
            {
                out.push(s[k]);
                k = k + 1;
                proof {
                    assert(s@.subrange(i as int, k as int) =~= s@.subrange(i as int, k - 1).push(
                        s@[k - 1],
                    ));
                }
            }
            return out;
        }
        i = i + 1;
    }
    proof {
        lemma_bare_sign_bounds(s@, 1);
    }
    vstd::slice::slice_to_vec(s)
}

/// Whether `s` holds the byte `c`.
pub open spec fn has_byte(s: Seq<u8>, c: u8) -> bool {
    exists|i: int| 0 <= i < s.len() && s[i] == c
}

fn contains_byte(s: &[u8], c: u8) -> (r: bool)
    ensures
        r == has_byte(s@, c),
{
    let mut i: usize = 0;
    while i < s.len()
        invariant
            i <= s.len(),
            forall|k: int| 0 <= k < i ==> s@[k] != c,
        decreases s.len() - i,
    {
        if s[i] == c {
            return true;
        }
        i = i + 1;
    }
    false
}

/// The text of a Fortran `E10.3` field as a Rust float literal reads it:
/// `None` for a blank field (which reads as zero), the trimmed field if it
/// has an exponent letter (`E` or `e`), else the trimmed field with the
/// letter inserted by [`fix_bare_exponent`].
pub open spec fn e_field_spec(s: Seq<u8>) -> Option<Seq<u8>> {
    let t = trimmed(s);
    if t.len() == 0 {
        None
    } else if has_byte(t, 0x45) || has_byte(t, 0x65) {
        Some(t)
    } else {
        Some(with_exponent_letter(t))
    }
}

/// Executable form of [`e_field_spec`]: the text that the float reader of an
/// `E10.3` field parses, or `None` for a blank field.
pub fn e_field_text(s: &[u8]) -> (r: Option<Vec<u8>>)
    ensures
        match r {
            Some(v) => e_field_spec(s@) == Some(v@),
            None => e_field_spec(s@) is None,
        },
{
    let t = trim(s);
    if t.len() == 0 {
        None
    } else if contains_byte(t, 0x45) || contains_byte(t, 0x65) {
        Some(vstd::slice::slice_to_vec(t))
    } else {
        Some(fix_bare_exponent(t))
    }
}

// ── Fields of fixed-format records ─────────────────────────────────────────

/// The trimmed text of the field `a..b` of a line, or the empty text if
/// the line has no such field.
pub open spec fn text_at(l: Seq<u8>, a: int, b: int) -> Seq<u8> {
    match field_spec(l, a, b) {
        Some(f) => trimmed(f),
        None => Seq::empty(),
    }
}

/// The unsigned integer of the field `a..b`, 0 if blank or unreadable.
pub open spec fn usize_at(l: Seq<u8>, a: int, b: int) -> usize {
    match usize_value(text_at(l, a, b)) {
        Some(v) => v,
        None => 0,
    }
}

/// The signed integer of the field `a..b`, 0 if blank or unreadable.
pub open spec fn i32_at(l: Seq<u8>, a: int, b: int) -> i32 {
    match i32_value(text_at(l, a, b)) {
        Some(v) => v,
        None => 0,
    }
}

/// The text of field `a..b`, trimmed (empty if the line has no such field).
pub fn text_field(l: &[u8], a: usize, b: usize) -> (r: &[u8])
    ensures
        r@ == text_at(l@, a as int, b as int),
{
    match field(l, a, b) {
        Some(f) => trim(f),
        None => {
            let e: &[u8] = &l[0..0];
            assert(e@ =~= Seq::<u8>::empty());
            e
        },
    }
}

/// The unsigned integer of field `a..b`, 0 if blank or unreadable.
pub fn usize_field(l: &[u8], a: usize, b: usize) -> (r: usize)
    ensures
        r == usize_at(l@, a as int, b as int),
{
    match parse_usize(text_field(l, a, b)) {
        Some(v) => v,
        None => 0,
    }
}

/// The signed integer of field `a..b`, 0 if blank or unreadable.
pub fn i32_field(l: &[u8], a: usize, b: usize) -> (r: i32)
    ensures
        r == i32_at(l@, a as int, b as int),
{
    match parse_i32(text_field(l, a, b)) {
        Some(v) => v,
        None => 0,
    }
}

/// The byte texts of a list of lines.
pub open spec fn texts(v: Seq<Vec<u8>>) -> Seq<Seq<u8>> {
    Seq::new(v.len(), |i: int| v[i]@)
}

/// The whitespace-separated words of `s` (`str::split_whitespace`).
pub fn split_words(s: &[u8]) -> (r: Vec<Vec<u8>>)
    ensures
        texts(r@) == words(s@),
{
    let n = s.len();
    let mut out: Vec<Vec<u8>> = Vec::new();
    let mut pos: usize = 0;
    let ghost mut seen: Seq<Seq<u8>> = Seq::empty();
    let mut done = false;
    while !done
        invariant
            pos <= n,
            n == s@.len(),
            texts(out@) == seen,
            words(s@) == seen + words_from(s@, pos as int),
            done ==> words_from(s@, pos as int) == Seq::<Seq<u8>>::empty(),
        decreases n - pos, if done { 0int } else { 1int },
    {
        let mut a = pos;
        while a < n && ws_len(s, a) > 0
            invariant
                pos <= a <= n,
                n == s@.len(),
                skip_ws(s@, a as int) == skip_ws(s@, pos as int),
            decreases n - a,
        {
            a = a + ws_len(s, a);
        }
        if a >= n {
            done = true;
        } else {
            let mut b = a;
            while b < n && ws_len(s, b) == 0
                invariant
                    a <= b <= n,
                    n == s@.len(),
                    token_end(s@, b as int) == token_end(s@, a as int),
                decreases n - b,
            {
                b = b + 1;
            }
            let w = vstd::slice::slice_to_vec(&s[a..b]);
            proof {
                lemma_token_end_bounds(s@, a as int);
                assert(words_from(s@, pos as int) == seq![w@] + words_from(s@, b as int));
                seen = seen.push(w@);
            }
            out.push(w);
            proof {
                assert(texts(out@) =~= seen);
            }
            pos = b;
        }
    }
    proof {
        assert(words(s@) =~= seen);
    }
    out
}

/// The trimmed text of the fixed-width field of `width` bytes at `start`
/// of the line `s`: empty past the end of the line or for a field that is
/// not UTF-8 text (the cases a float field reads as zero).
pub open spec fn fixed_text_field(s: Seq<u8>, start: int, width: int) -> Seq<u8> {
    if start >= s.len() {
        Seq::empty()
    } else {
        let chunk = s.subrange(start, min_int(start + width, s.len() as int));
        if !valid_utf8(chunk) {
            Seq::empty()
        } else {
            trimmed(chunk)
        }
    }
}

/// The texts of `count` fixed-width fields of `width` bytes each, starting
/// at byte `offset` of `line` (the fields of Fortran `nFw.d` input).
pub fn fixed_texts(line: &[u8], offset: usize, width: usize, count: usize) -> (r: Vec<Vec<u8>>)
    requires
        offset + count * width <= usize::MAX,
    ensures
        r.len() == count,
        forall|i: int|
            0 <= i < count ==> #[trigger] r[i]@ == fixed_text_field(
                line@,
                offset + i * width,
                width as int,
            ),
{
    let n = line.len();
    let mut out: Vec<Vec<u8>> = Vec::new();
    let mut i: usize = 0;
    let mut start: usize = offset;
    while i < count
        invariant
            i <= count,
            n == line@.len(),
            offset + count * width <= usize::MAX,
            start == offset + i * width,
            out.len() == i,
            forall|k: int|
                0 <= k < i ==> #[trigger] out[k]@ == fixed_text_field(
                    line@,
                    offset + k * width,
                    width as int,
                ),
        decreases count - i,
    {
        proof {
            assert((i + 1) * width == i * width + width) by (nonlinear_arith);
            assert(i * width + width <= count * width) by (nonlinear_arith)
                requires
                    i < count,
            ;
        }
        let end = if start + width < n { start + width } else { n };
        let v: Vec<u8> = if start >= n {
            Vec::new()
        } else {
            let chunk = &line[start..end];
            if !is_utf8(chunk) {
                Vec::new()
            } else {
                vstd::slice::slice_to_vec(trim(chunk))
            }
        };
        proof {
            if start >= n || !valid_utf8(line@.subrange(start as int, end as int)) {
                assert(v@ =~= Seq::<u8>::empty());
            }
        }
        out.push(v);
        i = i + 1;
        start = start + width;
    }
    out
}

/// The view of an optional text.
pub open spec fn opt_view(o: Option<Vec<u8>>) -> Option<Seq<u8>> {
    match o {
        Some(v) => Some(v@),
        None => None,
    }
}

/// The text an `E10.3` field `a..b` of a line is read from (a missing field
/// reads as blank).
pub open spec fn e_field_at(l: Seq<u8>, a: int, b: int) -> Option<Seq<u8>> {
    match field_spec(l, a, b) {
        Some(f) => e_field_spec(f),
        None => e_field_spec(Seq::empty()),
    }
}

/// The text of an `E10.3` field `a..b`.
pub fn e_field_of(l: &[u8], a: usize, b: usize) -> (r: Option<Vec<u8>>)
    ensures
        opt_view(r) == e_field_at(l@, a as int, b as int),
{
    let f: &[u8] = match field(l, a, b) {
        Some(f) => f,
        None => {
            let e: &[u8] = &l[0..0];
            assert(e@ =~= Seq::<u8>::empty());
            e
        },
    };
    match e_field_text(f) {
        Some(v) => Some(v),
        None => None,
    }
}

/// Eight blanks: a missing label.
pub open spec fn blank_label() -> Seq<u8> {
    Seq::new(8, |i: int| 0x20u8)
}

/// The label field `a..b` of a line, untrimmed, blank when missing.
pub open spec fn label_at(l: Seq<u8>, a: int, b: int) -> Seq<u8> {
    match field_spec(l, a, b) {
        Some(f) => f,
        None => blank_label(),
    }
}

/// The label field `a..b`, untrimmed, eight blanks when missing.
pub fn label_of(l: &[u8], a: usize, b: usize) -> (r: Vec<u8>)
    ensures
        r@ == label_at(l@, a as int, b as int),
{
    match field(l, a, b) {
        Some(f) => vstd::slice::slice_to_vec(f),
        None => {
            let r: Vec<u8> = vec![0x20u8, 0x20, 0x20, 0x20, 0x20, 0x20, 0x20, 0x20];
            assert(r@ =~= blank_label());
            r
        },
    }
}

/// `t` with each `d` or `D` written `e`: a Fortran double-precision
/// exponent written as one that Rust's float reader takes.
pub open spec fn d_as_e(t: Seq<u8>) -> Seq<u8> {
    Seq::new(t.len(), |i: int| if t[i] == 0x64 || t[i] == 0x44 { 0x65u8 } else { t[i] })
}

/// Executable form of [`d_as_e`].
pub fn d_as_e_exec(t: &[u8]) -> (r: Vec<u8>)
    ensures
        r@ == d_as_e(t@),
{
    let mut r: Vec<u8> = Vec::new();
    let mut i: usize = 0;
    while i < t.len()
        invariant
            i <= t.len(),
            r.len() == i,
            forall|k: int| 0 <= k < i ==> #[trigger] r[k] == d_as_e(t@)[k],
        decreases t.len() - i,
    {
        let b = t[i];
        r.push(
            if b == 0x64 || b == 0x44 {
                0x65
            } else {
                b
            },
        );
        i = i + 1;
    }
    assert(r@ =~= d_as_e(t@));
    r
}

} // verus!
