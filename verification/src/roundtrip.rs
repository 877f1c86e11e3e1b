//! What the fixed-width readers give back of the lines that the `16I5` and
//! `8A8` writers wrote.
use vstd::prelude::*;
use vstd::utf8::{valid_utf8, partial_valid_utf8, partial_valid_utf8_extend_ascii_block};

use crate::format::{
    a8_block, a8_cut, a8_fields, a8_text, char_count, decimal_text, digits_of, i5_block, i5_fields,
    i5_text, spaces,
};
use crate::text::{
    all_digits, digits_value, fixed_i32_field, fixed_text_field, i32_value, is_continuation,
    is_digit, min_int, skip_ws, trimmed,
    ws_len_at, ws_len_before, back_ws, trim_start, trim_end,
};

verus! {

/// An integer that `{:5}` writes in exactly five columns.
pub open spec fn fits_i5(v: int) -> bool {
    -9999 <= v <= 99999
}

proof fn lemma_digits_of(v: nat)
    ensures
        all_digits(digits_of(v)),
        digits_value(digits_of(v)) == v,
        digits_of(v).len() >= 1,
        v < 10 ==> digits_of(v).len() == 1,
        v < 100 ==> digits_of(v).len() <= 2,
        v < 1000 ==> digits_of(v).len() <= 3,
        v < 10000 ==> digits_of(v).len() <= 4,
        v < 100000 ==> digits_of(v).len() <= 5,
    decreases v,
{
    let s = digits_of(v);
    if v >= 10 {
        let q = (v / 10) as nat;
        assert(v == q * 10 + v % 10 && 0 <= v % 10 < 10) by (nonlinear_arith)
            requires
                q == v / 10,
                v >= 10,
        ;
        assert(v < 100 ==> q < 10);
        assert(v < 1000 ==> q < 100);
        assert(v < 10000 ==> q < 1000);
        assert(v < 100000 ==> q < 10000);
        lemma_digits_of(q);
        let p = digits_of(q);
        assert(s == p.push((0x30 + v % 10) as u8));
        assert(s.drop_last() =~= p);
        assert forall|i: int| 0 <= i < s.len() implies is_digit(#[trigger] s[i]) by {
            if i < p.len() {
                assert(s[i] == p[i]);
            }
        }
        assert(s.last() == (0x30 + v % 10) as u8);
        assert(digits_value(s) == digits_value(p) * 10 + (s.last() - 0x30));
        assert(s.len() == p.len() + 1);
    } else {
        assert(s.drop_last() =~= Seq::<u8>::empty());
        assert(digits_value(s.drop_last()) == 0);
        assert(s.len() == 1);
    }
}

proof fn lemma_decimal_text(v: int)
    requires
        fits_i5(v),
    ensures
        1 <= decimal_text(v).len() <= 5,
        decimal_text(v)[0] == 0x2d || is_digit(decimal_text(v)[0]),
        is_digit(decimal_text(v).last()),
        forall|i: int| 0 <= i < decimal_text(v).len() ==> #[trigger] decimal_text(v)[i] < 0x80,
        i32_value(decimal_text(v)) == Some(v as i32),
{
    let t = decimal_text(v);
    if v < 0 {
        let m = (-v) as nat;
        lemma_digits_of(m);
        let d = digits_of(m);
        assert(t == seq![0x2du8] + d);
        assert(t.subrange(1, t.len() as int) =~= d);
        assert(t.last() == d.last());
        assert forall|i: int| 0 <= i < t.len() implies #[trigger] t[i] < 0x80 by {
            if i > 0 {
                assert(t[i] == d[i - 1]);
            }
        }
    } else {
        lemma_digits_of(v as nat);
        assert forall|i: int| 0 <= i < t.len() implies #[trigger] t[i] < 0x80 by {
            assert(is_digit(t[i]));
        }
    }
}

proof fn lemma_ascii_valid_utf8(s: Seq<u8>)
    requires
        forall|i: int| 0 <= i < s.len() ==> #[trigger] s[i] < 0x80,
    ensures
        valid_utf8(s),
{
    assert(s.subrange(0, 0) =~= Seq::<u8>::empty());
    assert(partial_valid_utf8(s, 0));
    partial_valid_utf8_extend_ascii_block(s, 0, s.len() as int);
    assert(s.subrange(0, s.len() as int) =~= s);
}

proof fn lemma_skip_spaces(s: Seq<u8>, i: int, n: int)
    requires
        0 <= i <= n < s.len(),
        forall|j: int| 0 <= j < n ==> #[trigger] s[j] == 0x20,
        s[n] == 0x2d || is_digit(s[n]),
    ensures
        skip_ws(s, i) == n,
    decreases n - i,
{
    if i < n {
        assert(ws_len_at(s, i) == 1);
        lemma_skip_spaces(s, i + 1, n);
    } else {
        assert(ws_len_at(s, n) == 0);
    }
}

/// A field that `{:5}` wrote is read back, after trimming, as its value.
proof fn lemma_i5_text_reads_back(v: int)
    requires
        fits_i5(v),
    ensures
        i5_text(v).len() == 5,
        valid_utf8(i5_text(v)),
        trimmed(i5_text(v)) == decimal_text(v),
        i32_value(trimmed(i5_text(v))) == Some(v as i32),
{
    lemma_decimal_text(v);
    let d = decimal_text(v);
    let p = spaces(5 - d.len());
    let s = i5_text(v);
    let n = 5 - d.len();
    assert(s == p + d);
    assert(s.len() == 5);
    assert forall|j: int| 0 <= j < n implies #[trigger] s[j] == 0x20 by {
        assert(s[j] == p[j]);
    }
    assert(s[n] == d[0]);
    assert forall|i: int| 0 <= i < s.len() implies #[trigger] s[i] < 0x80 by {
        if i >= n {
            assert(s[i] == d[i - n]);
        }
    }
    lemma_ascii_valid_utf8(s);
    lemma_skip_spaces(s, 0, n);
    assert(trim_start(s) == n);
    assert(s[4] == d.last());
    assert(ws_len_at(s, 4) == 0);
    assert(ws_len_at(s, 3) != 2);
    assert(ws_len_at(s, 2) != 3);
    assert(ws_len_before(s, 5) == 0);
    assert(back_ws(s, n, 5) == 5);
    assert(trim_end(s) == 5);
    assert(trimmed(s) =~= d);
}

proof fn lemma_i5_fields(vals: Seq<i32>)
    requires
        forall|k: int| 0 <= k < vals.len() ==> fits_i5(#[trigger] vals[k] as int),
    ensures
        i5_fields(vals).len() == 5 * vals.len(),
        forall|k: int|
            0 <= k < vals.len() ==> #[trigger] i5_fields(vals).subrange(5 * k, 5 * k + 5)
                == i5_text(vals[k] as int),
    decreases vals.len(),
{
    if vals.len() > 0 {
        let init = vals.drop_last();
        assert forall|k: int| 0 <= k < init.len() implies fits_i5(#[trigger] init[k] as int) by {
            assert(init[k] == vals[k]);
        }
        lemma_i5_fields(init);
        lemma_i5_text_reads_back(vals.last() as int);
        let a = i5_fields(init);
        let b = i5_text(vals.last() as int);
        assert(i5_fields(vals) == a + b);
        assert forall|k: int| 0 <= k < vals.len() implies #[trigger] i5_fields(vals).subrange(
            5 * k,
            5 * k + 5,
        ) == i5_text(vals[k] as int) by {
            if k < init.len() {
                assert(a.subrange(5 * k, 5 * k + 5) == i5_text(init[k] as int));
                assert((a + b).subrange(5 * k, 5 * k + 5) =~= a.subrange(5 * k, 5 * k + 5));
                assert(init[k] == vals[k]);
            } else {
                assert((a + b).subrange(5 * k, 5 * k + 5) =~= b);
            }
        }
    }
}

/// Law: a line of at most 16 integers that `write_i5_line` wrote, read back
/// field by field with the `I5` reader (`parse_fixed_i32s` with width 5),
/// gives back every integer, as long as each fits in five columns.
pub proof fn law_i5_line_reads_back(vals: Seq<i32>)
    requires
        1 <= vals.len() <= 16,
        forall|k: int| 0 <= k < vals.len() ==> fits_i5(#[trigger] vals[k] as int),
    ensures
        forall|k: int|
            0 <= k < vals.len() ==> #[trigger] fixed_i32_field(i5_block(vals), 5 * k, 5)
                == vals[k],
{
    lemma_i5_fields(vals);
    let f = i5_fields(vals);
    let s = i5_block(vals);
    assert(s == f + seq![0x0au8]);
    assert forall|k: int| 0 <= k < vals.len() implies #[trigger] fixed_i32_field(s, 5 * k, 5)
        == vals[k] by {
        lemma_i5_text_reads_back(vals[k] as int);
        assert(min_int(5 * k + 5, s.len() as int) == 5 * k + 5);
        assert(s.subrange(5 * k, 5 * k + 5) =~= f.subrange(5 * k, 5 * k + 5));
    }
}

/// A name that an `A8` field holds as it is: at most 8 printable ASCII
/// characters, not starting or ending with a blank.
pub open spec fn plain_name(v: Seq<u8>) -> bool {
    &&& v.len() <= 8
    &&& forall|i: int| 0 <= i < v.len() ==> 0x20 <= #[trigger] v[i] < 0x7f
    &&& v.len() > 0 ==> v[0] != 0x20 && v.last() != 0x20
}

proof fn lemma_char_count_ascii(v: Seq<u8>)
    requires
        forall|i: int| 0 <= i < v.len() ==> #[trigger] v[i] < 0x80,
    ensures
        char_count(v) == v.len(),
    decreases v.len(),
{
    if v.len() > 0 {
        let p = v.drop_last();
        assert forall|i: int| 0 <= i < p.len() implies #[trigger] p[i] < 0x80 by {
            assert(p[i] == v[i]);
        }
        lemma_char_count_ascii(p);
        assert(!is_continuation(v.last()));
    }
}

proof fn lemma_back_spaces(s: Seq<u8>, lo: int, len: int, j: int)
    requires
        0 <= lo <= len <= j <= s.len(),
        forall|i: int| len <= i < s.len() ==> #[trigger] s[i] == 0x20,
        forall|i: int| 0 <= i < s.len() ==> 0x20 <= #[trigger] s[i] < 0x7f,
        len > lo ==> s[len - 1] != 0x20,
    ensures
        back_ws(s, lo, j) == len,
    decreases j,
{
    if j > len {
        assert(ws_len_at(s, j - 1) == 1);
        assert(ws_len_before(s, j) == 1);
        lemma_back_spaces(s, lo, len, j - 1);
    } else if len > lo {
        assert(ws_len_at(s, len - 1) == 0);
        if len >= 2 {
            assert(s[len - 2] != 0xc2);
        }
        if len >= 3 {
            assert(s[len - 3] < 0x7f);
        }
        assert(ws_len_before(s, len) == 0);
    }
}

/// A field that `A8` wrote from a plain name is read back, after trimming,
/// as the name.
proof fn lemma_a8_text_reads_back(v: Seq<u8>)
    requires
        plain_name(v),
    ensures
        a8_text(v).len() == 8,
        valid_utf8(a8_text(v)),
        trimmed(a8_text(v)) == v,
{
    lemma_char_count_ascii(v);
    assert(v.take(a8_cut(v)) =~= v);
    let s = a8_text(v);
    let n = v.len() as int;
    assert(s == v + spaces(8 - n));
    assert(s.len() == 8);
    assert forall|i: int| 0 <= i < s.len() implies 0x20 <= #[trigger] s[i] < 0x7f by {
        if i < n {
            assert(s[i] == v[i]);
        }
    }
    assert forall|i: int| n <= i < s.len() implies #[trigger] s[i] == 0x20 by {}
    lemma_ascii_valid_utf8(s);
    if n > 0 {
        assert(s[0] == v[0]);
        assert(ws_len_at(s, 0) == 0);
        assert(trim_start(s) == 0);
        assert(s[n - 1] == v.last());
        lemma_back_spaces(s, 0, n, 8);
    } else {
        lemma_skip_all_spaces(s, 0);
        assert(trim_start(s) == 8);
        assert(back_ws(s, 8, 8) == 8);
    }
    assert(trimmed(s) =~= v);
}

proof fn lemma_skip_all_spaces(s: Seq<u8>, i: int)
    requires
        0 <= i <= s.len(),
        forall|j: int| 0 <= j < s.len() ==> #[trigger] s[j] == 0x20,
    ensures
        skip_ws(s, i) == s.len(),
    decreases s.len() - i,
{
    if i < s.len() {
        assert(ws_len_at(s, i) == 1);
        lemma_skip_all_spaces(s, i + 1);
    }
}

proof fn lemma_a8_fields(names: Seq<Seq<u8>>)
    requires
        forall|k: int| 0 <= k < names.len() ==> plain_name(#[trigger] names[k]),
    ensures
        a8_fields(names).len() == 8 * names.len(),
        forall|k: int|
            0 <= k < names.len() ==> #[trigger] a8_fields(names).subrange(8 * k, 8 * k + 8)
                == a8_text(names[k]),
    decreases names.len(),
{
    if names.len() > 0 {
        let init = names.drop_last();
        assert forall|k: int| 0 <= k < init.len() implies plain_name(#[trigger] init[k]) by {
            assert(init[k] == names[k]);
        }
        lemma_a8_fields(init);
        lemma_a8_text_reads_back(names.last());
        let a = a8_fields(init);
        let b = a8_text(names.last());
        assert(a8_fields(names) == a + b);
        assert forall|k: int| 0 <= k < names.len() implies #[trigger] a8_fields(names).subrange(
            8 * k,
            8 * k + 8,
        ) == a8_text(names[k]) by {
            if k < init.len() {
                assert(a.subrange(8 * k, 8 * k + 8) == a8_text(init[k]));
                assert((a + b).subrange(8 * k, 8 * k + 8) =~= a.subrange(8 * k, 8 * k + 8));
                assert(init[k] == names[k]);
            } else {
                assert((a + b).subrange(8 * k, 8 * k + 8) =~= b);
            }
        }
    }
}

/// Law: a line of at most 8 names that `write_a8_line` wrote, read back
/// field by field with the fixed-width text reader (`fixed_texts` with
/// width 8), gives back every name, as long as each is a plain name.
pub proof fn law_a8_line_reads_back(names: Seq<Seq<u8>>)
    requires
        1 <= names.len() <= 8,
        forall|k: int| 0 <= k < names.len() ==> plain_name(#[trigger] names[k]),
    ensures
        forall|k: int|
            0 <= k < names.len() ==> #[trigger] fixed_text_field(a8_block(names), 8 * k, 8)
                == names[k],
{
    lemma_a8_fields(names);
    let f = a8_fields(names);
    let s = a8_block(names);
    assert(s == f + seq![0x0au8]);
    assert forall|k: int| 0 <= k < names.len() implies #[trigger] fixed_text_field(s, 8 * k, 8)
        == names[k] by {
        lemma_a8_text_reads_back(names[k]);
        assert(min_int(8 * k + 8, s.len() as int) == 8 * k + 8);
        assert(s.subrange(8 * k, 8 * k + 8) =~= f.subrange(8 * k, 8 * k + 8));
    }
}

} // verus!
