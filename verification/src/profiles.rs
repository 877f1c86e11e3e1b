//! The labelled profiles of the temperature and ozone files, which a
//! trajectory run loads anew at each atmosphere change: a header record with
//! the label in columns 3-10, then the profile's values in `8E10.3` records.
use vstd::prelude::*;

use crate::text::{d_as_e, d_as_e_exec, text_at, text_field, texts, usize_value, words};

verus! {

/// Number of values of a temperature profile.
pub const ATMOSPHERE_VALUES: usize = 46;

/// Number of ozone values when the file does not give it.
pub const DEFAULT_OZONE_VALUES: usize = 32;

/// Number of `8E10.3` records that `values` values take.
pub open spec fn records_for(values: int) -> int {
    (values + 7) / 8
}

/// Executable form of [`records_for`].
pub fn value_records(values: usize) -> (r: usize)
    ensures
        r == records_for(values as int),
{
    values / 8 + if values % 8 != 0 {
        1
    } else {
        0
    }
}

/// Index of the first header record from `i` on, stepping over blocks of
/// one header and `dl` value records, whose label is `label`; `None` when a
/// block no longer fits in the lines.
pub open spec fn profile_from(ls: Seq<Seq<u8>>, label: Seq<u8>, i: int, dl: int) -> Option<int>
    decreases ls.len() - i,
{
    if i < 0 || dl < 0 || i + dl >= ls.len() {
        None
    } else if text_at(ls[i], 2, 10) == label {
        Some(i)
    } else {
        profile_from(ls, label, i + 1 + dl, dl)
    }
}

/// Find the profile labelled `label` among `lines`, whose blocks of one
/// header and `data_lines` value records start at line `first`.
pub fn find_profile(lines: &Vec<Vec<u8>>, label: &[u8], first: usize, data_lines: usize) -> (r: Option<usize>)
    ensures
        match r {
            Some(i) => profile_from(texts(lines@), label@, first as int, data_lines as int) == Some(
                i as int,
            ),
            None => profile_from(texts(lines@), label@, first as int, data_lines as int) is None,
        },
{
    let ghost ls = texts(lines@);
    let n = lines.len();
    if data_lines >= n {
        return None;
    }
    let mut i = first;
    while i < n - data_lines
        invariant
            data_lines < n,
            n == lines.len(),
            ls == texts(lines@),
            profile_from(ls, label@, i as int, data_lines as int) == profile_from(
                ls,
                label@,
                first as int,
                data_lines as int,
            ),
        decreases n - i,
    {
        let t = text_field(lines[i].as_slice(), 2, 10);
        if eq_bytes(t, label) {
            return Some(i);
        }
        i = i + 1 + data_lines;
    }
    None
}

fn eq_bytes(a: &[u8], b: &[u8]) -> (r: bool)
    ensures
        r == (a@ == b@),
{
    if a.len() != b.len() {
        return false;
    }
    let mut k: usize = 0;
    while k < a.len()
        invariant
            k <= a.len(),
            a.len() == b.len(),
            forall|j: int| 0 <= j < k ==> a@[j] == b@[j],
        decreases a.len() - k,
    {
        if a[k] != b[k] {
            return false;
        }
        k = k + 1;
    }
    assert(a@ =~= b@);
    true
}

/// The temperature profile labelled `label` (already trimmed): the index
/// of its header record among the lines of the temperature file, whose
/// first line is the file's title.
pub fn find_atmosphere(lines: &Vec<Vec<u8>>, label: &[u8]) -> (r: Option<usize>)
    ensures
        match r {
            Some(i) => profile_from(texts(lines@), label@, 1, records_for(ATMOSPHERE_VALUES as int))
                == Some(i as int),
            None => profile_from(texts(lines@), label@, 1, records_for(ATMOSPHERE_VALUES as int)) is None,
        },
{
    find_profile(lines, label, 1, value_records(ATMOSPHERE_VALUES))
}

/// Number of ozone values per profile: the last word of the ozone file's
/// second line read as an unsigned number, [`DEFAULT_OZONE_VALUES`] when
/// there is none or it does not read.
pub open spec fn ozone_values_spec(line: Seq<u8>) -> int {
    let ws = words(line);
    if ws.len() == 0 {
        DEFAULT_OZONE_VALUES as int
    } else {
        match usize_value(ws.last()) {
            Some(v) => v as int,
            None => DEFAULT_OZONE_VALUES as int,
        }
    }
}

/// Executable form of [`ozone_values_spec`].
pub fn ozone_values(line: &[u8]) -> (r: usize)
    ensures
        r == ozone_values_spec(line@),
{
    let ws = crate::text::split_words(line);
    if ws.len() == 0 {
        DEFAULT_OZONE_VALUES
    } else {
        let last = &ws[ws.len() - 1];
        proof {
            assert(texts(ws@)[ws.len() - 1] == last@);
        }
        match crate::text::parse_usize(last.as_slice()) {
            Some(v) => v,
            None => DEFAULT_OZONE_VALUES,
        }
    }
}

/// Whether a temperature profile is on pressure levels (its label starts
/// with `P`), so that the hydrostatic solve takes log-pressure steps.
pub fn on_pressure_levels(label: &[u8]) -> (r: bool)
    ensures
        r == (label@.len() > 0 && label@[0] == 0x50),
{
    label.len() > 0 && label[0] == 0x50
}

/// The trimmed `E10.3` field at offset `off` of a line (cut at the line's
/// end; empty where no field can be cut there).
pub open spec fn e10_field(l: Seq<u8>, off: int) -> Seq<u8> {
    let end = if off + 10 < l.len() {
        off + 10
    } else {
        l.len() as int
    };
    text_at(l, off, end)
}

/// The non-blank `E10.3` fields of the lines from `start` on, in order,
/// with `d`/`D` written `e`: all of them from line `k` on.
pub open spec fn e10_values_from(ls: Seq<Seq<u8>>, k: int) -> Seq<Seq<u8>>
    decreases ls.len() - k,
{
    if k < 0 || k >= ls.len() {
        Seq::empty()
    } else {
        e10_line(ls[k], 0) + e10_values_from(ls, k + 1)
    }
}

/// The non-blank fields of one line from offset `off` on.
pub open spec fn e10_line(l: Seq<u8>, off: int) -> Seq<Seq<u8>>
    decreases l.len() - off,
{
    if off < 0 || off >= l.len() {
        Seq::empty()
    } else {
        let f = e10_field(l, off);
        let next = if off + 10 < l.len() {
            off + 10
        } else {
            l.len() as int
        };
        let rest = e10_line(l, next);
        if f.len() > 0 {
            seq![d_as_e(f)] + rest
        } else {
            rest
        }
    }
}

/// The first `count` non-blank `E10.3` fields of the lines from `start`
/// on (fields of ten columns from the start of each line, `d`/`D` written
/// `e`), or the number of fields found when the lines hold fewer.
pub fn e10_texts(lines: &Vec<Vec<u8>>, start: usize, count: usize) -> (r: Result<Vec<Vec<u8>>, usize>)
    ensures
        ({
            let all = e10_values_from(texts(lines@), start as int);
            match r {
                Ok(v) => all.len() >= count && texts(v@) == all.take(count as int),
                Err(found) => all.len() < count && found == all.len(),
            }
        }),
{
    let ghost ls = texts(lines@);
    let ghost all = e10_values_from(ls, start as int);
    let mut out: Vec<Vec<u8>> = Vec::new();
    if count == 0 {
        assert(texts(out@) =~= all.take(0));
        return Ok(out);
    }
    let mut k = start;
    while k < lines.len()
        invariant
            ls == texts(lines@),
            all == e10_values_from(ls, start as int),
            start <= k,
            out.len() < count,
            texts(out@) + e10_values_from(ls, k as int) == all,
        decreases lines.len() - k,
    {
        let l = lines[k].as_slice();
        let n = l.len();
        let mut off: usize = 0;
        proof {
            assert(ls[k as int] == l@);
            assert(e10_values_from(ls, k as int) == e10_line(l@, 0) + e10_values_from(ls, k + 1));
        }
        while off < n
            invariant
                ls == texts(lines@),
                all == e10_values_from(ls, start as int),
                n == l@.len(),
                ls[k as int] == l@,
                k < lines.len(),
                out.len() < count,
                texts(out@) + e10_line(l@, off as int) + e10_values_from(ls, k + 1) == all,
            decreases n - off,
        {
            let end = if n - off > 10 {
                off + 10
            } else {
                n
            };
            let f = text_field(l, off, end);
            let ghost before = texts(out@);
            proof {
                assert(e10_field(l@, off as int) == f@);
                assert(e10_line(l@, off as int) == if f@.len() > 0 {
                    seq![d_as_e(f@)] + e10_line(l@, end as int)
                } else {
                    e10_line(l@, end as int)
                });
            }
            if f.len() > 0 {
                let v = d_as_e_exec(f);
                out.push(v);
                proof {
                    assert(texts(out@) =~= before.push(d_as_e(f@)));
                    assert(texts(out@) + e10_line(l@, end as int) + e10_values_from(ls, k + 1) =~= before
                        + (seq![d_as_e(f@)] + e10_line(l@, end as int)) + e10_values_from(ls, k + 1));
                }
                if out.len() == count {
                    proof {
                        assert(all.take(count as int) =~= texts(out@));
                    }
                    return Ok(out);
                }
            }
            off = end;
        }
        proof {
            assert(e10_line(l@, off as int) =~= Seq::<Seq<u8>>::empty());
            assert(texts(out@) + e10_values_from(ls, k + 1) =~= texts(out@) + Seq::<Seq<u8>>::empty() + e10_values_from(ls, k + 1));
        }
        k = k + 1;
    }
    proof {
        assert(e10_values_from(ls, k as int) =~= Seq::<Seq<u8>>::empty());
        assert(texts(out@) =~= all);
    }
    Err(out.len())
}

/// Why an ozone profile could not be found.
#[derive(Debug, Clone, Copy, PartialEq, Eq)]
pub enum ProfileError {
    /// The ozone file has fewer than two lines.
    NoOzoneProfiles,
    /// No profile carries the label.
    NotFound,
}

/// The ozone profile labelled `label` (already trimmed) among the lines of
/// the ozone file (a title, a line ending with the number of values per
/// profile, then the profiles): the index of its header record and the
/// number of its values.
pub fn find_ozone(lines: &Vec<Vec<u8>>, label: &[u8]) -> (r: Result<(usize, usize), ProfileError>)
    ensures
        lines.len() < 2 ==> r == Err::<(usize, usize), ProfileError>(ProfileError::NoOzoneProfiles),
        lines.len() >= 2 ==> ({
            let values = ozone_values_spec(lines@[1]@);
            match profile_from(texts(lines@), label@, 2, records_for(values)) {
                Some(i) => r == Ok::<(usize, usize), ProfileError>((i as usize, values as usize)),
                None => r == Err::<(usize, usize), ProfileError>(ProfileError::NotFound),
            }
        }),
{
    if lines.len() < 2 {
        return Err(ProfileError::NoOzoneProfiles);
    }
    let values = ozone_values(lines[1].as_slice());
    match find_profile(lines, label, 2, value_records(values)) {
        Some(i) => Ok((i, values)),
        None => Err(ProfileError::NotFound),
    }
}

} // verus!
