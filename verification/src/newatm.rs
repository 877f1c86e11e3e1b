//! The records of the trajectory file that change the atmosphere of a run
//! (`2X,A8,2X,A8,I5,3E10.3,I5,2F5.3`): labels of a new temperature and
//! ozone profile, a day count, orbit values, an altitude shift of the boxes
//! and aerosol and rainout factors.
use vstd::prelude::*;

use crate::text::{d_as_e, d_as_e_exec, i32_at, i32_field, text_at, text_field};

verus! {

/// The atmosphere change a record asks for. Float fields are given as the
/// texts they are read from.
pub struct AtmosphereChange {
    /// Labels of the temperature and ozone profiles to load (columns 3-10
    /// and 13-20), trimmed; blank for no change.
    pub titatm: Vec<u8>,
    pub tito3: Vec<u8>,
    /// XLATD, XDECD, XO3COL (`E10.3` at columns 26, 36, 46), trimmed, with
    /// a `d` or `D` exponent letter written `e`.
    pub xlatd: Vec<u8>,
    pub xdecd: Vec<u8>,
    pub xo3col: Vec<u8>,
    /// Shift of every box's altitude level (columns 56-60).
    pub kalt: i32,
    /// Aerosol-area and rainout factors (columns 61-65 and 66-70), trimmed.
    pub xarea: Vec<u8>,
    pub xrain: Vec<u8>,
}

/// A record: its day count NDAYSD and, when that is not zero, the change.
pub struct NewAtmRecord {
    pub ndaysd: i32,
    pub change: Option<AtmosphereChange>,
}

/// The text of the `E10.3` field at column `off` of a record.
pub open spec fn e10_text(l: Seq<u8>, off: int) -> Seq<u8> {
    d_as_e(text_at(l, off, off + 10))
}

/// `r` is what the record `l` reads as. A record shorter than two bytes
/// ends the trajectory, as does a day count of zero.
pub open spec fn newatm_record_is(r: NewAtmRecord, l: Seq<u8>) -> bool {
    if l.len() < 2 {
        r.ndaysd == 0 && r.change is None
    } else {
        &&& r.ndaysd == i32_at(l, 20, 25)
        &&& (r.ndaysd == 0) == (r.change is None)
        &&& match r.change {
            Some(c) => {
                &&& c.titatm@ == text_at(l, 2, 10)
                &&& c.tito3@ == text_at(l, 12, 20)
                &&& c.xlatd@ == e10_text(l, 25)
                &&& c.xdecd@ == e10_text(l, 35)
                &&& c.xo3col@ == e10_text(l, 45)
                &&& c.kalt == i32_at(l, 55, 60)
                &&& c.xarea@ == text_at(l, 60, 65)
                &&& c.xrain@ == text_at(l, 65, 70)
            },
            None => true,
        }
    }
}

fn e10_of(l: &[u8], off: usize) -> (r: Vec<u8>)
    requires
        off + 10 <= usize::MAX,
    ensures
        r@ == e10_text(l@, off as int),
{
    d_as_e_exec(text_field(l, off, off + 10))
}

/// Read an atmosphere-change record of the trajectory file.
pub fn read_newatm_record(record: &[u8]) -> (r: NewAtmRecord)
    ensures
        newatm_record_is(r, record@),
{
    if record.len() < 2 {
        return NewAtmRecord { ndaysd: 0, change: None };
    }
    let ndaysd = i32_field(record, 20, 25);
    if ndaysd == 0 {
        return NewAtmRecord { ndaysd, change: None };
    }
    let c = AtmosphereChange {
        titatm: vstd::slice::slice_to_vec(text_field(record, 2, 10)),
        tito3: vstd::slice::slice_to_vec(text_field(record, 12, 20)),
        xlatd: e10_of(record, 25),
        xdecd: e10_of(record, 35),
        xo3col: e10_of(record, 45),
        kalt: i32_field(record, 55, 60),
        xarea: vstd::slice::slice_to_vec(text_field(record, 60, 65)),
        xrain: vstd::slice::slice_to_vec(text_field(record, 65, 70)),
    };
    NewAtmRecord { ndaysd, change: Some(c) }
}

/// The boxes are moved and their densities rescaled: a new temperature or
/// ozone profile is named, or the altitude shift is not zero.
pub open spec fn needs_rescale(c: AtmosphereChange) -> bool {
    c.titatm@.len() > 0 || c.tito3@.len() > 0 || c.kalt != 0
}

/// Executable form of [`needs_rescale`].
pub fn rescales_boxes(c: &AtmosphereChange) -> (r: bool)
    ensures
        r == needs_rescale(*c),
{
    c.titatm.len() > 0 || c.tito3.len() > 0 || c.kalt != 0
}

/// The 0-based level a shifted box is taken at: its level's magnitude, held
/// to the `nc` levels of the atmosphere, less one (0 for level 0).
pub open spec fn shifted_level(nboxdo: int, nc: int) -> int {
    let m = if nboxdo < 0 {
        -nboxdo
    } else {
        nboxdo
    };
    let a = if m < nc {
        m
    } else {
        nc
    };
    if a > 0 {
        a - 1
    } else {
        0
    }
}

/// Shift the altitude levels of the first `nbox` boxes by `kalt` and give
/// the 0-based level each box is then taken at in an atmosphere of `nc`
/// levels.
pub fn shift_box_levels(nboxdo: &mut Vec<i32>, nbox: usize, kalt: i32, nc: usize) -> (r: Vec<usize>)
    requires
        nbox <= old(nboxdo).len(),
        forall|ib: int|
            0 <= ib < nbox ==> i32::MIN <= #[trigger] old(nboxdo)[ib] + kalt <= i32::MAX,
    ensures
        final(nboxdo).len() == old(nboxdo).len(),
        forall|ib: int| 0 <= ib < nbox ==> #[trigger] final(nboxdo)[ib] == old(nboxdo)[ib] + kalt,
        forall|ib: int|
            nbox <= ib < old(nboxdo).len() ==> #[trigger] final(nboxdo)[ib] == old(nboxdo)[ib],
        r.len() == nbox,
        forall|ib: int| 0 <= ib < nbox ==> #[trigger] r[ib] == shifted_level(final(nboxdo)[ib] as int, nc as int),
{
    let mut levels: Vec<usize> = Vec::new();
    let mut ib: usize = 0;
    while ib < nbox
        invariant
            ib <= nbox <= nboxdo.len(),
            nboxdo.len() == old(nboxdo).len(),
            forall|k: int| 0 <= k < nbox ==> i32::MIN <= #[trigger] old(nboxdo)[k] + kalt <= i32::MAX,
            forall|k: int| 0 <= k < ib ==> #[trigger] nboxdo[k] == old(nboxdo)[k] + kalt,
            forall|k: int| ib <= k < nboxdo.len() ==> #[trigger] nboxdo[k] == old(nboxdo)[k],
            levels.len() == ib,
            forall|k: int| 0 <= k < ib ==> #[trigger] levels[k] == shifted_level(nboxdo[k] as int, nc as int),
        decreases nbox - ib,
    {
        let v = nboxdo[ib] + kalt;
        nboxdo.set(ib, v);
        let m: u64 = if v < 0 {
            (0i64 - v as i64) as u64
        } else {
            v as u64
        };
        let a: usize = if m < nc as u64 {
            m as usize
        } else {
            nc
        };
        levels.push(
            if a > 0 {
                a - 1
            } else {
                0
            },
        );
        ib = ib + 1;
    }
    levels
}

} // verus!
