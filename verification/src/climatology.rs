//! The grid of the steady-state climatology runs: each path number names a
//! latitude (71 of them, every 2.5° from 87.5°S) and a half-month, and the
//! climatology tables (12 months by 18 latitudes, every 10° from 85°S) are
//! interpolated between the months and the latitudes that bracket it.
use vstd::prelude::*;

verus! {

/// Number of latitudes of the path grid.
pub const NLAT_PATHS: usize = 71;

/// Number of latitudes of the climatology tables.
pub const NLAT_TABLE: usize = 18;

/// A point of the path grid, all 1-based.
#[derive(Debug, Clone, Copy, PartialEq, Eq)]
pub struct GridPoint {
    /// Latitude: -90° + 2.5° times this.
    pub ilat: usize,
    /// Half-month of the year.
    pub half_month: usize,
    /// Month of the year.
    pub month: usize,
}

/// The grid point of path `ipath` (1-based): latitudes run fastest.
pub open spec fn grid_point_spec(ipath: int) -> GridPoint {
    let r = ipath % 71;
    let half = (ipath - 1) / 71 + 1;
    GridPoint {
        ilat: (if r == 0 {
            71
        } else {
            r
        }) as usize,
        half_month: half as usize,
        month: ((half - 1) / 2 + 1) as usize,
    }
}

/// Executable form of [`grid_point_spec`].
pub fn grid_point(ipath: usize) -> (r: GridPoint)
    requires
        ipath >= 1,
    ensures
        r == grid_point_spec(ipath as int),
{
    let r = ipath % NLAT_PATHS;
    let half = (ipath - 1) / NLAT_PATHS + 1;
    GridPoint {
        ilat: if r == 0 {
            NLAT_PATHS
        } else {
            r
        },
        half_month: half,
        month: (half - 1) / 2 + 1,
    }
}

/// The two months (0-based) a half-month is interpolated between: the
/// first half of a month lies between the month before and the month, the
/// second half between the month and the next (December wrapping to
/// January).
pub open spec fn month_pair_spec(half_month: int) -> (int, int) {
    let m = (half_month - 1) / 2 + 1;
    if half_month == 1 {
        (11, 0)
    } else if half_month % 2 == 1 {
        (m - 2, m - 1)
    } else {
        (m - 1, if m >= 12 {
            0
        } else {
            m
        })
    }
}

/// Executable form of [`month_pair_spec`].
pub fn month_pair(half_month: usize) -> (r: (usize, usize))
    requires
        half_month >= 1,
    ensures
        r.0 == month_pair_spec(half_month as int).0,
        r.1 == month_pair_spec(half_month as int).1,
{
    let m = (half_month - 1) / 2 + 1;
    if half_month == 1 {
        (11, 0)
    } else if half_month % 2 == 1 {
        (m - 2, m - 1)
    } else {
        (m - 1, if m >= 12 {
            0
        } else {
            m
        })
    }
}

/// The two months that bracket half-month `h` of the year (1 to 24): `h`
/// lies in month `(h - 1) / 2`; its first half lies between the month
/// before and the month, its second half between the month and the month
/// after, counted round the year. So the second month always follows the
/// first, and only December's second half wraps to January.
pub proof fn law_month_pair_brackets(h: int)
    requires
        1 <= h <= 24,
    ensures
        ({
            let (a, b) = month_pair_spec(h);
            let month = (h - 1) / 2;
            &&& 0 <= a < 12
            &&& 0 <= b < 12
            &&& b == (a + 1) % 12
            &&& h % 2 == 1 ==> b == month
            &&& h % 2 == 0 ==> a == month
            &&& b == 0 <==> (h == 1 || h == 24)
        }),
{
}

/// The first table latitude (0-based, from `j` on) north of path latitude
/// `ilat`: table latitude `j` is -85° + 10° j and path latitude `ilat` is
/// -90° + 2.5° `ilat`, so `j` lies north when `4 j + 2 > ilat`.
pub open spec fn first_north(ilat: int, j: int) -> Option<int>
    decreases 18 - j,
{
    if j < 0 || j >= 18 {
        None
    } else if 4 * j + 2 > ilat {
        Some(j)
    } else {
        first_north(ilat, j + 1)
    }
}

/// The two table latitudes (0-based) a path latitude is interpolated
/// between: the one south of the first table latitude north of it (none
/// south of the first), held below the last, and the next.
pub open spec fn latitude_pair_spec(ilat: int) -> (int, int) {
    let below = match first_north(ilat, 0) {
        Some(p) => if p > 0 {
            p - 1
        } else {
            0
        },
        None => 17,
    };
    let j1 = if below < 16 {
        below
    } else {
        16
    };
    (j1, if j1 + 1 < 17 {
        j1 + 1
    } else {
        17
    })
}

/// Executable form of [`latitude_pair_spec`].
pub fn latitude_pair(ilat: usize) -> (r: (usize, usize))
    ensures
        r.0 == latitude_pair_spec(ilat as int).0,
        r.1 == latitude_pair_spec(ilat as int).1,
{
    let mut j: usize = 0;
    let mut found: Option<usize> = None;
    while j < NLAT_TABLE && found.is_none()
        invariant
            j <= NLAT_TABLE,
            found is None ==> first_north(ilat as int, 0) == first_north(ilat as int, j as int),
            found matches Some(p) ==> first_north(ilat as int, 0) == Some(p as int),
        decreases NLAT_TABLE - j, if found is None { 1int } else { 0int },
    {
        if 4 * j + 2 > ilat {
            found = Some(j);
        } else {
            j = j + 1;
        }
    }
    let below = match found {
        Some(p) => if p > 0 {
            p - 1
        } else {
            0
        },
        None => 17,
    };
    let j1 = if below < 16 {
        below
    } else {
        16
    };
    (j1, if j1 + 1 < 17 {
        j1 + 1
    } else {
        17
    })
}

/// The first path of a climatology run for the half-month slot `slot`
/// (0-based) and the path latitude `ilat` (the latitude's 2.5° steps above
/// 90°S, rounded down): the slot's block of 71 latitudes, then the
/// latitude; at least 1, so that the loop over the paths runs.
pub open spec fn start_path_spec(slot: int, ilat: int) -> int {
    let p = slot * 71 + ilat;
    if p >= 1 {
        p
    } else {
        1
    }
}

/// Executable form of [`start_path_spec`].
pub fn start_path(slot: usize, ilat: i32) -> (r: i32)
    requires
        slot < 24,
        i32::MIN + 1633 <= ilat <= i32::MAX - 1633,
    ensures
        r == start_path_spec(slot as int, ilat as int),
        r >= 1,
{
    let p: i32 = slot as i32 * 71 + ilat;
    if p >= 1 {
        p
    } else {
        1
    }
}

/// Law: the first path of a run decodes back to the run's latitude and
/// half-month (1-based), for every latitude of the path grid.
pub proof fn law_start_path_decodes_back(slot: int, ilat: int)
    requires
        0 <= slot < 24,
        1 <= ilat <= 71,
    ensures
        grid_point_spec(start_path_spec(slot, ilat)).ilat == ilat,
        grid_point_spec(start_path_spec(slot, ilat)).half_month == slot + 1,
{
    let p = slot * 71 + ilat;
    assert(start_path_spec(slot, ilat) == p);
    if ilat < 71 {
        assert(p % 71 == ilat && (p - 1) / 71 == slot) by (nonlinear_arith)
            requires
                p == slot * 71 + ilat,
                0 <= slot,
                1 <= ilat < 71,
        ;
    } else {
        assert(p % 71 == 0 && (p - 1) / 71 == slot) by (nonlinear_arith)
            requires
                p == slot * 71 + 71,
                0 <= slot,
        ;
    }
}

} // verus!
