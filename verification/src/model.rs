//! The model's entry points that decide without computing on floats: where
//! its input files come from, how many boxes a run has, and which step of a
//! diurnal time series lies nearest a clock time.
use vstd::prelude::*;

verus! {

/// Maximum number of boxes in one run.
pub const NB: usize = 25;

/// How the ozone values of a custom atmosphere are given.
#[derive(Debug, Clone, Copy, PartialEq, Eq)]
pub enum O3InputKind {
    /// Dimensionless mixing ratios.
    MixingRatio,
    /// Number densities in cm^-3.
    NumberDensityCm3,
}

/// Where an input file is read from.
#[derive(Debug, Clone, Copy, PartialEq, Eq)]
pub enum FileSource {
    /// Served from the compiled-in data, the `i`-th embedded file.
    Embedded(usize),
    /// Read from the reader's input directory.
    InputDir,
}

/// Reads the Fortran fixed-format input files: from a directory, or, for
/// the files in its override list, from data compiled into the program.
pub struct FortranReader {
    input_dir: String,
    overrides: Vec<String>,
}

/// Names of the files that the embedded reader serves from compiled-in
/// data, in order.
pub open spec fn embedded_names() -> Seq<Seq<char>> {
    seq![
        "fort01.x"@,
        "fort02.x"@,
        "fort10_cam06.x"@,
        "fort11_jpl09.x"@,
        "fort13.x"@,
        "fort14.x"@,
        "J_H2O_SZA0.dat"@,
    ]
}

impl FortranReader {
    /// Directory of the input files.
    pub closed spec fn dir(&self) -> Seq<char> {
        self.input_dir@
    }

    /// The directory of the input files.
    pub fn input_dir(&self) -> (r: &String)
        ensures
            r@ == self.dir(),
    {
        &self.input_dir
    }

    /// Names of the files served from compiled-in data.
    pub closed spec fn override_names(&self) -> Seq<Seq<char>> {
        Seq::new(self.overrides.len() as nat, |i: int| self.overrides[i]@)
    }

    /// File-based reader: every file is read from `input_dir`.
    pub fn new(input_dir: &str) -> (r: FortranReader)
        ensures
            r.dir() == input_dir@,
            r.override_names() == Seq::<Seq<char>>::empty(),
    {
        let r = FortranReader { input_dir: input_dir.to_owned(), overrides: Vec::new() };
        assert(r.override_names() =~= Seq::<Seq<char>>::empty());
        r
    }

    /// Embedded reader: the core science files are served from compiled-in
    /// data; any other file is looked up in an empty input directory.
    pub fn embedded() -> (r: FortranReader)
        ensures
            r.dir() == Seq::<char>::empty(),
            r.override_names() == embedded_names(),
    {
        let mut overrides: Vec<String> = Vec::new();
        overrides.push("fort01.x".to_owned());
        overrides.push("fort02.x".to_owned());
        overrides.push("fort10_cam06.x".to_owned());
        overrides.push("fort11_jpl09.x".to_owned());
        overrides.push("fort13.x".to_owned());
        overrides.push("fort14.x".to_owned());
        overrides.push("J_H2O_SZA0.dat".to_owned());
        let r = FortranReader { input_dir: String::new(), overrides };
        assert(r.override_names() =~= embedded_names());
        r
    }

    /// Where the file `name` is read from: the first embedded file of that
    /// name, or else the input directory.
    pub fn source_of(&self, name: &String) -> (r: FileSource)
        ensures
            match r {
                FileSource::Embedded(i) => 0 <= i < self.override_names().len()
                    && self.override_names()[i as int] == name@ && forall|k: int|
                    0 <= k < i ==> self.override_names()[k] != name@,
                FileSource::InputDir => forall|k: int|
                    0 <= k < self.override_names().len() ==> self.override_names()[k] != name@,
            },
    {
        let mut i: usize = 0;
        while i < self.overrides.len()
            invariant
                i <= self.overrides.len(),
                forall|k: int| 0 <= k < i ==> self.override_names()[k] != name@,
            decreases self.overrides.len() - i,
        {
            if self.overrides[i] == *name {
                return FileSource::Embedded(i);
            }
            i = i + 1;
        }
        FileSource::InputDir
    }
}

/// Entry point of the photochemical box model: which science data a run
/// loads.
pub struct PratmoModel {
    data_dir: Option<String>,
}

impl PratmoModel {
    /// The directory the model reads its data from, or `None` for the
    /// compiled-in data.
    pub closed spec fn data_dir(&self) -> Option<Seq<char>> {
        match self.data_dir {
            Some(d) => Some(d@),
            None => None,
        }
    }

    /// A model that uses only compiled-in science data.
    pub fn with_defaults() -> (r: PratmoModel)
        ensures
            r.data_dir() is None,
    {
        PratmoModel { data_dir: None }
    }

    /// A model that reads its science data from `data_dir`.
    pub fn new(data_dir: &str) -> (r: PratmoModel)
        ensures
            r.data_dir() == Some(data_dir@),
    {
        PratmoModel { data_dir: Some(data_dir.to_owned()) }
    }

    /// The reader of the model's base state: file-based for a data
    /// directory, embedded otherwise.
    pub fn reader(&self) -> (r: FortranReader)
        ensures
            match self.data_dir() {
                Some(d) => r.dir() == d && r.override_names() == Seq::<Seq<char>>::empty(),
                None => r.dir() == Seq::<char>::empty() && r.override_names()
                    == embedded_names(),
            },
    {
        match &self.data_dir {
            Some(d) => FortranReader::new(d.as_str()),
            None => FortranReader::embedded(),
        }
    }
}

/// Number of boxes in a diurnal run: one per configured box, or, when no box
/// is configured and a custom atmosphere is given, one per atmosphere level;
/// at most [`NB`].
pub open spec fn diurn_box_count_spec(boxes: int, profile_levels: Option<int>) -> int {
    let n = match profile_levels {
        Some(levels) => if boxes == 0 { levels } else { boxes },
        None => boxes,
    };
    if n < NB { n } else { NB as int }
}

/// Executable form of [`diurn_box_count_spec`].
pub fn diurn_box_count(boxes: usize, profile_levels: Option<usize>) -> (r: usize)
    ensures
        r == diurn_box_count_spec(
            boxes as int,
            match profile_levels {
                Some(l) => Some(l as int),
                None => None,
            },
        ),
{
    let n = match profile_levels {
        Some(levels) => if boxes == 0 { levels } else { boxes },
        None => boxes,
    };
    if n < NB { n } else { NB }
}

/// Minutes since midnight of an `HHMM` clock time (hours by floor
/// division by 100, minutes by the Euclidean remainder).
pub open spec fn hhmm_minutes(hhmm: int) -> int {
    (hhmm / 100) * 60 + hhmm % 100
}

/// Distance in minutes between two `HHMM` clock times.
pub open spec fn hhmm_distance(a: int, b: int) -> int {
    let d = hhmm_minutes(a) - hhmm_minutes(b);
    if d < 0 { -d } else { d }
}

/// The distance of two clock times can be computed in `i32` arithmetic.
pub open spec fn distance_fits(a: int, b: int) -> bool {
    i32::MIN < hhmm_minutes(a) - hhmm_minutes(b) <= i32::MAX
}

fn minutes_of(hhmm: i32) -> (r: i64)
    ensures
        r == hhmm_minutes(hhmm as int),
{
    let h = hhmm as i64;
    let q: i64 = if h >= 0 { h / 100 } else { -((-h + 99) / 100) };
    assert(q == h / 100 && h - q * 100 == h % 100) by (nonlinear_arith)
        requires
            q == (if h >= 0 { h / 100 } else { -((-h + 99) / 100) }),
            -0x8000_0000 <= h < 0x8000_0000,
    ;
    q * 60 + (h - q * 100)
}

/// Distance in minutes between two `HHMM` clock times.
pub fn time_distance_hhmm(a: i32, b: i32) -> (r: i32)
    requires
        distance_fits(a as int, b as int),
    ensures
        r == hhmm_distance(a as int, b as int),
{
    let d = minutes_of(a) - minutes_of(b);
    let r = if d < 0 { -d } else { d };
    r as i32
}

/// Index of the first time step whose clock time lies nearest `target`
/// (`Iterator::min_by_key` on the distance), or `None` for an empty series.
pub fn nearest_step(times: &Vec<i32>, target: i32) -> (r: Option<usize>)
    requires
        forall|k: int| 0 <= k < times.len() ==> distance_fits(#[trigger] times[k] as int, target as int),
    ensures
        match r {
            None => times.len() == 0,
            Some(i) => {
                &&& i < times.len()
                &&& forall|k: int|
                    0 <= k < times.len() ==> hhmm_distance(times[i as int] as int, target as int)
                        <= hhmm_distance(#[trigger] times[k] as int, target as int)
                &&& forall|k: int|
                    0 <= k < i ==> hhmm_distance(times[i as int] as int, target as int)
                        < hhmm_distance(#[trigger] times[k] as int, target as int)
            },
        },
{
    if times.len() == 0 {
        return None;
    }
    let mut best: usize = 0;
    let mut best_d = time_distance_hhmm(times[0], target);
    let mut k: usize = 1;
    while k < times.len()
        invariant
            1 <= k <= times.len(),
            best < k,
            best_d == hhmm_distance(times[best as int] as int, target as int),
            forall|kk: int| 0 <= kk < times.len() ==> distance_fits(#[trigger] times[kk] as int, target as int),
            forall|kk: int| 0 <= kk < k ==> best_d <= hhmm_distance(#[trigger] times[kk] as int, target as int),
            forall|kk: int| 0 <= kk < best ==> best_d < hhmm_distance(#[trigger] times[kk] as int, target as int),
        decreases times.len() - k,
    {
        let d = time_distance_hhmm(times[k], target);
        if d < best_d {
            best = k;
            best_d = d;
        }
        k = k + 1;
    }
    Some(best)
}

/// Number of atmosphere levels the model stores.
pub const NL: usize = 81;

/// 0-based altitude level of a box from its signed 1-based `NBOXDO` entry:
/// the magnitude less one, held to the model's levels.
pub open spec fn box_level_spec(nboxdo: int) -> int {
    let m = if nboxdo < 0 {
        -nboxdo
    } else {
        nboxdo
    };
    let l = if m > 0 {
        m - 1
    } else {
        0
    };
    if l < NL - 1 {
        l
    } else {
        NL - 1
    }
}

/// Executable form of [`box_level_spec`].
pub fn box_level(nboxdo: i32) -> (r: usize)
    ensures
        r == box_level_spec(nboxdo as int),
{
    let m: u32 = if nboxdo < 0 {
        (0i64 - nboxdo as i64) as u32
    } else {
        nboxdo as u32
    };
    let l: u32 = if m > 0 {
        m - 1
    } else {
        0
    };
    if l < (NL - 1) as u32 {
        l as usize
    } else {
        NL - 1
    }
}

/// Why the arrays of a custom atmosphere were refused.
#[derive(Debug, Clone, Copy, PartialEq, Eq)]
pub enum ProfileShapeError {
    /// The atmosphere has no level, or more than the model stores; the
    /// number of levels given.
    LevelCount(usize),
    /// The temperature or ozone array differs in length from the pressures.
    ArrayLengths,
    /// The altitude array differs in length from the pressures.
    AltitudeLength,
}

/// The verdict on the array lengths of a custom atmosphere, in the order
/// they are checked: the number of pressure levels, then the temperature
/// and ozone arrays, then the altitudes if given.
pub open spec fn profile_shape_spec(
    n: int,
    n_temperature: int,
    n_o3: int,
    n_altitude: Option<usize>,
) -> Result<(), ProfileShapeError> {
    if n == 0 || n > NL {
        Err(ProfileShapeError::LevelCount(n as usize))
    } else if n_temperature != n || n_o3 != n {
        Err(ProfileShapeError::ArrayLengths)
    } else {
        match n_altitude {
            Some(a) => if a != n {
                Err(ProfileShapeError::AltitudeLength)
            } else {
                Ok(())
            },
            None => Ok(()),
        }
    }
}

/// Check the array lengths of a custom atmosphere: 1 to [`NL`] pressure
/// levels, and temperatures, ozone values and (if given) altitudes for each.
pub fn check_profile_shape(
    n_pressure: usize,
    n_temperature: usize,
    n_o3: usize,
    n_altitude: Option<usize>,
) -> (r: Result<(), ProfileShapeError>)
    ensures
        r == profile_shape_spec(n_pressure as int, n_temperature as int, n_o3 as int, n_altitude),
{
    if n_pressure == 0 || n_pressure > NL {
        return Err(ProfileShapeError::LevelCount(n_pressure));
    }
    if n_temperature != n_pressure || n_o3 != n_pressure {
        return Err(ProfileShapeError::ArrayLengths);
    }
    match n_altitude {
        Some(a) => if a != n_pressure {
            Err(ProfileShapeError::AltitudeLength)
        } else {
            Ok(())
        },
        None => Ok(()),
    }
}

/// Why a box's altitude level was refused.
#[derive(Debug, Clone, Copy, PartialEq, Eq)]
pub enum BoxLevelError {
    /// The box (0-based) asks for level 0; levels count from 1.
    ZeroLevel(usize),
    /// The level lies above the custom atmosphere's levels, whose number
    /// is given second.
    BeyondProfile(usize, usize),
}

/// The 1-based level asked for box `ib`: its configured level, or the
/// box's own number when it has none.
pub open spec fn requested_level(levels: Seq<u8>, ib: int) -> int {
    if ib < levels.len() {
        levels[ib] as int
    } else {
        ib + 1
    }
}

/// Box `ib`'s level is accepted: any level without a custom atmosphere,
/// else a level from 1 to the atmosphere's number of levels.
pub open spec fn level_accepted(levels: Seq<u8>, ib: int, profile_levels: Option<usize>) -> bool {
    match profile_levels {
        None => true,
        Some(n) => requested_level(levels, ib) != 0 && requested_level(levels, ib) - 1 < n,
    }
}

/// The 0-based level given to box `ib`: the requested level less one (0
/// for level 0), held to the model's levels.
pub open spec fn planned_level(levels: Seq<u8>, ib: int) -> int {
    let l = requested_level(levels, ib);
    let z = if l > 0 {
        l - 1
    } else {
        0
    };
    if z < NL - 1 {
        z
    } else {
        NL - 1
    }
}

/// The refusal for box `ib`, whose level is not accepted.
pub open spec fn level_refusal(levels: Seq<u8>, ib: int, profile_levels: Option<usize>) -> BoxLevelError {
    if requested_level(levels, ib) == 0 {
        BoxLevelError::ZeroLevel(ib as usize)
    } else {
        BoxLevelError::BeyondProfile(
            requested_level(levels, ib) as usize,
            match profile_levels {
                Some(n) => n,
                None => 0,
            },
        )
    }
}

/// The 0-based altitude level of each of the `nbox` boxes of a diurnal
/// run, from the levels configured for the first boxes (`levels`); with a
/// custom atmosphere of `profile_levels` levels, refused at the first box
/// whose level is 0 or above the atmosphere.
pub fn plan_box_levels(levels: &Vec<u8>, nbox: usize, profile_levels: Option<usize>) -> (r: Result<
    Vec<usize>,
    BoxLevelError,
>)
    requires
        nbox <= NB,
    ensures
        match r {
            Ok(v) => {
                &&& forall|ib: int| 0 <= ib < nbox ==> level_accepted(levels@, ib, profile_levels)
                &&& v.len() == nbox
                &&& forall|ib: int| 0 <= ib < nbox ==> #[trigger] v[ib] == planned_level(levels@, ib)
            },
            Err(e) => exists|ib: int|
                0 <= ib < nbox && !level_accepted(levels@, ib, profile_levels) && (forall|k: int|
                    0 <= k < ib ==> level_accepted(levels@, k, profile_levels)) && e == level_refusal(
                    levels@,
                    ib,
                    profile_levels,
                ),
        },
{
    let mut v: Vec<usize> = Vec::new();
    let mut ib: usize = 0;
    while ib < nbox
        invariant
            ib <= nbox <= NB,
            v.len() == ib,
            forall|k: int| 0 <= k < ib ==> level_accepted(levels@, k, profile_levels),
            forall|k: int| 0 <= k < ib ==> #[trigger] v[k] == planned_level(levels@, k),
        decreases nbox - ib,
    {
        let level: usize = if ib < levels.len() {
            levels[ib] as usize
        } else {
            ib + 1
        };
        match profile_levels {
            Some(n) => {
                assert(level == requested_level(levels@, ib as int));
                if level == 0 {
                    assert(!level_accepted(levels@, ib as int, profile_levels));
                    assert(BoxLevelError::ZeroLevel(ib) == level_refusal(levels@, ib as int, profile_levels));
                    return Err(BoxLevelError::ZeroLevel(ib));
                }
                if level - 1 >= n {
                    assert(!level_accepted(levels@, ib as int, profile_levels));
                    assert(BoxLevelError::BeyondProfile(level, n) == level_refusal(
                        levels@,
                        ib as int,
                        profile_levels,
                    ));
                    return Err(BoxLevelError::BeyondProfile(level, n));
                }
            },
            None => {},
        }
        let z = if level > 0 {
            level - 1
        } else {
            0
        };
        v.push(
            if z < NL - 1 {
                z
            } else {
                NL - 1
            },
        );
        ib = ib + 1;
    }
    Ok(v)
}

/// What a run of the model does, by its control flags.
#[derive(Debug, Clone, Copy, PartialEq, Eq)]
pub enum RunMode {
    /// Only the photolysis rates are printed (`LPRTJV`).
    PhotolysisOnly,
    /// Steady state on the climatology grid (`ND216 > 0`).
    Ctm,
    /// Diurnal cycles along the trajectory (`ND216 = 0`).
    Diurnal,
    /// Sensitivity mode (`ND216 < 0`), which the model refuses.
    Derivs,
}

/// The run mode chosen from `LPRTJV` and `ND216`.
pub open spec fn run_mode_spec(lprtjv: bool, nd216: i32) -> RunMode {
    if lprtjv {
        RunMode::PhotolysisOnly
    } else if nd216 > 0 {
        RunMode::Ctm
    } else if nd216 == 0 {
        RunMode::Diurnal
    } else {
        RunMode::Derivs
    }
}

/// Executable form of [`run_mode_spec`].
pub fn run_mode(lprtjv: bool, nd216: i32) -> (r: RunMode)
    ensures
        r == run_mode_spec(lprtjv, nd216),
{
    if lprtjv {
        RunMode::PhotolysisOnly
    } else if nd216 > 0 {
        RunMode::Ctm
    } else if nd216 == 0 {
        RunMode::Diurnal
    } else {
        RunMode::Derivs
    }
}

/// The J-value print flag decides first: with `LPRTJV` set no run mode is
/// entered, whatever `ND216` says. Without it, a positive `ND216` selects
/// the climatology (CTM) run, zero the diurnal run along the trajectory,
/// and a negative value the refused sensitivity mode.
pub proof fn law_run_mode_dispatch(lprtjv: bool, nd216: i32)
    ensures
        lprtjv ==> run_mode_spec(lprtjv, nd216) == RunMode::PhotolysisOnly,
        run_mode_spec(lprtjv, nd216) == RunMode::PhotolysisOnly ==> lprtjv,
        !lprtjv ==> (run_mode_spec(lprtjv, nd216) == RunMode::Ctm <==> nd216 > 0),
        !lprtjv ==> (run_mode_spec(lprtjv, nd216) == RunMode::Diurnal <==> nd216 == 0),
        !lprtjv ==> (run_mode_spec(lprtjv, nd216) == RunMode::Derivs <==> nd216 < 0),
{
}

/// Why the trajectory driver refuses to start.
#[derive(Debug, Clone, Copy, PartialEq, Eq)]
pub enum PathError {
    /// Conversion to a standard pressure-altitude grid (`NPSTD > 0`) is
    /// not implemented; the value asked for is kept.
    PzstdRequested(i32),
}

/// The magnitude of a box's signed level entry.
pub open spec fn entry_magnitude(v: i32) -> int {
    if v < 0 {
        -v
    } else {
        v as int
    }
}

/// The start of a trajectory run: with `NPSTD > 0` the run is refused and
/// nothing changes; otherwise every box's level entry is made positive, so
/// that each box relaxes to its diurnal steady state along the path.
pub fn path_start(npstd: i32, nboxdo: &[i32]) -> (r: Result<Vec<u32>, PathError>)
    ensures
        r is Err <==> npstd > 0,
        r matches Err(e) ==> e == PathError::PzstdRequested(npstd),
        r matches Ok(v) ==> v.len() == nboxdo.len() && forall|i: int|
            0 <= i < nboxdo.len() ==> #[trigger] v[i] == entry_magnitude(nboxdo[i]),
{
    if npstd > 0 {
        return Err(PathError::PzstdRequested(npstd));
    }
    let mut v: Vec<u32> = Vec::new();
    let mut i: usize = 0;
    while i < nboxdo.len()
        invariant
            i <= nboxdo.len(),
            v.len() == i,
            forall|k: int| 0 <= k < i ==> #[trigger] v[k] == entry_magnitude(nboxdo[k]),
        decreases nboxdo.len() - i,
    {
        let e = nboxdo[i];
        let m: u32 = if e < 0 {
            (0i64 - e as i64) as u32
        } else {
            e as u32
        };
        v.push(m);
        i = i + 1;
    }
    Ok(v)
}

/// Most segments a trajectory run goes through.
pub const MAX_SEGMENTS: usize = 999;

/// Whether segment `ipath` (1-based) of a trajectory runs, given the path
/// record read for it (`None` when the records have run out): segments
/// past the last allowed one are not read, and the path ends at a missing
/// record, at one shorter than two bytes, or at a day count of zero.
pub open spec fn segment_runs(ipath: int, record: Option<Seq<u8>>) -> bool {
    &&& 1 <= ipath <= MAX_SEGMENTS
    &&& record matches Some(l)
    &&& l.len() >= 2
    &&& crate::text::i32_at(l, 20, 25) != 0
}

/// Decides the next segment of a trajectory run: the atmosphere change to
/// apply before the boxes run, or `None` when the path ends.
pub fn path_segment(ipath: usize, record: Option<&[u8]>) -> (r: Option<crate::newatm::NewAtmRecord>)
    ensures
        r is Some <==> segment_runs(ipath as int, match record {
            Some(l) => Some(l@),
            None => None,
        }),
        r matches Some(n) ==> record matches Some(l) && crate::newatm::newatm_record_is(n, l@),
{
    if ipath < 1 || ipath > MAX_SEGMENTS {
        return None;
    }
    match record {
        None => None,
        Some(l) => {
            let n = crate::newatm::read_newatm_record(l);
            if n.ndaysd == 0 {
                None
            } else {
                Some(n)
            }
        },
    }
}

/// What the diurnal driver does with a box, by its signed level entry.
#[derive(Debug, Clone, Copy, PartialEq, Eq)]
pub enum BoxRun {
    /// The entry names no level of the atmosphere: the box is passed over.
    Skip,
    /// A positive entry: the box is relaxed to its diurnal steady state.
    Relax,
    /// A negative entry: one day is integrated from the box's densities.
    SingleDay,
}

/// The driver's choice for a box whose entry is `nboxdo`, with `nc`
/// atmosphere levels.
pub open spec fn box_run_spec(nboxdo: int, nc: int) -> BoxRun {
    let m = if nboxdo < 0 {
        -nboxdo
    } else {
        nboxdo
    };
    if m == 0 || m > nc {
        BoxRun::Skip
    } else if nboxdo > 0 {
        BoxRun::Relax
    } else {
        BoxRun::SingleDay
    }
}

/// Executable form of [`box_run_spec`].
pub fn box_run(nboxdo: i32, nc: usize) -> (r: BoxRun)
    ensures
        r == box_run_spec(nboxdo as int, nc as int),
{
    let m: u64 = if nboxdo < 0 {
        (0i64 - nboxdo as i64) as u64
    } else {
        nboxdo as u64
    };
    if m == 0 || m > nc as u64 {
        BoxRun::Skip
    } else if nboxdo > 0 {
        BoxRun::Relax
    } else {
        BoxRun::SingleDay
    }
}

/// Number of daily-mean entries the model keeps.
pub const NPMEAN: usize = 500;

/// The daily-mean entry (0-based) that row `k` of a box's stored means
/// copies, if any: rows 0-29 the net production of the implicit species
/// (entries 460-489), rows 30-49 that of the families (entries 430-449),
/// and row 50 + `j` the rate listed `j`-th (entry 29 + the rate), none for
/// an empty listing.
pub open spec fn mean_source_spec(ndxpp: Seq<usize>, k: int) -> Option<int> {
    if k < 30 {
        Some(460 + k)
    } else if k < 50 {
        Some(400 + k)
    } else if ndxpp[k - 50] > 0 {
        Some(29 + ndxpp[k - 50])
    } else {
        None
    }
}

/// The daily-mean entry each row of a box's stored means copies: 50 rows
/// of net productions, then one row per entry of the rate listing.
pub fn mean_sources(ndxpp: &[usize]) -> (r: Vec<Option<usize>>)
    requires
        forall|j: int| 0 <= j < ndxpp.len() ==> #[trigger] ndxpp[j] + 29 < NPMEAN,
    ensures
        r.len() == 50 + ndxpp.len(),
        forall|k: int|
            0 <= k < r.len() ==> match #[trigger] r[k] {
                Some(e) => mean_source_spec(ndxpp@, k) == Some(e as int),
                None => mean_source_spec(ndxpp@, k) is None,
            },
{
    let mut r: Vec<Option<usize>> = Vec::new();
    let mut k: usize = 0;
    while k < 50
        invariant
            k <= 50,
            r.len() == k,
            forall|j: int|
                0 <= j < k ==> match #[trigger] r[j] {
                    Some(e) => mean_source_spec(ndxpp@, j) == Some(e as int),
                    None => mean_source_spec(ndxpp@, j) is None,
                },
        decreases 50 - k,
    {
        if k < 30 {
            r.push(Some(460 + k));
        } else {
            r.push(Some(400 + k));
        }
        k = k + 1;
    }
    let mut j: usize = 0;
    while j < ndxpp.len()
        invariant
            j <= ndxpp.len(),
            r.len() == 50 + j,
            forall|i: int| 0 <= i < ndxpp.len() ==> #[trigger] ndxpp[i] + 29 < NPMEAN,
            forall|i: int|
                0 <= i < r.len() ==> match #[trigger] r[i] {
                    Some(e) => mean_source_spec(ndxpp@, i) == Some(e as int),
                    None => mean_source_spec(ndxpp@, i) is None,
                },
        decreases ndxpp.len() - j,
    {
        let ndx = ndxpp[j];
        if ndx > 0 {
            r.push(Some(29 + ndx));
        } else {
            r.push(None);
        }
        j = j + 1;
    }
    r
}

} // verus!
