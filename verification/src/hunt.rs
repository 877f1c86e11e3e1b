//! Bracket search in a monotonic table (the `HUNT` routine of Numerical
//! Recipes), on integer keys: the climatology's half-month table is searched
//! by Julian day.
use vstd::prelude::*;

verus! {

/// The table is sorted in the given sense: ascending when `up`, else
/// descending.
pub open spec fn sorted_in_sense(xx: Seq<i64>, up: bool) -> bool {
    forall|i: int, j: int|
        0 <= i <= j < xx.len() ==> (if up {
            xx[i] <= xx[j]
        } else {
            xx[i] >= xx[j]
        })
}

/// The table is monotonic, ascending or descending.
pub open spec fn monotonic(xx: Seq<i64>) -> bool {
    sorted_in_sense(xx, true) || sorted_in_sense(xx, false)
}

/// The sense of the search: ascending when the last key exceeds the first.
pub open spec fn runs_up(xx: Seq<i64>) -> bool {
    xx[xx.len() - 1] > xx[0]
}

/// Key `i` lies on the low side of `x` in the search's sense, strictly
/// (`x` excluded) or not.
pub open spec fn on_low_side(xx: Seq<i64>, x: i64, up: bool, strict: bool, i: int) -> bool {
    if up {
        if strict {
            xx[i] < x
        } else {
            xx[i] <= x
        }
    } else {
        if strict {
            xx[i] > x
        } else {
            xx[i] >= x
        }
    }
}

/// Number of the first `k` keys on the low side of `x`.
pub open spec fn count_low(xx: Seq<i64>, x: i64, up: bool, strict: bool, k: int) -> int
    decreases k,
{
    if k <= 0 {
        0
    } else {
        count_low(xx, x, up, strict, k - 1) + if on_low_side(xx, x, up, strict, k - 1) {
            1int
        } else {
            0int
        }
    }
}

/// Number of keys strictly on the low side of `x`.
pub open spec fn keys_before(xx: Seq<i64>, x: i64) -> int {
    count_low(xx, x, runs_up(xx), true, xx.len() as int)
}

/// Number of keys on the low side of `x` or equal to it.
pub open spec fn keys_through(xx: Seq<i64>, x: i64) -> int {
    count_low(xx, x, runs_up(xx), false, xx.len() as int)
}

/// The bracket that the search finds from no hint: below the keys equal to
/// `x` in an ascending table, above them in a descending one.
pub open spec fn unhinted_bracket(xx: Seq<i64>, x: i64) -> int {
    if runs_up(xx) {
        keys_before(xx, x)
    } else {
        keys_through(xx, x)
    }
}

/// The hint as the search reads it: the low 32 bits of `jlo` as a signed
/// number.
pub open spec fn hint_of(jlo: usize) -> int {
    let low = (jlo as int) % 0x1_0000_0000;
    if low >= 0x8000_0000 {
        low - 0x1_0000_0000
    } else {
        low
    }
}

/// The hint points at a key (1-based), so the search starts from it.
pub open spec fn hint_valid(jlo: usize, n: int) -> bool {
    1 <= hint_of(jlo) <= n
}

/// Low end of a bracket (1-based, 0 before the first key): the key at `j`
/// is on the low side of `x`, `x` included.
spec fn low_end(xx: Seq<i64>, x: i64, up: bool, j: int) -> bool {
    j == 0 || on_low_side(xx, x, up, false, j - 1)
}

/// High end of a bracket (1-based, `n + 1` past the last key): the key at
/// `j` is not strictly below `x`.
spec fn high_end(xx: Seq<i64>, x: i64, up: bool, j: int) -> bool {
    j == xx.len() + 1 || !on_low_side(xx, x, up, true, j - 1)
}

/// Low end as the bisection leaves it.
spec fn bisect_low(xx: Seq<i64>, x: i64, up: bool, j: int) -> bool {
    j == 0 || on_low_side(xx, x, up, up, j - 1)
}

/// High end as the bisection leaves it.
spec fn bisect_high(xx: Seq<i64>, x: i64, up: bool, j: int) -> bool {
    j == xx.len() + 1 || !on_low_side(xx, x, up, up, j - 1)
}

proof fn lemma_count_low_bound(xx: Seq<i64>, x: i64, up: bool, strict: bool, k: int)
    requires
        0 <= k,
    ensures
        0 <= count_low(xx, x, up, strict, k) <= k,
    decreases k,
{
    if k > 0 {
        lemma_count_low_bound(xx, x, up, strict, k - 1);
    }
}

/// Keys on the low side up to `r`: at least `r` of the first `m` counted.
proof fn lemma_count_low_at_least(xx: Seq<i64>, x: i64, up: bool, strict: bool, r: int, m: int)
    requires
        0 <= r <= m,
        forall|i: int| 0 <= i < r ==> on_low_side(xx, x, up, strict, i),
    ensures
        count_low(xx, x, up, strict, m) >= r,
    decreases m,
{
    if m > r {
        lemma_count_low_at_least(xx, x, up, strict, r, m - 1);
    } else if m > 0 {
        lemma_count_low_at_least(xx, x, up, strict, r - 1, m - 1);
    }
}

/// No key on the low side from `r` on: at most `r` of the first `m` counted.
proof fn lemma_count_low_at_most(xx: Seq<i64>, x: i64, up: bool, strict: bool, r: int, m: int)
    requires
        0 <= r <= m,
        forall|i: int| r <= i < m ==> !on_low_side(xx, x, up, strict, i),
    ensures
        count_low(xx, x, up, strict, m) <= r,
    decreases m,
{
    if m > r {
        lemma_count_low_at_most(xx, x, up, strict, r, m - 1);
    } else {
        lemma_count_low_bound(xx, x, up, strict, m);
    }
}

/// In a sorted table a key on the low side puts every earlier key there.
proof fn lemma_low_prefix(xx: Seq<i64>, x: i64, up: bool, strict: bool, r: int)
    requires
        sorted_in_sense(xx, up),
        1 <= r <= xx.len(),
        on_low_side(xx, x, up, strict, r - 1),
    ensures
        forall|i: int| 0 <= i < r ==> on_low_side(xx, x, up, strict, i),
{
    assert forall|i: int| 0 <= i < r implies on_low_side(xx, x, up, strict, i) by {
        assert(if up { xx[i] <= xx[r - 1] } else { xx[i] >= xx[r - 1] });
    }
}

/// In a sorted table a key off the low side puts every later key off it.
proof fn lemma_high_suffix(xx: Seq<i64>, x: i64, up: bool, strict: bool, r: int)
    requires
        sorted_in_sense(xx, up),
        0 <= r < xx.len(),
        !on_low_side(xx, x, up, strict, r),
    ensures
        forall|i: int| r <= i < xx.len() ==> !on_low_side(xx, x, up, strict, i),
{
    assert forall|i: int| r <= i < xx.len() implies !on_low_side(xx, x, up, strict, i) by {
        assert(if up { xx[r] <= xx[i] } else { xx[r] >= xx[i] });
    }
}

/// A monotonic table is sorted in the sense the search reads from its ends.
proof fn lemma_monotonic_sense(xx: Seq<i64>)
    requires
        xx.len() > 0,
        monotonic(xx),
    ensures
        sorted_in_sense(xx, runs_up(xx)),
{
    if !runs_up(xx) && sorted_in_sense(xx, true) {
        assert forall|i: int, j: int| 0 <= i <= j < xx.len() implies xx[i] >= xx[j] by {
            assert(xx[0] <= xx[i]);
            assert(xx[j] <= xx[xx.len() - 1]);
        }
    }
}

/// A bracket `r` of a sorted table lies between the two counts, and a
/// bracket left by bisection alone is the unhinted one.
proof fn lemma_bracket_counts(xx: Seq<i64>, x: i64, r: int)
    requires
        xx.len() > 0,
        sorted_in_sense(xx, runs_up(xx)),
        0 <= r <= xx.len(),
        low_end(xx, x, runs_up(xx), r),
        high_end(xx, x, runs_up(xx), r + 1),
    ensures
        keys_before(xx, x) <= r <= keys_through(xx, x),
        bisect_low(xx, x, runs_up(xx), r) && bisect_high(xx, x, runs_up(xx), r + 1)
            ==> r == unhinted_bracket(xx, x),
{
    let up = runs_up(xx);
    let n = xx.len() as int;
    if r > 0 {
        lemma_low_prefix(xx, x, up, false, r);
    }
    lemma_count_low_at_least(xx, x, up, false, r, n);
    if r < n {
        lemma_high_suffix(xx, x, up, true, r);
    }
    lemma_count_low_at_most(xx, x, up, true, r, n);
    if bisect_low(xx, x, up, r) && bisect_high(xx, x, up, r + 1) {
        if r > 0 {
            lemma_low_prefix(xx, x, up, up, r);
        }
        lemma_count_low_at_least(xx, x, up, up, r, n);
        if r < n {
            lemma_high_suffix(xx, x, up, up, r);
        }
        lemma_count_low_at_most(xx, x, up, up, r, n);
    }
}

/// The search up from a hint (1-based, at key `jlo`) with steps doubling
/// from `inc`: while the key `jlo + inc` lies on the low side of `x`
/// (`x >= key` in an ascending table, `x < key` in a descending one), the
/// low end moves there; the bracket it ends with.
pub open spec fn hunt_up(xx: Seq<i64>, x: i64, up: bool, jlo: int, inc: int) -> (int, int)
    decreases xx.len() - jlo,
{
    let jhi = jlo + inc;
    if inc < 1 || jhi > xx.len() {
        (jlo, xx.len() as int + 1)
    } else if (x >= xx[jhi - 1]) != up {
        (jlo, jhi)
    } else {
        hunt_up(xx, x, up, jhi, 2 * inc)
    }
}

/// The search down from a hint (at key `jhi`) with steps doubling from
/// `inc`: while the key `jhi - inc` lies on the high side of `x`, the high
/// end moves there; the bracket it ends with (0 below the first key).
pub open spec fn hunt_down(xx: Seq<i64>, x: i64, up: bool, jhi: int, inc: int) -> (int, int)
    decreases jhi,
{
    let jlo = jhi - inc;
    if inc < 1 || jlo < 1 {
        (0, jhi)
    } else if (x < xx[jlo - 1]) != up {
        (jlo, jhi)
    } else {
        hunt_down(xx, x, up, jlo, 2 * inc)
    }
}

/// Bisection of the bracket `jlo..jhi`: the middle key becomes the low end
/// when `x` lies strictly on its high side (`x > key` ascending, `x <= key`
/// descending), else the high end.
pub open spec fn bisect(xx: Seq<i64>, x: i64, up: bool, jlo: int, jhi: int) -> int
    decreases jhi - jlo,
{
    if jhi - jlo <= 1 {
        jlo
    } else {
        let jm = (jhi + jlo) / 2;
        if (x > xx[jm - 1]) == up {
            bisect(xx, x, up, jm, jhi)
        } else {
            bisect(xx, x, up, jlo, jm)
        }
    }
}

/// The bracket the search gives for every table, sorted or not: from no
/// usable hint, bisection of the whole table; from a hint, the search up
/// or down from it and then bisection.
pub open spec fn hunt_result(xx: Seq<i64>, x: i64, hint: int) -> int {
    let n = xx.len() as int;
    let up = runs_up(xx);
    if hint < 1 || hint > n {
        bisect(xx, x, up, 0, n + 1)
    } else if (x >= xx[hint - 1]) == up {
        let (a, b) = hunt_up(xx, x, up, hint, 1);
        bisect(xx, x, up, a, b)
    } else {
        let (a, b) = hunt_down(xx, x, up, hint, 1);
        bisect(xx, x, up, a, b)
    }
}

/// Finds the bracket of `x` in the table `xx`, starting from the hint in
/// `jlo` and leaving the result there: `jlo` is 1-based, with 0 before the
/// first key and `n` past the last. An empty table leaves `jlo` unchanged.
pub fn hunt(xx: &[i64], x: i64, jlo: &mut usize)
    requires
        xx.len() < 0x4000_0000,
    ensures
        xx.len() == 0 ==> *final(jlo) == *old(jlo),
        xx.len() > 0 ==> *final(jlo) <= xx.len(),
        xx.len() > 0 && monotonic(xx@) ==> keys_before(xx@, x) <= *final(jlo) <= keys_through(
            xx@,
            x,
        ),
        xx.len() > 0 && monotonic(xx@) && !hint_valid(*old(jlo), xx.len() as int) ==> *final(jlo)
            == unhinted_bracket(xx@, x),
        xx.len() > 0 ==> *final(jlo) == hunt_result(xx@, x, hint_of(*old(jlo))),
{
    let n = xx.len();
    if n == 0 {
        return ;
    }
    let ghost s = xx@;
    let ascnd = xx[n - 1] > xx[0];
    let ghost up = ascnd;
    let ni: i64 = n as i64;
    let hint: u64 = (*jlo as u64) & 0xffff_ffff;
    assert(hint == (*jlo as int) % 0x1_0000_0000) by (bit_vector)
        requires
            hint == (*jlo as u64) & 0xffff_ffff,
    ;
    let mut jlo_f: i64;
    let mut jhi_f: i64;
    let ghost valid = hint_valid(*old(jlo), n as int);
    let ghost h0: int = hint_of(*old(jlo));
    proof {
        if 1 <= hint <= n {
            assert(h0 == hint);
        } else {
            assert(h0 < 1 || h0 > n);
        }
    }
    if hint == 0 || hint > n as u64 {
        jlo_f = 0;
        jhi_f = ni + 1;
    } else {
        jlo_f = hint as i64;
        let mut inc: i64 = 1;
        if (x >= xx[(jlo_f - 1) as usize]) == ascnd {
            loop
                invariant_except_break
                    1 <= jlo_f <= ni,
                    1 <= inc <= 2 * ni,
                    ni == n,
                    n == xx.len(),
                    s == xx@,
                    up == ascnd,
                    n < 0x4000_0000,
                    low_end(s, x, up, jlo_f as int),
                    hunt_up(s, x, up, h0, 1) == hunt_up(s, x, up, jlo_f as int, inc as int),
                ensures
                    0 <= jlo_f < jhi_f <= ni + 1,
                    low_end(s, x, up, jlo_f as int),
                    high_end(s, x, up, jhi_f as int),
                    hunt_up(s, x, up, h0, 1) == (jlo_f as int, jhi_f as int),
                decreases ni - jlo_f,
            {
                jhi_f = jlo_f + inc;
                if jhi_f > ni {
                    jhi_f = ni + 1;
                    break ;
                }
                if (x >= xx[(jhi_f - 1) as usize]) != ascnd {
                    break ;
                }
                jlo_f = jhi_f;
                inc = inc * 2;
            }
        } else {
            jhi_f = jlo_f;
            loop
                invariant_except_break
                    1 <= jhi_f <= ni,
                    1 <= inc <= 2 * ni,
                    ni == n,
                    n == xx.len(),
                    s == xx@,
                    up == ascnd,
                    n < 0x4000_0000,
                    high_end(s, x, up, jhi_f as int),
                    hunt_down(s, x, up, h0, 1) == hunt_down(s, x, up, jhi_f as int, inc as int),
                ensures
                    0 <= jlo_f < jhi_f <= ni + 1,
                    low_end(s, x, up, jlo_f as int),
                    high_end(s, x, up, jhi_f as int),
                    hunt_down(s, x, up, h0, 1) == (jlo_f as int, jhi_f as int),
                decreases jhi_f,
            {
                jlo_f = jhi_f - inc;
                if jlo_f < 1 {
                    jlo_f = 0;
                    break ;
                }
                if (x < xx[(jlo_f - 1) as usize]) != ascnd {
                    break ;
                }
                jhi_f = jlo_f;
                inc = inc * 2;
            }
        }
    }
    let ghost target = bisect(s, x, up, jlo_f as int, jhi_f as int);
    assert(target == hunt_result(s, x, h0));
    while jhi_f - jlo_f > 1
        invariant
            target == bisect(s, x, up, jlo_f as int, jhi_f as int),
            0 <= jlo_f < jhi_f <= ni + 1,
            ni == n,
            n == xx.len(),
            n < 0x4000_0000,
            s == xx@,
            up == ascnd,
            low_end(s, x, up, jlo_f as int),
            high_end(s, x, up, jhi_f as int),
            !valid ==> bisect_low(s, x, up, jlo_f as int) && bisect_high(s, x, up, jhi_f as int),
        decreases jhi_f - jlo_f,
    {
        let jm = (jhi_f + jlo_f) / 2;
        if (x > xx[(jm - 1) as usize]) == ascnd {
            jlo_f = jm;
        } else {
            jhi_f = jm;
        }
    }
    *jlo = jlo_f as usize;
    proof {
        if monotonic(s) {
            lemma_monotonic_sense(s);
            lemma_bracket_counts(s, x, jlo_f as int);
        }
    }
}

/// Without equal keys the strict and the inclusive counts agree.
proof fn lemma_counts_agree(xx: Seq<i64>, x: i64, up: bool, k: int)
    requires
        0 <= k <= xx.len(),
        forall|i: int| 0 <= i < xx.len() ==> xx[i] != x,
    ensures
        count_low(xx, x, up, true, k) == count_low(xx, x, up, false, k),
    decreases k,
{
    if k > 0 {
        lemma_counts_agree(xx, x, up, k - 1);
    }
}

/// In a monotonic table, a value equal to no key has a single bracket:
/// every result of `hunt` is the same, whatever the hint.
pub proof fn law_bracket_is_hint_free(xx: Seq<i64>, x: i64)
    requires
        xx.len() > 0,
        monotonic(xx),
        forall|i: int| 0 <= i < xx.len() ==> xx[i] != x,
    ensures
        keys_before(xx, x) == keys_through(xx, x),
        unhinted_bracket(xx, x) == keys_before(xx, x),
{
    lemma_counts_agree(xx, x, runs_up(xx), xx.len() as int);
}

/// Representative Julian days of the 24 half-months of the climatology.
pub open spec fn half_month_days_spec() -> Seq<i64> {
    seq![
        1i64, 16, 32, 47, 60, 75, 91, 106, 121, 137, 152, 167, 182, 197, 213, 228, 244, 259,
        274, 289, 305, 320, 335, 350,
    ]
}

/// The half-month table, in order.
pub fn half_month_days() -> (r: Vec<i64>)
    ensures
        r@ == half_month_days_spec(),
{
    let r: Vec<i64> = vec![
        1, 16, 32, 47, 60, 75, 91, 106, 121, 137, 152, 167, 182, 197, 213, 228, 244, 259, 274,
        289, 305, 320, 335, 350,
    ];
    assert(r@ == half_month_days_spec());
    r
}

pub open spec fn distance(a: int, b: int) -> int {
    if a >= b {
        a - b
    } else {
        b - a
    }
}

/// The half-month slot (0-based) chosen for a Julian day: the bracket below
/// the day in the half-month table, held to the last pair, then the upper
/// member of the pair `(j, j + 1)` where it is strictly nearer.
pub open spec fn half_month_slot_spec(jday: i32) -> int {
    let d = half_month_days_spec();
    let b = keys_before(d, jday as i64);
    let j = if b < 22 {
        b
    } else {
        22
    };
    if distance(d[j + 1] as int, jday as int) < distance(d[j] as int, jday as int) {
        j + 1
    } else {
        j
    }
}

/// Half-month slot of the climatology for a Julian day.
pub fn half_month_slot(jday: i32) -> (r: usize)
    ensures
        r == half_month_slot_spec(jday),
        r < 24,
{
    let days = half_month_days();
    proof {
        let d = half_month_days_spec();
        assert(sorted_in_sense(d, true)) by {
            assert forall|i: int, j: int| 0 <= i <= j < d.len() implies d[i] <= d[j] by {
                assert(forall|k: int| 0 <= k < 23 ==> #[trigger] d[k] < d[k + 1]);
                lemma_sorted_steps(d, i, j);
            }
        }
    }
    let mut j0: usize = 0;
    hunt(days.as_slice(), jday as i64, &mut j0);
    let j = if j0 < 22 {
        j0
    } else {
        22
    };
    let x: i64 = jday as i64;
    let d1: i64 = if days[j + 1] >= x {
        days[j + 1] - x
    } else {
        x - days[j + 1]
    };
    let d0: i64 = if days[j] >= x {
        days[j] - x
    } else {
        x - days[j]
    };
    if d1 < d0 {
        j + 1
    } else {
        j
    }
}

/// Keys rising at each step rise across any span.
proof fn lemma_sorted_steps(d: Seq<i64>, i: int, j: int)
    requires
        0 <= i <= j < d.len(),
        forall|k: int| 0 <= k < d.len() - 1 ==> #[trigger] d[k] < d[k + 1],
    ensures
        d[i] <= d[j],
    decreases j - i,
{
    if i < j {
        lemma_sorted_steps(d, i + 1, j);
    }
}

/// Month (0-based, held to December) of the Earth-Sun distance table for a
/// Julian day: thirty-day months counted from day 1.
pub open spec fn month_of_day_spec(jday: int) -> int {
    if jday <= 1 {
        0
    } else if (jday - 1) / 30 < 11 {
        (jday - 1) / 30
    } else {
        11
    }
}

/// Month of the Earth-Sun distance table for a Julian day. Days before -28
/// would select a negative month, which has no entry.
pub fn month_of_day(jday: i32) -> (r: usize)
    requires
        jday >= -28,
    ensures
        r == month_of_day_spec(jday as int),
        r <= 11,
{
    if jday <= 1 {
        0
    } else {
        let m: u32 = ((jday - 1) as u32) / 30;
        if m < 11 {
            m as usize
        } else {
            11
        }
    }
}

} // verus!
