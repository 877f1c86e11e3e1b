use pratmo_core::climatology::{grid_point, latitude_pair, month_pair, GridPoint, start_path};

#[test]
fn path_numbers_run_over_latitudes_first() {
    assert_eq!(grid_point(1), GridPoint { ilat: 1, half_month: 1, month: 1 });
    assert_eq!(grid_point(71), GridPoint { ilat: 71, half_month: 1, month: 1 });
    assert_eq!(grid_point(72), GridPoint { ilat: 1, half_month: 2, month: 1 });
    assert_eq!(grid_point(143), GridPoint { ilat: 1, half_month: 3, month: 2 });
    assert_eq!(grid_point(1704), GridPoint { ilat: 71, half_month: 24, month: 12 });
}

#[test]
fn half_months_lie_between_two_months() {
    assert_eq!(month_pair(1), (11, 0));
    assert_eq!(month_pair(2), (0, 1));
    assert_eq!(month_pair(3), (0, 1));
    assert_eq!(month_pair(4), (1, 2));
    assert_eq!(month_pair(23), (10, 11));
    assert_eq!(month_pair(24), (11, 0));
}

/// The bracketing table latitudes as the float grids give them.
fn latitude_pair_by_degrees(ilat: usize) -> (usize, usize) {
    let xlat = -90.0 + 2.5 * ilat as f64;
    let table: Vec<f64> = (0..18).map(|j| -85.0 + 10.0 * j as f64).collect();
    let j1 = table.iter().position(|&la| la > xlat).map(|p| p.saturating_sub(1)).unwrap_or(17).min(16);
    (j1, (j1 + 1).min(17))
}

#[test]
fn latitudes_lie_between_two_table_latitudes() {
    assert_eq!(latitude_pair(1), (0, 1));
    assert_eq!(latitude_pair(36), (8, 9));
    assert_eq!(latitude_pair(70), (16, 17));
    assert_eq!(latitude_pair(71), (16, 17));
    for ilat in 0..=80 {
        assert_eq!(latitude_pair(ilat), latitude_pair_by_degrees(ilat), "ilat {ilat}");
    }
}

#[test]
fn start_path_of_day_75_at_60n() {
    // Day 75 is half-month slot 5; 60°N is 60 steps of 2.5° above 90°S.
    assert_eq!(start_path(5, 60), 415);
    let g = grid_point(415);
    assert_eq!((g.ilat, g.half_month), (60, 6));
}

#[test]
fn start_path_is_at_least_one() {
    assert_eq!(start_path(0, -5), 1);
    assert_eq!(start_path(0, 0), 1);
    assert_eq!(start_path(0, 1), 1);
}

#[test]
fn start_path_at_the_north_pole_decodes_back() {
    let p = start_path(23, 71);
    assert_eq!(p, 23 * 71 + 71);
    let g = grid_point(p as usize);
    assert_eq!((g.ilat, g.half_month), (71, 24));
}
