use pratmo_core::format::{diurn_unit7_header, write_a8_line, write_i5_line};
use pratmo_core::model::{
    box_level, box_run, check_profile_shape, mean_sources, diurn_box_count, nearest_step, plan_box_levels, time_distance_hhmm, BoxLevelError,
    path_segment, path_start, PathError, MAX_SEGMENTS,
    BoxRun, FileSource, FortranReader, O3InputKind, PratmoModel, ProfileShapeError, NB, NL,
};
use pratmo_core::species::{SpeciesTable, NDEN};
use pratmo_core::idx;

#[test]
fn with_defaults_reads_the_embedded_files() {
    let m = PratmoModel::with_defaults();
    let r = m.reader();
    assert_eq!(r.input_dir(), "");
    assert_eq!(r.source_of(&"fort01.x".to_string()), FileSource::Embedded(0));
    assert_eq!(r.source_of(&"J_H2O_SZA0.dat".to_string()), FileSource::Embedded(6));
    assert_eq!(r.source_of(&"fort03_LLM.x".to_string()), FileSource::InputDir);
}

#[test]
fn new_reads_every_file_from_the_directory() {
    let m = PratmoModel::new("/data/pratmo");
    let r = m.reader();
    assert_eq!(r.input_dir(), "/data/pratmo");
    assert_eq!(r.source_of(&"fort01.x".to_string()), FileSource::InputDir);
    let r = FortranReader::new("in");
    assert_eq!(r.input_dir(), "in");
    let e = FortranReader::embedded();
    assert_eq!(e.source_of(&"fort14.x".to_string()), FileSource::Embedded(5));
}

#[test]
fn o3_input_kinds_are_distinct() {
    assert_ne!(O3InputKind::MixingRatio, O3InputKind::NumberDensityCm3);
}

#[test]
fn idx_is_zero_based() {
    assert_eq!(idx(1), 0);
    assert_eq!(idx(NDEN), NDEN - 1);
}

#[test]
fn box_count_follows_boxes_or_profile() {
    assert_eq!(diurn_box_count(3, None), 3);
    assert_eq!(diurn_box_count(0, None), 0);
    assert_eq!(diurn_box_count(0, Some(41)), NB);
    assert_eq!(diurn_box_count(0, Some(7)), 7);
    assert_eq!(diurn_box_count(2, Some(7)), 2);
    assert_eq!(diurn_box_count(40, None), NB);
}

#[test]
fn time_distance_in_minutes() {
    assert_eq!(time_distance_hhmm(1200, 1130), 30);
    assert_eq!(time_distance_hhmm(1130, 1200), 30);
    assert_eq!(time_distance_hhmm(0, 2359), 1439);
    // Hours by floor division: -30 reads as hour -1, minute 70, so minute 10.
    assert_eq!(time_distance_hhmm(-30, 30), 20);
}

#[test]
fn nearest_step_takes_the_first_closest() {
    assert_eq!(nearest_step(&vec![], 1200), None);
    assert_eq!(nearest_step(&vec![600, 1130, 1230, 1800], 1200), Some(1));
    assert_eq!(nearest_step(&vec![600, 1300, 1100], 1200), Some(1));
    assert_eq!(nearest_step(&vec![2300], 100), Some(0));
}

#[test]
fn box_level_is_the_magnitude_less_one() {
    assert_eq!(box_level(30), 29);
    assert_eq!(box_level(-30), 29);
    assert_eq!(box_level(0), 0);
    assert_eq!(box_level(1), 0);
    assert_eq!(box_level(500), NL - 1);
    assert_eq!(box_level(i32::MIN), NL - 1);
}

#[test]
fn box_levels_default_to_the_box_number() {
    assert_eq!(plan_box_levels(&vec![30, 0], 3, None), Ok(vec![29, 0, 2]));
    assert_eq!(plan_box_levels(&vec![200], 1, None), Ok(vec![NL - 1]));
    assert_eq!(plan_box_levels(&vec![], 0, Some(10)), Ok(vec![]));
}

#[test]
fn box_levels_of_a_custom_atmosphere_are_checked() {
    assert_eq!(plan_box_levels(&vec![3, 10], 2, Some(10)), Ok(vec![2, 9]));
    assert_eq!(plan_box_levels(&vec![3, 0, 99], 3, Some(10)), Err(BoxLevelError::ZeroLevel(1)));
    assert_eq!(
        plan_box_levels(&vec![3, 11, 0], 3, Some(10)),
        Err(BoxLevelError::BeyondProfile(11, 10))
    );
    // A box without a configured level asks for its own number.
    assert_eq!(plan_box_levels(&vec![1], 3, Some(2)), Err(BoxLevelError::BeyondProfile(3, 2)));
}

#[test]
fn i5_lines_hold_sixteen_values() {
    assert_eq!(write_i5_line(&[]), Vec::<u8>::new());
    assert_eq!(write_i5_line(&[1, -23, 45678]), b"    1  -2345678\n".to_vec());
    let vals: Vec<i32> = (1..=17).collect();
    let text = String::from_utf8(write_i5_line(&vals)).unwrap();
    let lines: Vec<&str> = text.lines().collect();
    assert_eq!(lines.len(), 2);
    assert_eq!(lines[0].len(), 80);
    assert_eq!(lines[1], "   17");
    assert_eq!(write_i5_line(&[123456]), b"123456\n".to_vec());
}

#[test]
fn a8_lines_hold_eight_names() {
    assert_eq!(write_a8_line(&[]), Vec::<u8>::new());
    assert_eq!(write_a8_line(&[b"O3".to_vec(), b"LONGNAME9".to_vec()]), b"O3      LONGNAME\n".to_vec());
    let names: Vec<Vec<u8>> = (0..9).map(|i| format!("N{i}").into_bytes()).collect();
    let text = String::from_utf8(write_a8_line(&names)).unwrap();
    assert_eq!(text, "N0      N1      N2      N3      N4      N5      N6      N7      \nN8      \n");
    assert_eq!(write_a8_line(&["é".as_bytes().to_vec()]), "é       \n".as_bytes().to_vec());
}

#[test]
fn unit7_header_lists_counts_slots_names_and_times() {
    let mut t = SpeciesTable::new();
    let header = b"RADICALS 3".to_vec();
    let lines = vec![b"OH       1 1001".to_vec(), b"HO2      2 0000".to_vec(), b"NO2      3 0100".to_vec()];
    assert_eq!(t.read_radicals(&header, &lines), Ok(()));
    let titler: Vec<Vec<u8>> = vec![b"RUN".to_vec(); 5];
    let out = String::from_utf8(diurn_unit7_header(&titler, &t, 2, &[1200, 1230, 1300])).unwrap();
    let expected = [
        "RUN     RUN     RUN     RUN     RUN     ",
        "    2    3",
        "    1    3    2",
        "OH      HO2     NO2     ",
        "    2",
        " 1200 1230",
        "",
    ]
    .join("\n");
    assert_eq!(out, expected);
}

#[test]
fn custom_atmosphere_shapes() {
    assert_eq!(check_profile_shape(0, 0, 0, None), Err(ProfileShapeError::LevelCount(0)));
    assert_eq!(check_profile_shape(82, 82, 82, None), Err(ProfileShapeError::LevelCount(82)));
    assert_eq!(check_profile_shape(81, 81, 81, None), Ok(()));
    assert_eq!(check_profile_shape(3, 2, 3, None), Err(ProfileShapeError::ArrayLengths));
    assert_eq!(check_profile_shape(3, 3, 4, Some(9)), Err(ProfileShapeError::ArrayLengths));
    assert_eq!(check_profile_shape(3, 3, 3, Some(2)), Err(ProfileShapeError::AltitudeLength));
    assert_eq!(check_profile_shape(3, 3, 3, Some(3)), Ok(()));
}

#[test]
fn box_run_by_entry() {
    assert_eq!(box_run(5, 39), BoxRun::Relax);
    assert_eq!(box_run(-5, 39), BoxRun::SingleDay);
    assert_eq!(box_run(0, 39), BoxRun::Skip);
    assert_eq!(box_run(40, 39), BoxRun::Skip);
    assert_eq!(box_run(-40, 39), BoxRun::Skip);
    assert_eq!(box_run(39, 39), BoxRun::Relax);
    assert_eq!(box_run(i32::MIN, 39), BoxRun::Skip);
}

#[test]
fn stored_means_copy_their_entries() {
    let mut ndxpp = vec![0usize; 25];
    ndxpp[0] = 9;
    ndxpp[2] = 137;
    let m = mean_sources(&ndxpp);
    assert_eq!(m.len(), 75);
    assert_eq!(m[0], Some(460));
    assert_eq!(m[29], Some(489));
    assert_eq!(m[30], Some(430));
    assert_eq!(m[49], Some(449));
    assert_eq!(m[50], Some(38));
    assert_eq!(m[51], None);
    assert_eq!(m[52], Some(166));
}

#[test]
fn path_refuses_pzstd_conversion() {
    assert_eq!(path_start(1, &[3, -4]), Err(PathError::PzstdRequested(1)));
    assert_eq!(path_start(7, &[]), Err(PathError::PzstdRequested(7)));
}

#[test]
fn path_start_makes_every_box_relax() {
    assert_eq!(path_start(0, &[3, -4, 0, -25]), Ok(vec![3, 4, 0, 25]));
    assert_eq!(path_start(-2, &[-1]), Ok(vec![1]));
}

#[test]
fn path_segments_end_with_the_records() {
    let record = b"  ATM1      O3A        2 1.000E+01 2.000E+01 3.000E+18    1 0.500 0.250";
    let n = path_segment(1, Some(&record[..])).expect("segment runs");
    assert_eq!(n.ndaysd, 2);
    assert_eq!(n.change.unwrap().kalt, 1);
    assert!(path_segment(2, None).is_none());
    assert!(path_segment(3, Some(&b"x"[..])).is_none());
    let ended = b"  ATM1      O3A        0";
    assert!(path_segment(4, Some(&ended[..])).is_none());
    assert!(path_segment(MAX_SEGMENTS, Some(&record[..])).is_some());
    assert!(path_segment(MAX_SEGMENTS + 1, Some(&record[..])).is_none());
}
