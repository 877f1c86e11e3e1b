use pratmo_core::lines::LineSource;
use pratmo_core::runconfig::read_run_config;

fn config_text(path: &str) -> String {
    [
        "  75",
        " 45.0",
        "0.3",
        "1 0 2",
        "1.0",
        "1 2 3 4 5 6 7 8",
        "1 2 3",
        "9 x 7",
        "1",
        "  60.0",
        "1",
        "0",
        path,
    ]
    .join("\n")
        + "\n"
}

#[test]
fn run_config_reads_values_lists_and_the_output_name() {
    let mut src = LineSource::new(config_text("C:\\runs\\out\\box60.dat").into_bytes());
    let c = read_run_config(&mut src).unwrap();
    assert_eq!(c.jdaydo, 75);
    assert_eq!(c.xlatdo, b"45.0".to_vec());
    assert_eq!(c.xalbedo, b"0.3".to_vec());
    assert_eq!((c.iwnoy, c.iwn2o, c.iwbry), (1, 0, 2));
    assert_eq!(c.ipf, vec![1, 2, 3, 4, 5, 6, 7, 8]);
    assert_eq!(c.ipfr.len(), 24);
    assert_eq!(&c.ipfr[0..4], &[1, 2, 3, 0]);
    assert_eq!(c.ipjv[0..3], [9, 0, 7]);
    assert_eq!(c.isza, 1);
    assert_eq!(c.szaout, b"60.0".to_vec());
    assert_eq!(c.iampm, 1);
    assert_eq!(c.ivar_o3, 0);
    assert_eq!(c.output_name, b"box60.dat".to_vec());
    assert!(src.at_end());
}

#[test]
fn output_name_takes_the_last_component_or_the_default() {
    let mut src = LineSource::new(config_text("/tmp/runs/result.dat").into_bytes());
    assert_eq!(read_run_config(&mut src).unwrap().output_name, b"result.dat".to_vec());
    let mut src = LineSource::new(config_text("plain.dat").into_bytes());
    assert_eq!(read_run_config(&mut src).unwrap().output_name, b"plain.dat".to_vec());
    let mut src = LineSource::new(config_text("/tmp/runs/").into_bytes());
    assert_eq!(read_run_config(&mut src).unwrap().output_name, b"boxout.dat".to_vec());
}

#[test]
fn a_short_configuration_reads_zeros() {
    let mut src = LineSource::new(b"120\n".to_vec());
    let c = read_run_config(&mut src).unwrap();
    assert_eq!(c.jdaydo, 120);
    assert_eq!(c.isza, 0);
    assert_eq!(c.ipf, vec![0; 8]);
    assert_eq!(c.xlatdo, Vec::<u8>::new());
    assert_eq!(c.output_name, b"boxout.dat".to_vec());
}

#[test]
fn a_configuration_that_is_not_utf8_is_refused() {
    let mut src = LineSource::new(vec![b'7', b'5', b'\n', 0xff, b'\n']);
    assert!(read_run_config(&mut src).is_err());
}
