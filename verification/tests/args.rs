use bee::args::{usage, Args, ArgsStop, DEFAULT_INTERVAL, DEFAULT_THRESHOLD_BITS};
use bee::binary64::Binary64;

fn read(argv: &[&str]) -> Result<Args, ArgsStop> {
    let argv: Vec<String> = argv.iter().map(|a| a.to_string()).collect();
    let doubles: Vec<Option<u64>> =
        argv.iter().map(|a| a.parse::<f64>().ok().map(|x| x.to_bits())).collect();
    Args::parse(&argv, &doubles)
}

fn settings(interval: u64, threshold: f64, verbose: bool) -> Args {
    Args { interval, threshold: Binary64::from_bits(threshold.to_bits()), verbose }
}

#[test]
fn defaults_are_five_seconds_and_seventy_percent() {
    assert_eq!(DEFAULT_INTERVAL, 5);
    assert_eq!(DEFAULT_THRESHOLD_BITS, 70.0f64.to_bits());
    assert_eq!(Args::new(), settings(5, 70.0, false));
    assert_eq!(read(&["bee"]), Ok(settings(5, 70.0, false)));
    assert_eq!(read(&[]), Ok(settings(5, 70.0, false)));
}

#[test]
fn options_set_their_values() {
    assert_eq!(read(&["bee", "-i", "30"]), Ok(settings(30, 70.0, false)));
    assert_eq!(read(&["bee", "-t", "85.5"]), Ok(settings(5, 85.5, false)));
    assert_eq!(read(&["bee", "-v"]), Ok(settings(5, 70.0, true)));
    assert_eq!(
        read(&["bee", "-v", "-t", "69.999", "-i", "+7"]),
        Ok(settings(7, 69.999, true))
    );
    assert_eq!(read(&["bee", "-i", "1", "-i", "2"]), Ok(settings(2, 70.0, false)));
}

#[test]
fn an_option_without_a_value_is_passed_over() {
    assert_eq!(read(&["bee", "-i"]), Ok(settings(5, 70.0, false)));
    assert_eq!(read(&["bee", "-v", "-t"]), Ok(settings(5, 70.0, true)));
}

#[test]
fn a_value_is_read_again_as_an_argument() {
    assert_eq!(read(&["bee", "-t", "-v"]), Err(ArgsStop::InvalidThreshold { index: 2 }));
    assert_eq!(read(&["bee", "-i", "-h"]), Err(ArgsStop::InvalidInterval { index: 2 }));
}

#[test]
fn a_bad_interval_stops_the_reading() {
    assert_eq!(read(&["bee", "-i", "ten"]), Err(ArgsStop::InvalidInterval { index: 2 }));
    assert_eq!(read(&["bee", "-i", "-3"]), Err(ArgsStop::InvalidInterval { index: 2 }));
    assert_eq!(read(&["bee", "-i", "1.5", "-h"]), Err(ArgsStop::InvalidInterval { index: 2 }));
}

#[test]
fn a_bad_threshold_stops_the_reading() {
    assert_eq!(read(&["bee", "-t", "high"]), Err(ArgsStop::InvalidThreshold { index: 2 }));
    assert_eq!(read(&["bee", "-v", "-t", "", "-h"]), Err(ArgsStop::InvalidThreshold { index: 3 }));
}

#[test]
fn a_threshold_without_a_reading_is_invalid() {
    let argv: Vec<String> = vec!["bee".to_string(), "-t".to_string(), "70".to_string()];
    assert_eq!(Args::parse(&argv, &vec![]), Err(ArgsStop::InvalidThreshold { index: 2 }));
}

#[test]
fn help_stops_the_reading() {
    assert_eq!(read(&["bee", "-h"]), Err(ArgsStop::Help));
    assert_eq!(read(&["bee", "help"]), Err(ArgsStop::Help));
    assert_eq!(read(&["bee", "--help"]), Err(ArgsStop::Help));
    assert_eq!(read(&["bee", "-h", "-i", "ten"]), Err(ArgsStop::Help));
    assert_eq!(read(&["help"]), Err(ArgsStop::Help));
}

#[test]
fn unknown_arguments_are_passed_over() {
    assert_eq!(read(&["bee", "--verbose", "-x", "70", "-V"]), Ok(settings(5, 70.0, false)));
}

#[test]
fn usage_lists_the_options() {
    assert_eq!(
        usage(),
        "Usage: bee [options]\nOptions:\n  -i <interval>  Polling interval in seconds (default: 5)\n  -t <threshold> Alert threshold in percentage (default: 70.0)\n  -v             Verbose mode\n"
    );
}
