use webp_batch::encoder::{
    check_validation, encode_outcome, generate_config, Cli, EncodeError, InputKind, SetupError,
};
use webp_batch::engine::{resolve_fallback, tally, task_stats, Payload, Resolution};
use webp_batch::paths::FileError;
use webp_batch::stats::{aggregate, Stats};

fn parts(s: &str) -> Vec<String> {
    let mut v: Vec<String> = Vec::new();
    if s.starts_with('/') {
        v.push("/".to_string());
    }
    for c in s.split('/').filter(|c| !c.is_empty()) {
        v.push(c.to_string());
    }
    v
}

fn stats(input_size: u64, output_size: u64, count: u64) -> Stats {
    Stats { input_size, output_size, count }
}

fn cli(quality: u8, lossless: u8) -> Cli {
    Cli {
        input: parts("a/b"),
        output: None,
        quality,
        lossless,
        method: 6,
        max_depth: 8,
        use_initial_if_smaller: 0,
    }
}

#[test]
fn fallback_reports_input_size_when_encoding_grows() {
    let r = resolve_fallback(80_000, 50_000, 1);
    assert_eq!(r, Resolution { payload: Payload::Pixels, reported_size: 50_000 });
}

#[test]
fn fallback_keeps_encoding_when_it_shrinks() {
    let r = resolve_fallback(20_000, 50_000, 1);
    assert_eq!(r, Resolution { payload: Payload::Encoded, reported_size: 20_000 });
    let equal = resolve_fallback(50_000, 50_000, 1);
    assert_eq!(equal, Resolution { payload: Payload::Encoded, reported_size: 50_000 });
}

#[test]
fn without_flag_encoded_length_is_reported_even_if_larger() {
    let r = resolve_fallback(80_000, 50_000, 0);
    assert_eq!(r, Resolution { payload: Payload::Encoded, reported_size: 80_000 });
    let other = resolve_fallback(80_000, 50_000, 2);
    assert_eq!(other.reported_size, 80_000);
}

#[test]
fn failed_file_counts_with_zero_output() {
    assert_eq!(task_stats(1234, &Err(FileError::NotAnImage)), stats(1234, 0, 1));
    assert_eq!(task_stats(1234, &Ok(99)), stats(1234, 99, 1));
}

#[test]
fn single_file_run_totals() {
    let totals = tally(&vec![(50_000, Ok(31_337))]).unwrap();
    assert_eq!(totals, stats(50_000, 31_337, 1));
}

#[test]
fn run_with_failures_counts_every_file() {
    let outcomes = vec![
        (100, Ok(40)),
        (200, Err(FileError::NotAnImage)),
        (300, Ok(90)),
        (400, Err(FileError::EncodeFailed)),
        (500, Err(FileError::NoFileStem)),
        (600, Err(FileError::NoParent)),
        (700, Err(FileError::Io)),
    ];
    let totals = tally(&outcomes).unwrap();
    assert_eq!(totals, stats(2800, 130, 7));
    assert_eq!(tally(&Vec::new()).unwrap(), stats(0, 0, 0));
}

#[test]
fn grouped_reduction_matches_sequential() {
    let all = vec![stats(1, 10, 1), stats(2, 20, 1), stats(3, 0, 1), stats(4, 40, 1), stats(5, 5, 1)];
    let sequential = aggregate(&all).unwrap();
    let left = aggregate(&all[..2].to_vec()).unwrap();
    let right = aggregate(&all[2..].to_vec()).unwrap();
    assert_eq!(right.combine(&left), sequential);
    assert_eq!(left.combine(&right), sequential);
    let mut reversed = all.clone();
    reversed.reverse();
    assert_eq!(aggregate(&reversed).unwrap(), sequential);
    assert_eq!(sequential, stats(15, 75, 5));
    assert_eq!(Stats::zero().combine(&sequential), sequential);
}

#[test]
fn overflowing_totals_are_refused() {
    let big = stats(u64::MAX, 0, 1);
    assert_eq!(big.checked_combine(&stats(1, 0, 1)), None);
    assert_eq!(big.checked_combine(&stats(0, 7, 1)), Some(stats(u64::MAX, 7, 2)));
    assert_eq!(aggregate(&vec![big, stats(1, 0, 1)]), None);
    assert_eq!(tally(&vec![(u64::MAX, Ok(1)), (1, Ok(1))]), None);
}

#[test]
fn lossless_only_at_full_quality() {
    let full = generate_config(&cli(100, 1));
    assert_eq!((full.quality, full.lossless, full.method, full.thread_level), (100, 1, 6, 1));
    let lossy = generate_config(&cli(80, 1));
    assert_eq!((lossy.quality, lossy.lossless, lossy.method), (80, 0, 6));
    let off = generate_config(&cli(100, 0));
    assert_eq!(off.lossless, 0);
}

#[test]
fn validation_comes_first() {
    assert_eq!(check_validation(0), Err(EncodeError::InvalidConfiguration));
    assert_eq!(check_validation(1), Ok(()));
}

#[test]
fn nonzero_encoder_status_keeps_buffer() {
    assert_eq!(encode_outcome(1, 0), Ok(()));
    assert_eq!(encode_outcome(0, 5), Err(EncodeError::Failed(5)));
}

#[test]
fn input_path_must_exist() {
    let c = cli(100, 1);
    assert_eq!(c.input_path(InputKind::Dir), Ok(parts("a/b")));
    assert_eq!(c.input_path(InputKind::File), Ok(parts("a/b")));
    assert_eq!(c.input_path(InputKind::Missing), Err(SetupError::InputMissing));
}

#[test]
fn output_path_resolution() {
    let mut c = cli(100, 1);
    assert_eq!(c.output_path(&None), Ok(parts("a")));
    c.input = parts("img.png");
    assert_eq!(c.output_path(&None), Ok(Vec::new()));
    c.input = parts("/");
    assert_eq!(c.output_path(&None), Ok(vec![".".to_string()]));
    c.output = Some(parts("/srv/out"));
    assert_eq!(c.output_path(&None), Ok(parts("/srv/out")));
    c.output = Some(parts("out/x"));
    assert_eq!(c.output_path(&Some(parts("/home/u"))), Ok(parts("/home/u/out/x")));
    assert_eq!(c.output_path(&None), Err(SetupError::NoWorkingDir));
}
