use std::io::Read;

use pipe_logger_lib::{
    CompressorAction, CompressorEvent, Tee, compress_rotated_content, compressor_step,
    report_stream,
};
use pipe_logger_lib::clock::acquire_timestamp;

fn decompress(data: &[u8]) -> Vec<u8> {
    let mut decoder = xz2::read::XzDecoder::new(data);
    let mut out = Vec::new();
    decoder.read_to_end(&mut out).unwrap();
    out
}

#[test]
fn compressed_artifact_decompresses_to_source() {
    let content = "This is a log.\nIsn't it?".as_bytes();
    let compressed = compress_rotated_content(content);
    assert_ne!(content.to_vec(), compressed);
    assert_eq!(content.to_vec(), decompress(&compressed));
}

#[test]
fn compresses_empty_content() {
    let compressed = compress_rotated_content(&[]);
    assert!(!compressed.is_empty());
    assert_eq!(Vec::<u8>::new(), decompress(&compressed));
}

#[test]
fn compresses_large_content() {
    let content: Vec<u8> = (0..100_000u32).map(|i| (i % 251) as u8).collect();
    let compressed = compress_rotated_content(&content);
    assert!(compressed.len() < content.len());
    assert_eq!(content, decompress(&compressed));
}

#[test]
fn compressor_decisions() {
    assert_eq!(
        CompressorAction::ReportAndStop,
        compressor_step(&CompressorEvent::DestCreateFailed)
    );
    assert_eq!(
        CompressorAction::DeleteDestAndStop,
        compressor_step(&CompressorEvent::SourceOpenNotFound)
    );
    assert_eq!(
        CompressorAction::ReportAndStop,
        compressor_step(&CompressorEvent::SourceOpenFailed)
    );
    assert_eq!(
        CompressorAction::ContinueReading,
        compressor_step(&CompressorEvent::WroteChunk { given: 512, accepted: 512 })
    );
    assert_eq!(
        CompressorAction::ReportAndStop,
        compressor_step(&CompressorEvent::WroteChunk { given: 512, accepted: 100 })
    );
    assert_eq!(
        CompressorAction::DeleteSourceAndFinish,
        compressor_step(&CompressorEvent::ReadEof)
    );
    assert_eq!(
        CompressorAction::DeleteDestAndStop,
        compressor_step(&CompressorEvent::ReadNotFound)
    );
    assert_eq!(CompressorAction::ReportAndStop, compressor_step(&CompressorEvent::ReadFailed));
}

#[test]
fn failures_report_on_tee_or_stderr() {
    assert_eq!(Tee::Stdout, report_stream(&Some(Tee::Stdout)));
    assert_eq!(Tee::Stderr, report_stream(&Some(Tee::Stderr)));
    assert_eq!(Tee::Stderr, report_stream(&None));
}

#[test]
fn clock_samples_are_fresh_and_valid() {
    // a sample equal to the impossible previous millisecond is accepted
    let sampled = acquire_timestamp(i64::MIN);
    let (millis, t) = sampled.expect("the clock's millisecond cannot equal i64::MIN");
    assert_ne!(i64::MIN, millis);
    assert!((1000..=2999).contains(&t.year));
    assert!((1..=12).contains(&t.month));
    assert!((1..=31).contains(&t.day));
    assert!(t.hour <= 23);
    assert!(t.minute <= 59);
    assert!(t.second <= 59);
    assert!(t.millisecond <= 999);
    // an immediate resample against the same millisecond is refused or fresh
    if let Some((again, _)) = acquire_timestamp(millis) {
        assert_ne!(millis, again);
    }
}

#[test]
fn sample_acceptance_is_decided_by_the_millisecond() {
    let sample = pipe_logger_lib::ClockSample {
        millis: 1_000_000_000_555,
        year: 2024,
        month: 1,
        day: 2,
        hour: 3,
        minute: 4,
        second: 5,
        subsec_millis: 555,
    };
    // the same millisecond as the previous rotation is refused
    assert_eq!(None, pipe_logger_lib::accept_sample(sample, 1_000_000_000_555));
    // any other is accepted with its fields unchanged
    let (millis, t) = pipe_logger_lib::accept_sample(sample, 0).unwrap();
    assert_eq!(1_000_000_000_555, millis);
    assert_eq!(
        pipe_logger_lib::Timestamp {
            year: 2024,
            month: 1,
            day: 2,
            hour: 3,
            minute: 4,
            second: 5,
            millisecond: 555,
        },
        t
    );
}

#[test]
fn sample_acceptance_clamps_year_and_leap_millisecond() {
    let mut sample = pipe_logger_lib::ClockSample {
        millis: 7,
        year: 1,
        month: 12,
        day: 31,
        hour: 23,
        minute: 59,
        second: 59,
        subsec_millis: 1500,
    };
    let (_, t) = pipe_logger_lib::accept_sample(sample, 0).unwrap();
    assert_eq!(1000, t.year);
    assert_eq!(999, t.millisecond);
    sample.year = 100_000;
    let (_, t) = pipe_logger_lib::accept_sample(sample, 0).unwrap();
    assert_eq!(2999, t.year);
}
