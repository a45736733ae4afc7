//! Compression of rotated files, and the decisions of the detached
//! compression task.
//!
//! A rotated file is compressed on an independent thread of execution
//! while the logger keeps writing, so the task may find the source file
//! gone at any point: retention eviction deletes rotated files without
//! coordinating with it. The decision table here resolves every outcome
//! the task can observe; the I/O layer only reads, writes and deletes as
//! told.

use vstd::prelude::*;

use std::io::Write;

use crate::config::Tee;

verus! {

/// What the codec emits for the given input bytes.
pub uninterp spec fn xz_of(data: Seq<u8>) -> Seq<u8>;

/// What decoding the given compressed bytes yields.
pub uninterp spec fn unxz_of(data: Seq<u8>) -> Seq<u8>;

/// Relies on xz2::write::XzEncoder at the maximum preset writing into an
/// in-memory buffer: the output depends on the input bytes alone, writes
/// into a Vec cannot fail, and the codec is lossless — xz2's decoders
/// recover exactly the bytes that were encoded (`unxz_of` names that
/// decoding).
#[verifier::external_body]
fn xz_compress(data: &[u8]) -> (r: Vec<u8>)
    ensures
        r@ == xz_of(data@),
        unxz_of(r@) == data@,
{
    let mut encoder = xz2::write::XzEncoder::new(Vec::new(), 9);
    encoder.write_all(data).expect("in-memory compression failed");
    encoder.finish().expect("in-memory compression failed")
}

/// Compresses a rotated file's bytes. The result is the codec's output
/// for exactly those bytes, and decoding it yields them again: the
/// compressed artifact, once written out, stands for the rotated file.
pub fn compress_rotated_content(data: &[u8]) -> (r: Vec<u8>)
    ensures
        r@ == xz_of(data@),
        unxz_of(r@) == data@,
{
    xz_compress(data)
}

/// What the detached compression task observed.
#[derive(Debug, Clone, Copy, PartialEq, Eq, Structural)]
pub enum CompressorEvent {
    /// The destination compressed file could not be created.
    DestCreateFailed,
    /// The source rotated file was already gone when opened.
    SourceOpenNotFound,
    /// The source rotated file could not be opened for another reason.
    SourceOpenFailed,
    /// A chunk of `given` source bytes was handed to the codec, which
    /// accepted `accepted` of them.
    WroteChunk { given: usize, accepted: usize },
    /// The source was read to its end.
    ReadEof,
    /// The source vanished between chunks.
    ReadNotFound,
    /// Reading the source failed for another reason.
    ReadFailed,
}

/// What the detached compression task must do next.
#[derive(Debug, Clone, Copy, PartialEq, Eq, Structural)]
pub enum CompressorAction {
    /// Keep reading the source.
    ContinueReading,
    /// Report the failure on the console and stop, deleting nothing.
    ReportAndStop,
    /// The source was evicted before compression finished: delete the
    /// partial destination and stop silently, this is not an error.
    DeleteDestAndStop,
    /// Compression is complete: the destination stands for the source, so
    /// delete the source and finish.
    DeleteSourceAndFinish,
}

/// The decision table of the detached compression task: a vanished source
/// is a benign race with retention eviction, a short codec write is an
/// out-of-space failure, and reaching the end of the source makes the
/// compressed artifact canonical.
pub open spec fn spec_compressor_step(ev: CompressorEvent) -> CompressorAction {
    match ev {
        CompressorEvent::DestCreateFailed => CompressorAction::ReportAndStop,
        CompressorEvent::SourceOpenNotFound => CompressorAction::DeleteDestAndStop,
        CompressorEvent::SourceOpenFailed => CompressorAction::ReportAndStop,
        CompressorEvent::WroteChunk { given, accepted } => if given == accepted {
            CompressorAction::ContinueReading
        } else {
            CompressorAction::ReportAndStop
        },
        CompressorEvent::ReadEof => CompressorAction::DeleteSourceAndFinish,
        CompressorEvent::ReadNotFound => CompressorAction::DeleteDestAndStop,
        CompressorEvent::ReadFailed => CompressorAction::ReportAndStop,
    }
}

/// Decides the compression task's next step for an observed event.
pub fn compressor_step(ev: &CompressorEvent) -> (r: CompressorAction)
    ensures
        r == spec_compressor_step(*ev),
{
    match ev {
        CompressorEvent::DestCreateFailed => CompressorAction::ReportAndStop,
        CompressorEvent::SourceOpenNotFound => CompressorAction::DeleteDestAndStop,
        CompressorEvent::SourceOpenFailed => CompressorAction::ReportAndStop,
        CompressorEvent::WroteChunk { given, accepted } => if *given == *accepted {
            CompressorAction::ContinueReading
        } else {
            CompressorAction::ReportAndStop
        },
        CompressorEvent::ReadEof => CompressorAction::DeleteSourceAndFinish,
        CompressorEvent::ReadNotFound => CompressorAction::DeleteDestAndStop,
        CompressorEvent::ReadFailed => CompressorAction::ReportAndStop,
    }
}

/// The console stream a detached task reports failures on: the configured
/// tee stream, or standard error when no tee is configured.
pub open spec fn spec_report_stream(tee: Option<Tee>) -> Tee {
    match tee {
        Some(t) => t,
        None => Tee::Stderr,
    }
}

/// Picks the console stream for a detached task's failure reports.
pub fn report_stream(tee: &Option<Tee>) -> (r: Tee)
    ensures
        r == spec_report_stream(*tee),
{
    match tee {
        Some(Tee::Stdout) => Tee::Stdout,
        Some(Tee::Stderr) => Tee::Stderr,
        None => Tee::Stderr,
    }
}

} // verus!
