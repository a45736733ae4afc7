//! Configuration of a logger: rotation policy, retention count,
//! compression, console tee, and the errors a bad configuration raises.

use vstd::prelude::*;

use crate::rotate_method::RotateMethod;

verus! {

/// Mirror written text to a console stream besides the log file.
#[derive(Debug, Clone, PartialEq, Eq, Structural)]
pub enum Tee {
    /// To stdout.
    Stdout,
    /// To stderr.
    Stderr,
}

/// Declares `std::io::Error` so an error raised by the I/O layer can be
/// carried through, opaquely, in `PipeLoggerBuilderError`.
#[verifier::external_type_specification]
#[verifier::external_body]
pub struct ExIoError(std::io::Error);

/// Declares `std::path::PathBuf` so the offending path can be carried
/// through, opaquely, in `PipeLoggerBuilderError`.
#[verifier::external_type_specification]
#[verifier::external_body]
pub struct ExPathBuf(std::path::PathBuf);

/// Why a logger could not be built.
#[derive(Debug)]
pub enum PipeLoggerBuilderError {
    /// A rotation threshold must be at least 2 bytes.
    RotateFileSizeTooSmall,
    /// A retention count must be at least 1.
    CountTooSmall,
    /// An I/O failure while locating or opening the log file.
    IOError(std::io::Error),
    /// The log file is a directory; wraps its absolutized path.
    FileIsDirectory(std::path::PathBuf),
}

impl From<std::io::Error> for PipeLoggerBuilderError {
    fn from(err: std::io::Error) -> (r: Self) {
        PipeLoggerBuilderError::IOError(err)
    }
}

impl vstd::std_specs::convert::FromSpecImpl<std::io::Error> for PipeLoggerBuilderError {
    open spec fn obeys_from_spec() -> bool {
        true
    }

    open spec fn from_spec(err: std::io::Error) -> Self {
        PipeLoggerBuilderError::IOError(err)
    }
}

impl From<std::path::PathBuf> for PipeLoggerBuilderError {
    fn from(err: std::path::PathBuf) -> (r: Self) {
        PipeLoggerBuilderError::FileIsDirectory(err)
    }
}

impl vstd::std_specs::convert::FromSpecImpl<std::path::PathBuf> for PipeLoggerBuilderError {
    open spec fn obeys_from_spec() -> bool {
        true
    }

    open spec fn from_spec(err: std::path::PathBuf) -> Self {
        PipeLoggerBuilderError::FileIsDirectory(err)
    }
}

/// To build a PipeLogger instance.
#[derive(Debug)]
pub struct PipeLoggerBuilder {
    pub rotate: Option<RotateMethod>,
    pub count: Option<usize>,
    pub log_path: String,
    pub compress: bool,
    pub tee: Option<Tee>,
}

/// A configuration the builder accepts: a configured threshold is at least
/// 2 bytes, and, when rotation is configured at all, a configured
/// retention count is at least 1.
pub open spec fn spec_config_ok(b: PipeLoggerBuilder) -> bool {
    &&& (b.rotate matches Some(RotateMethod::FileSize(t)) ==> t >= 2)
    &&& (b.rotate is Some && b.count is Some ==> b.count->0 >= 1)
}

impl PipeLoggerBuilder {
    /// Create a new PipeLoggerBuilder.
    pub fn new(log_path: String) -> (r: PipeLoggerBuilder)
        ensures
            r.rotate is None,
            r.count is None,
            r.log_path@ == log_path@,
            !r.compress,
            r.tee is None,
    {
        PipeLoggerBuilder { rotate: None, count: None, log_path, compress: false, tee: None }
    }

    pub fn rotate(&self) -> (r: &Option<RotateMethod>)
        ensures
            *r == self.rotate,
    {
        &self.rotate
    }

    pub fn count(&self) -> (r: &Option<usize>)
        ensures
            *r == self.count,
    {
        &self.count
    }

    pub fn log_path(&self) -> (r: &String)
        ensures
            *r == self.log_path,
    {
        &self.log_path
    }

    /// Whether to compress the rotated log files.
    pub fn compress(&self) -> (r: bool)
        ensures
            r == self.compress,
    {
        self.compress
    }

    pub fn tee(&self) -> (r: &Option<Tee>)
        ensures
            *r == self.tee,
    {
        &self.tee
    }

    pub fn set_rotate(&mut self, rotate: Option<RotateMethod>)
        ensures
            *final(self) == (PipeLoggerBuilder { rotate, ..*old(self) }),
    {
        self.rotate = rotate;
    }

    pub fn set_count(&mut self, count: Option<usize>)
        ensures
            *final(self) == (PipeLoggerBuilder { count, ..*old(self) }),
    {
        self.count = count;
    }

    /// Whether to compress the rotated log files.
    pub fn set_compress(&mut self, compress: bool)
        ensures
            *final(self) == (PipeLoggerBuilder { compress, ..*old(self) }),
    {
        self.compress = compress;
    }

    pub fn set_tee(&mut self, tee: Option<Tee>)
        ensures
            *final(self) == (PipeLoggerBuilder { tee, ..*old(self) }),
    {
        self.tee = tee;
    }

    /// Validates the configured thresholds: a too-small rotation size is
    /// reported before a too-small retention count, and the count is only
    /// checked when rotation is configured at all.
    pub fn check_config(&self) -> (r: Result<(), PipeLoggerBuilderError>)
        ensures
            r is Ok <==> spec_config_ok(*self),
            r matches Err(e) ==> match e {
                PipeLoggerBuilderError::RotateFileSizeTooSmall => (self.rotate matches Some(
                    RotateMethod::FileSize(t),
                ) && t < 2),
                PipeLoggerBuilderError::CountTooSmall => (self.rotate matches Some(
                    RotateMethod::FileSize(t),
                ) && t >= 2) && (self.count matches Some(c) && c < 1),
                _ => false,
            },
    {
        if let Some(rotate) = &self.rotate {
            match rotate {
                RotateMethod::FileSize(file_size) => {
                    if *file_size < 2 {
                        return Err(PipeLoggerBuilderError::RotateFileSizeTooSmall);
                    }
                },
            }
            if let Some(count) = &self.count {
                if *count < 1 {
                    return Err(PipeLoggerBuilderError::CountTooSmall);
                }
            }
        }
        Ok(())
    }
}

} // verus!
