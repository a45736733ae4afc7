//! A log-rotation core: it accounts for bytes appended to an active log
//! file, decides when the file must rotate, derives collision-free
//! timestamped names for rotated files, keeps a bounded retention list,
//! and plans the work (copies, deletions, compression) that an I/O layer
//! carries out on disk.

pub mod clock;
pub mod compress;
pub mod config;
pub mod logger;
pub mod name;
pub mod recover;
mod rotate_method;

pub use clock::{ClockSample, accept_sample, acquire_timestamp};
pub use compress::{
    CompressorAction, CompressorEvent, compress_rotated_content, compressor_step, report_stream,
};
pub use config::{PipeLoggerBuilder, PipeLoggerBuilderError, Tee};
pub use logger::{PipeLogger, RotationPlan, WriteStatus, is_empty_write, terminator_due};
pub use name::{Timestamp, format_rotated_name};
pub use rotate_method::RotateMethod;
