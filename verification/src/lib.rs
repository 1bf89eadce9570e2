//! A hot-reloading watcher for one sectioned text file.
//!
//! The watcher is polled. Each poll is handed what the file system reported about the watched
//! file; when the file's modification time has advanced, its lines are parsed anew into a mapping
//! from section name to record, and the mapping is replaced as a whole or not at all.
//!
//! - [`watcher`]: the watcher itself, `HotloadedFile`, with what a poll returns and leaves behind.
//! - [`format`]: the file format as a model over lines, and which mappings a file holds.
//! - [`parser`]: `LineParser`, through which the data lines of a section go into its record.
//! - [`decimal`]: `my_parse` and `DecimalParser`, for sections that hold one number.
//! - [`sections`]: the mapping as it is stored.
//! - [`timestamp`]: modification times and their order.
//! - [`scan`]: the line-by-line scan that loads a file, and why it gives what the file holds.
//! - [`laws`]: what holds of every file and of every run of polls.

pub mod decimal;
pub mod format;
pub mod laws;
pub mod parser;
pub mod scan;
pub mod sections;
pub mod timestamp;
pub mod watcher;

pub use decimal::{my_parse, DecimalParser};
pub use parser::{FnParser, LineParser};
pub use sections::SectionMap;
pub use timestamp::Timestamp;
pub use watcher::{FileProbe, FileRead, HotloadError, HotloadedFile, Loaded};
