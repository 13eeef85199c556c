//! A file-read benchmark harness: strided byte scans over files read in
//! chunks or mapped whole, the benchmark's trial matrix, and the driver that
//! decides, trial by trial, when the page cache is purged and which
//! execution strategy runs.

pub mod checksum;
pub mod driver;
pub mod mapped;
pub mod plan;
pub mod scan;
pub mod touch;

pub use touch::touch_buffer;
