//! Reader for the classic (V7) tar archive format.
//!
//! The crate decodes the fixed 512-byte header block of an archive entry,
//! checks its checksum, and provides a sequential reader that walks the
//! entries of an archive while the caller drives the byte source.
pub mod constants;
pub mod error;
pub mod header;
pub mod reader;
pub mod utils;

pub use error::TarError;
pub use header::{LinkType, TarHeader};
pub use reader::TarReader;
