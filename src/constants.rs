//! Layout of a tar header block.
//!
//! Numbers are stored as NUL-terminated octal text unless stated otherwise.
use vstd::prelude::*;

verus! {

/// Size of a single tar block.
pub const BLOCK_SIZE: usize = 512;

/// Bytes of a single block of a tar file.
pub type TarBlock = [u8; BLOCK_SIZE];

/// Start of the file name.
pub const NAME_START: usize = 0;

/// End (exclusive) of the file name.
pub const NAME_END: usize = 100;

/// Start of the file mode.
pub const MODE_START: usize = 100;

/// End (exclusive) of the file mode.
pub const MODE_END: usize = 108;

/// Start of the owner's user id.
pub const OWNER_START: usize = 108;

/// End (exclusive) of the owner's user id.
pub const OWNER_END: usize = 116;

/// Start of the group id.
pub const GROUP_START: usize = 116;

/// End (exclusive) of the group id.
pub const GROUP_END: usize = 124;

/// Start of the payload size.
///
/// Some writers store large sizes base-256 encoded here; that form is
/// not read by this crate and fails to parse.
pub const SIZE_START: usize = 124;

/// End (exclusive) of the payload size.
pub const SIZE_END: usize = 136;

/// Start of the modification time, in seconds since the Unix epoch.
pub const MTIME_START: usize = 136;

/// End (exclusive) of the modification time.
pub const MTIME_END: usize = 148;

/// Start of the header checksum.
pub const CHECKSUM_START: usize = 148;

/// End (exclusive) of the header checksum.
pub const CHECKSUM_END: usize = 156;

/// Offset of the link type byte; see `LinkType`.
pub const LINK_TYPE_OFFSET: usize = 156;

/// Start of the link target of a hard or symbolic link (empty otherwise).
pub const LINK_NAME_START: usize = 157;

/// End (exclusive) of the link target.
pub const LINK_NAME_END: usize = 257;

} // verus!
