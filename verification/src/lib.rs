//! Reader for classic (uncompressed) TAR archives held whole in memory.
//!
//! The archive is a contiguous byte buffer made of 512-byte blocks: a header
//! block per member, the member's payload rounded up to whole blocks, and two
//! all-zero blocks as terminator.  [`TarArchiveRef`] borrows such a buffer and
//! hands out the regular-file entries; [`TarArchive`] owns the buffer on the
//! heap.  Header fields are fixed-width byte arrays holding NUL-terminated
//! text or octal/decimal ASCII numbers; the types in [`tar_format_types`]
//! decode them.

use vstd::prelude::*;

pub mod archive;
pub mod header;
pub mod tar_format_types;

pub use archive::ArchiveEntry;
pub use archive::ArchiveEntryIterator;
pub use archive::ArchiveHeaderIterator;
pub use archive::CorruptDataError;
pub use archive::TarArchive;
pub use archive::TarArchiveRef;
pub use header::InvalidTypeFlagError;
pub use header::Mode;
pub use header::ModeError;
pub use header::ModeFlags;
pub use header::PosixHeader;
pub use header::TypeFlag;
pub use header::TypeFlagRaw;
pub use tar_format_types::ParseNumberError;
pub use tar_format_types::TarFormatDecimal;
pub use tar_format_types::TarFormatNumber;
pub use tar_format_types::TarFormatOctal;
pub use tar_format_types::TarFormatString;

verus! {

/// Each archive element (header or data block) is a block of 512 bytes.
pub const BLOCKSIZE: usize = 512;

/// Maximum file name length of the base TAR format including the terminating NUL byte.
pub const NAME_LEN: usize = 100;

/// Maximum long file name length composed from the ustar prefix and the base name.
pub const POSIX_1003_MAX_FILENAME_LEN: usize = 256;

/// Maximum length of the name prefix in the POSIX ustar format.
pub const PREFIX_LEN: usize = 155;

/// Minimum number of blocks an archive must have to be considered sane:
/// one header block and two terminating zero blocks.
pub const MIN_BLOCK_COUNT: usize = 3;

} // verus!
