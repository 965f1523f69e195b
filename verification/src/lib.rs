//! A read-only decoder for the on-disk layout of the Berkeley Fast File
//! System (FFS/UFS): superblock and cylinder-group geometry, inode decoding,
//! logical-block-to-fragment mapping through up to three levels of indirect
//! blocks, fragment-level file reads, directory-entry iteration, and path
//! resolution.
//!
//! Reference: Marshall K McKusick, William N Joy, Samuel J Leffler, and
//! Robert S Fabry. 1984. ``A Fast FileSystem for Unix''. ACM Transactions on
//! Computer Systems 2, 3 (Aug. 1984), 181-197.
use vstd::prelude::*;

pub mod bytes;
pub mod dir;
pub mod fs;
pub mod inode;
pub mod sblock;

pub use dir::Directory;
pub use dir::Entry;
pub use dir::Iter;
pub use fs::FileSystem;
pub use inode::Block;
pub use inode::DInode;
pub use inode::FileType;
pub use inode::Inode;
pub use inode::Mode;
pub use sblock::CylGroup;
pub use sblock::CylGroupSummary;
pub use sblock::Flags;
pub use sblock::State;
pub use sblock::SuperBlock;

verus! {

/// The size of a "Device Block", the size of a physical block on the
/// underlying storage device, in bytes.
pub const DEV_BLOCK_SIZE: usize = 512;

/// Lg(DEV_BLOCK_SIZE)
pub const DEV_BIT_SHIFT: usize = 9;

/// Offset of the boot block, relative to the start of the partition, in bytes.
pub const BOOT_BLOCK_OFFSET: usize = 0;

/// Size of the boot block, in bytes.
pub const BOOT_BLOCK_SIZE: usize = 8192;

/// The offset of the first superblock, in bytes.
pub const SUPER_BLOCK_OFFSET: usize = BOOT_BLOCK_SIZE + BOOT_BLOCK_OFFSET;

/// Size of the super block, in bytes.
pub const SUPER_BLOCK_SIZE: usize = 8192;

/// Number of bits per byte.
pub const NBBY: usize = 8;

/// Maximum number of bits in a file size: 8 * 4 + DEV_BIT_SHIFT.
pub const FILE_SIZE_BITS: usize = 41;

/// Maximum representable file offset.
pub const MAX_OFFSET: u64 = 1u64 << 39;

/// Maximum mount point length.
pub const MAX_MOUNT_LEN: usize = 512;

/// Maximum size of checksum buffers.
pub const MAX_CKSUM_BUFS: usize = 32;

/// Maximum logical block size, in bytes.
pub const MAX_BLOCK_SIZE: usize = 8192;

/// Maximum number of fragments per block.
pub const MAX_FRAG: usize = 8;

/// Magic number identifying a UFS file system.
pub const MAGIC: u32 = 0x011954;

/// The root inode number.
///
/// Inode numbers are origin 1; 0 is the "unused" indicator. The first
/// inode (1) is used to hold bad blocks, so the root is at 2.
pub const ROOT_INODE: u32 = 2;

} // verus!
