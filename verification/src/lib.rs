//! A read-only FAT32 volume driver: boot-sector geometry, FAT chain walking,
//! directory decoding, clamped file reads, and the handle and inode tables
//! that a filesystem front end needs.

pub mod adapter;
pub mod boot;
pub mod bytes;
pub mod directory;
pub mod driver;
pub mod error;
pub mod file;
pub mod inode;
pub mod io;
pub mod primitives;
pub mod time;

pub use boot::BPB;
pub use directory::{FatDateTime, FatDirectory, FatEntry, Files, LFN};
pub use driver::{fat_is_bad, fat_is_eoc, fat_is_free, fat_is_in_chain, fat_is_reserved, Driver};
pub use error::{BpbDefect, Fat32Error, Fat32Result, FileHandle};
pub use file::{DirectoryState, File, FileState};
pub use inode::{InodeResolver, ROOT_INODE};
pub use io::Drive;
pub use primitives::Fat;
