use vstd::prelude::*;

verus! {

/// An opaque token issued when a file or directory is opened.
pub type FileHandle = u64;

/// The first rule that a boot sector breaks.
#[derive(Clone, Copy, Debug, PartialEq, Eq, Structural)]
pub enum BpbDefect {
    /// The jump instruction is neither `EB xx 90` nor `E9 xx xx`.
    JumpInstruction,
    /// Bytes per sector is not 512, 1024, 2048 or 4096.
    BytesPerSector,
    /// Sectors per cluster is not a power of two between 1 and 128.
    SectorsPerCluster,
    /// A cluster would hold more than 32 KiB.
    ClusterTooLarge,
    /// The media byte is neither `F0` nor in `F8..=FF`.
    Media,
    /// The 16-bit root entry count is not zero.
    RootEntryCount,
    /// The 16-bit total sector count is not zero.
    TotalSectors16,
    /// The 16-bit FAT size is not zero.
    FatSize16,
    /// The 32-bit total sector count is zero.
    TotalSectors32,
    /// The file system version is not 0.0.
    Version,
    /// One of the twelve reserved bytes is not zero.
    Reserved,
    /// The file system type is not `"FAT32   "`.
    FileSystemType,
    /// The boot signature word is not `AA55`.
    Signature,
    /// The root directory starts below cluster 2.
    RootCluster,
    /// The volume ends at or before the first data sector.
    NoDataRegion,
}

/// Everything that can go wrong while reading a volume.
#[derive(Clone, Copy, Debug, PartialEq, Eq, Structural)]
pub enum Fat32Error {
    /// The device could not deliver the bytes asked for.
    IOError,
    /// The boot sector does not describe a FAT32 volume.
    InvalidBPB(BpbDefect),
    /// A chain ran into the bad-cluster marker.
    BadCluster(u32),
    /// A chain ended too early, or ran into a free or reserved entry.
    FileCorrupt,
    /// No entry of that name.
    NotFound,
    /// A file was expected and a directory found.
    IsDir,
    /// A directory was expected and a file found.
    NotADir,
    /// The handle is not open.
    InvalidFileHandle(FileHandle),
}

pub type Fat32Result<T> = Result<T, Fat32Error>;

impl BpbDefect {
    /// A sentence for a log or an error report.
    pub fn reason(&self) -> (r: &'static str)
        ensures
            r@ == self.reason_spec()@,
    {
        match self {
            BpbDefect::JumpInstruction => "Invalid BS_jmpBoot",
            BpbDefect::BytesPerSector => "BPB_BytsPerSec can only be 512, 1024, 2048 or 4096",
            BpbDefect::SectorsPerCluster => "BPB_SecPerClus can only be 1, 2, 4, 8, 16, 32, 64, and 128",
            BpbDefect::ClusterTooLarge => "No. of bytes per cluster should not exceed 32 * 1024",
            BpbDefect::Media => "Invalid BPB_Media value",
            BpbDefect::RootEntryCount => "BPB_RootEntCnt must be 0 for Fat32",
            BpbDefect::TotalSectors16 => "BPB_TotSec16 must be 0 for Fat32",
            BpbDefect::FatSize16 => "BPB_FATSz16 must be 0 for Fat32",
            BpbDefect::TotalSectors32 => "BPB_TotSec32 must be non zero for Fat32",
            BpbDefect::Version => "BPB_FSVer higher than 0:0",
            BpbDefect::Reserved => "BPB_Reserved should be 0",
            BpbDefect::FileSystemType => "BS_FilSysType must be \"FAT32   \"",
            BpbDefect::Signature => "BS_Sign must be 0xAA55",
            BpbDefect::RootCluster => "BPB_RootClus must be at least 2",
            BpbDefect::NoDataRegion => "BPB_TotSec32 must reach past the FAT region",
        }
    }

    pub open spec fn reason_spec(&self) -> &'static str {
        match self {
            BpbDefect::JumpInstruction => "Invalid BS_jmpBoot",
            BpbDefect::BytesPerSector => "BPB_BytsPerSec can only be 512, 1024, 2048 or 4096",
            BpbDefect::SectorsPerCluster => "BPB_SecPerClus can only be 1, 2, 4, 8, 16, 32, 64, and 128",
            BpbDefect::ClusterTooLarge => "No. of bytes per cluster should not exceed 32 * 1024",
            BpbDefect::Media => "Invalid BPB_Media value",
            BpbDefect::RootEntryCount => "BPB_RootEntCnt must be 0 for Fat32",
            BpbDefect::TotalSectors16 => "BPB_TotSec16 must be 0 for Fat32",
            BpbDefect::FatSize16 => "BPB_FATSz16 must be 0 for Fat32",
            BpbDefect::TotalSectors32 => "BPB_TotSec32 must be non zero for Fat32",
            BpbDefect::Version => "BPB_FSVer higher than 0:0",
            BpbDefect::Reserved => "BPB_Reserved should be 0",
            BpbDefect::FileSystemType => "BS_FilSysType must be \"FAT32   \"",
            BpbDefect::Signature => "BS_Sign must be 0xAA55",
            BpbDefect::RootCluster => "BPB_RootClus must be at least 2",
            BpbDefect::NoDataRegion => "BPB_TotSec32 must reach past the FAT region",
        }
    }
}

} // verus!
