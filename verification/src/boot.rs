use crate::bytes::{
    copy_range, le16, le16_bytes, le32, le32_bytes, lemma_le_round_trip, push_bytes, push_le16,
    push_le32, read_le16, read_le32,
};
use crate::error::{BpbDefect, Fat32Error, Fat32Result};
use crate::io::Drive;
use vstd::prelude::*;

verus! {

/// The size of the boot sector image that holds the parameter block.
pub const BOOT_SECTOR_SIZE: usize = 512;

/// The BIOS Parameter Block of a FAT32 volume, field by field as it lies in
/// the first 512 bytes of the device.
#[derive(Debug)]
pub struct BPB {
    /// BS_jmpBoot
    pub bs_jmp_boot: [u8; 3],
    /// BS_OEMName
    pub bs_oem_name: [u8; 8],
    /// BPB_BytsPerSec
    pub bpb_bytes_per_sec: u16,
    /// BPB_SecPerClus
    pub bpb_sec_per_clus: u8,
    /// BPB_RsvdSecCnt
    pub bpb_rsvd_sec_cnt: u16,
    /// BPB_NumFATs
    pub bpb_num_fats: u8,
    /// BPB_RootEntCnt
    pub bpb_root_ent_cnt: u16,
    /// BPB_TotSec16
    pub bpb_tot_sec16: u16,
    /// BPB_Media
    pub bpb_media: u8,
    /// BPB_FATSz16
    pub bpb_fat_sz16: u16,
    /// BPB_SecPerTrk
    pub bpb_sec_per_trk: u16,
    /// BPB_NumHeads
    pub bpb_num_heads: u16,
    /// BPB_HiddSec
    pub bpb_hidd_sec: u32,
    /// BPB_TotSec32
    pub bpb_tot_sec32: u32,
    /// BPB_FATSz32
    pub bpb_fat_sz32: u32,
    /// BPB_ExtFlags
    pub bpb_ext_flags: u16,
    /// BPB_FSVer
    pub bpb_fs_ver: u16,
    /// BPB_RootClus
    pub bpb_root_clus: u32,
    /// BPB_FSInfo
    pub bpb_fs_info: u16,
    /// BPB_BkBootSec
    pub bpb_bk_boot_sec: u16,
    /// BPB_Reserved
    pub bpb_reserved: [u8; 12],
    /// BS_DrvNum
    pub bs_drv_num: u8,
    /// BS_Reserved1
    pub bs_reserved1: u8,
    /// BS_BootSig
    pub bs_boot_sig: u8,
    /// BS_VolID
    pub bs_vol_id: u32,
    /// BS_VolLab
    pub bs_vol_lab: [u8; 11],
    /// BS_FilSysType
    pub bs_fil_sys_type: [u8; 8],
    /// The 420 bytes of boot code.
    pub bs_boot_code32: Vec<u8>,
    /// The boot signature word.
    pub bs_sign: u16,
}

impl Clone for BPB {
    fn clone(&self) -> (r: Self)
        ensures
            r.same_fields(self),
    {
        let boot_code = copy_range(&self.bs_boot_code32, 0, self.bs_boot_code32.len());
        assert(boot_code@ =~= self.bs_boot_code32@);
        BPB {
            bs_jmp_boot: self.bs_jmp_boot,
            bs_oem_name: self.bs_oem_name,
            bpb_bytes_per_sec: self.bpb_bytes_per_sec,
            bpb_sec_per_clus: self.bpb_sec_per_clus,
            bpb_rsvd_sec_cnt: self.bpb_rsvd_sec_cnt,
            bpb_num_fats: self.bpb_num_fats,
            bpb_root_ent_cnt: self.bpb_root_ent_cnt,
            bpb_tot_sec16: self.bpb_tot_sec16,
            bpb_media: self.bpb_media,
            bpb_fat_sz16: self.bpb_fat_sz16,
            bpb_sec_per_trk: self.bpb_sec_per_trk,
            bpb_num_heads: self.bpb_num_heads,
            bpb_hidd_sec: self.bpb_hidd_sec,
            bpb_tot_sec32: self.bpb_tot_sec32,
            bpb_fat_sz32: self.bpb_fat_sz32,
            bpb_ext_flags: self.bpb_ext_flags,
            bpb_fs_ver: self.bpb_fs_ver,
            bpb_root_clus: self.bpb_root_clus,
            bpb_fs_info: self.bpb_fs_info,
            bpb_bk_boot_sec: self.bpb_bk_boot_sec,
            bpb_reserved: self.bpb_reserved,
            bs_drv_num: self.bs_drv_num,
            bs_reserved1: self.bs_reserved1,
            bs_boot_sig: self.bs_boot_sig,
            bs_vol_id: self.bs_vol_id,
            bs_vol_lab: self.bs_vol_lab,
            bs_fil_sys_type: self.bs_fil_sys_type,
            bs_boot_code32: boot_code,
            bs_sign: self.bs_sign,
        }
    }
}

/// `"FAT32   "`, the only file system type accepted.
pub open spec fn fat32_type_name() -> Seq<u8> {
    seq![0x46u8, 0x41u8, 0x54u8, 0x33u8, 0x32u8, 0x20u8, 0x20u8, 0x20u8]
}

/// Whether `n` is one of 1, 2, 4, ..., 128.
pub open spec fn is_cluster_factor(n: u8) -> bool {
    n == 1 || n == 2 || n == 4 || n == 8 || n == 16 || n == 32 || n == 64 || n == 128
}

/// A product of bounded factors is bounded by the product of the bounds.
pub proof fn lemma_mul_bound(a: int, b: int, a_max: int, b_max: int)
    requires
        0 <= a <= a_max,
        0 <= b <= b_max,
    ensures
        0 <= a * b <= a_max * b_max,
{
    assert(0 <= a * b <= a_max * b_max) by (nonlinear_arith)
        requires
            0 <= a <= a_max,
            0 <= b <= b_max,
    ;
}

impl BPB {
    /// The boot code has its fixed length.
    pub open spec fn well_formed(&self) -> bool {
        self.bs_boot_code32@.len() == 420
    }

    /// The block is the decoding of the 512-byte sector `s`: every field
    /// holds what lies at its place in the on-disk layout.
    pub open spec fn decodes(&self, s: Seq<u8>) -> bool {
        &&& s.len() == 512
        &&& self.bs_jmp_boot@ == s.subrange(0, 3)
        &&& self.bs_oem_name@ == s.subrange(3, 11)
        &&& self.bpb_bytes_per_sec == le16(s, 11)
        &&& self.bpb_sec_per_clus == s[13]
        &&& self.bpb_rsvd_sec_cnt == le16(s, 14)
        &&& self.bpb_num_fats == s[16]
        &&& self.bpb_root_ent_cnt == le16(s, 17)
        &&& self.bpb_tot_sec16 == le16(s, 19)
        &&& self.bpb_media == s[21]
        &&& self.bpb_fat_sz16 == le16(s, 22)
        &&& self.bpb_sec_per_trk == le16(s, 24)
        &&& self.bpb_num_heads == le16(s, 26)
        &&& self.bpb_hidd_sec == le32(s, 28)
        &&& self.bpb_tot_sec32 == le32(s, 32)
        &&& self.bpb_fat_sz32 == le32(s, 36)
        &&& self.bpb_ext_flags == le16(s, 40)
        &&& self.bpb_fs_ver == le16(s, 42)
        &&& self.bpb_root_clus == le32(s, 44)
        &&& self.bpb_fs_info == le16(s, 48)
        &&& self.bpb_bk_boot_sec == le16(s, 50)
        &&& self.bpb_reserved@ == s.subrange(52, 64)
        &&& self.bs_drv_num == s[64]
        &&& self.bs_reserved1 == s[65]
        &&& self.bs_boot_sig == s[66]
        &&& self.bs_vol_id == le32(s, 67)
        &&& self.bs_vol_lab@ == s.subrange(71, 82)
        &&& self.bs_fil_sys_type@ == s.subrange(82, 90)
        &&& self.bs_boot_code32@ == s.subrange(90, 510)
        &&& self.bs_sign == le16(s, 510)
    }

    /// Two blocks agree in every field.
    pub open spec fn same_fields(&self, other: &BPB) -> bool {
        &&& self.bs_jmp_boot@ == other.bs_jmp_boot@
        &&& self.bs_oem_name@ == other.bs_oem_name@
        &&& self.bpb_bytes_per_sec == other.bpb_bytes_per_sec
        &&& self.bpb_sec_per_clus == other.bpb_sec_per_clus
        &&& self.bpb_rsvd_sec_cnt == other.bpb_rsvd_sec_cnt
        &&& self.bpb_num_fats == other.bpb_num_fats
        &&& self.bpb_root_ent_cnt == other.bpb_root_ent_cnt
        &&& self.bpb_tot_sec16 == other.bpb_tot_sec16
        &&& self.bpb_media == other.bpb_media
        &&& self.bpb_fat_sz16 == other.bpb_fat_sz16
        &&& self.bpb_sec_per_trk == other.bpb_sec_per_trk
        &&& self.bpb_num_heads == other.bpb_num_heads
        &&& self.bpb_hidd_sec == other.bpb_hidd_sec
        &&& self.bpb_tot_sec32 == other.bpb_tot_sec32
        &&& self.bpb_fat_sz32 == other.bpb_fat_sz32
        &&& self.bpb_ext_flags == other.bpb_ext_flags
        &&& self.bpb_fs_ver == other.bpb_fs_ver
        &&& self.bpb_root_clus == other.bpb_root_clus
        &&& self.bpb_fs_info == other.bpb_fs_info
        &&& self.bpb_bk_boot_sec == other.bpb_bk_boot_sec
        &&& self.bpb_reserved@ == other.bpb_reserved@
        &&& self.bs_drv_num == other.bs_drv_num
        &&& self.bs_reserved1 == other.bs_reserved1
        &&& self.bs_boot_sig == other.bs_boot_sig
        &&& self.bs_vol_id == other.bs_vol_id
        &&& self.bs_vol_lab@ == other.bs_vol_lab@
        &&& self.bs_fil_sys_type@ == other.bs_fil_sys_type@
        &&& self.bs_boot_code32@ == other.bs_boot_code32@
        &&& self.bs_sign == other.bs_sign
    }

    /// The first 90 bytes of the sector: everything before the boot code.
    pub open spec fn header_encoding(&self) -> Seq<u8> {
        self.bs_jmp_boot@ + self.bs_oem_name@ + le16_bytes(self.bpb_bytes_per_sec)
            + seq![self.bpb_sec_per_clus] + le16_bytes(self.bpb_rsvd_sec_cnt)
            + seq![self.bpb_num_fats] + le16_bytes(self.bpb_root_ent_cnt) + le16_bytes(
            self.bpb_tot_sec16,
        ) + seq![self.bpb_media] + le16_bytes(self.bpb_fat_sz16) + le16_bytes(
            self.bpb_sec_per_trk,
        ) + le16_bytes(self.bpb_num_heads) + le32_bytes(self.bpb_hidd_sec) + le32_bytes(
            self.bpb_tot_sec32,
        ) + le32_bytes(self.bpb_fat_sz32) + le16_bytes(self.bpb_ext_flags) + le16_bytes(
            self.bpb_fs_ver,
        ) + le32_bytes(self.bpb_root_clus) + le16_bytes(self.bpb_fs_info) + le16_bytes(
            self.bpb_bk_boot_sec,
        ) + self.bpb_reserved@ + seq![self.bs_drv_num] + seq![self.bs_reserved1]
            + seq![self.bs_boot_sig] + le32_bytes(self.bs_vol_id) + self.bs_vol_lab@
            + self.bs_fil_sys_type@
    }

    /// The sector image of the block: its fields in layout order, integers
    /// little-endian.
    pub open spec fn encoding(&self) -> Seq<u8> {
        self.header_encoding() + self.bs_boot_code32@ + le16_bytes(self.bs_sign)
    }

    /// The first rule of the format that the block breaks, if any. The rules
    /// are taken in a fixed order, so that one block has one verdict.
    pub open spec fn defect(&self) -> Option<BpbDefect> {
        if !((self.bs_jmp_boot@[0] == 0xEB && self.bs_jmp_boot@[2] == 0x90)
            || self.bs_jmp_boot@[0] == 0xE9) {
            Some(BpbDefect::JumpInstruction)
        } else if !(self.bpb_bytes_per_sec == 512 || self.bpb_bytes_per_sec == 1024
            || self.bpb_bytes_per_sec == 2048 || self.bpb_bytes_per_sec == 4096) {
            Some(BpbDefect::BytesPerSector)
        } else if !is_cluster_factor(self.bpb_sec_per_clus) {
            Some(BpbDefect::SectorsPerCluster)
        } else if self.bpb_bytes_per_sec * self.bpb_sec_per_clus > 32768 {
            Some(BpbDefect::ClusterTooLarge)
        } else if !(self.bpb_media == 0xF0 || self.bpb_media >= 0xF8) {
            Some(BpbDefect::Media)
        } else if self.bpb_root_ent_cnt != 0 {
            Some(BpbDefect::RootEntryCount)
        } else if self.bpb_tot_sec16 != 0 {
            Some(BpbDefect::TotalSectors16)
        } else if self.bpb_fat_sz16 != 0 {
            Some(BpbDefect::FatSize16)
        } else if self.bpb_tot_sec32 == 0 {
            Some(BpbDefect::TotalSectors32)
        } else if self.bpb_fs_ver != 0 {
            Some(BpbDefect::Version)
        } else if exists|i: int| 0 <= i < 12 && #[trigger] self.bpb_reserved@[i] != 0 {
            Some(BpbDefect::Reserved)
        } else if self.bs_fil_sys_type@ != fat32_type_name() {
            Some(BpbDefect::FileSystemType)
        } else if self.bs_sign != 0xAA55 {
            Some(BpbDefect::Signature)
        } else if self.bpb_root_clus < 2 {
            Some(BpbDefect::RootCluster)
        } else if self.bpb_tot_sec32 <= self.bpb_rsvd_sec_cnt + self.bpb_fat_sz32
            * self.bpb_num_fats {
            Some(BpbDefect::NoDataRegion)
        } else {
            None
        }
    }

    /// The block describes a FAT32 volume: it breaks no rule.
    pub open spec fn valid(&self) -> bool {
        self.well_formed() && self.defect() is None
    }

    /// Checks the block against the rules of the format, in order, and
    /// reports the first one broken.
    #[verifier::loop_isolation(false)]
    pub fn validate(&self) -> (r: Fat32Result<()>)
        ensures
            r == match self.defect() {
                None => Ok::<(), Fat32Error>(()),
                Some(d) => Err::<(), Fat32Error>(Fat32Error::InvalidBPB(d)),
            },
    {
        if !((self.bs_jmp_boot[0] == 0xEB && self.bs_jmp_boot[2] == 0x90) || self.bs_jmp_boot[0]
            == 0xE9) {
            return Err(Fat32Error::InvalidBPB(BpbDefect::JumpInstruction));
        }
        let bps: u16 = self.bpb_bytes_per_sec;
        if !(bps == 512 || bps == 1024 || bps == 2048 || bps == 4096) {
            return Err(Fat32Error::InvalidBPB(BpbDefect::BytesPerSector));
        }
        let spc: u8 = self.bpb_sec_per_clus;
        if !(spc == 1 || spc == 2 || spc == 4 || spc == 8 || spc == 16 || spc == 32 || spc == 64
            || spc == 128) {
            return Err(Fat32Error::InvalidBPB(BpbDefect::SectorsPerCluster));
        }
        let bytes_per_cluster: u32 = bps as u32 * spc as u32;
        if bytes_per_cluster > 32 * 1024 {
            return Err(Fat32Error::InvalidBPB(BpbDefect::ClusterTooLarge));
        }
        if !(self.bpb_media == 0xF0 || self.bpb_media >= 0xF8) {
            return Err(Fat32Error::InvalidBPB(BpbDefect::Media));
        }
        if self.bpb_root_ent_cnt != 0 {
            return Err(Fat32Error::InvalidBPB(BpbDefect::RootEntryCount));
        }
        if self.bpb_tot_sec16 != 0 {
            return Err(Fat32Error::InvalidBPB(BpbDefect::TotalSectors16));
        }
        if self.bpb_fat_sz16 != 0 {
            return Err(Fat32Error::InvalidBPB(BpbDefect::FatSize16));
        }
        if self.bpb_tot_sec32 == 0 {
            return Err(Fat32Error::InvalidBPB(BpbDefect::TotalSectors32));
        }
        if self.bpb_fs_ver != 0 {
            return Err(Fat32Error::InvalidBPB(BpbDefect::Version));
        }
        let mut i: usize = 0;
        while i < 12
            invariant
                i <= 12,
                forall|j: int| 0 <= j < i ==> self.bpb_reserved@[j] == 0,
            decreases 12 - i,
        {
            if self.bpb_reserved[i] != 0 {
                return Err(Fat32Error::InvalidBPB(BpbDefect::Reserved));
            }
            i += 1;
        }
        let t = &self.bs_fil_sys_type;
        if !(t[0] == 0x46 && t[1] == 0x41 && t[2] == 0x54 && t[3] == 0x33 && t[4] == 0x32 && t[5]
            == 0x20 && t[6] == 0x20 && t[7] == 0x20) {
            assert(self.bs_fil_sys_type@ != fat32_type_name()) by {
                if self.bs_fil_sys_type@ == fat32_type_name() {
                    assert(fat32_type_name()[0] == 0x46 && fat32_type_name()[1] == 0x41
                        && fat32_type_name()[2] == 0x54 && fat32_type_name()[3] == 0x33
                        && fat32_type_name()[4] == 0x32 && fat32_type_name()[5] == 0x20
                        && fat32_type_name()[6] == 0x20 && fat32_type_name()[7] == 0x20);
                }
            }
            return Err(Fat32Error::InvalidBPB(BpbDefect::FileSystemType));
        }
        assert(self.bs_fil_sys_type@ =~= fat32_type_name());
        if self.bs_sign != 0xAA55 {
            return Err(Fat32Error::InvalidBPB(BpbDefect::Signature));
        }
        if self.bpb_root_clus < 2 {
            return Err(Fat32Error::InvalidBPB(BpbDefect::RootCluster));
        }
        proof {
            lemma_mul_bound(self.bpb_fat_sz32 as int, self.bpb_num_fats as int, 0xFFFF_FFFF, 255);
        }
        let fat_end: u64 = self.bpb_rsvd_sec_cnt as u64 + self.bpb_fat_sz32 as u64
            * self.bpb_num_fats as u64;
        if self.bpb_tot_sec32 as u64 <= fat_end {
            return Err(Fat32Error::InvalidBPB(BpbDefect::NoDataRegion));
        }
        Ok(())
    }

    /// The first sector of the FAT region.
    pub open spec fn fat_start_sector_spec(&self) -> int {
        self.bpb_rsvd_sec_cnt as int
    }

    /// The sectors that all copies of the FAT take together.
    pub open spec fn fat_sectors_spec(&self) -> int {
        self.bpb_fat_sz32 * self.bpb_num_fats
    }

    /// The sectors of the fixed root directory region, which FAT32 leaves
    /// empty.
    pub open spec fn root_dir_sectors_spec(&self) -> int {
        (32 * self.bpb_root_ent_cnt + self.bpb_bytes_per_sec - 1) / (self.bpb_bytes_per_sec as int)
    }

    /// The first sector of the data region, where cluster 2 starts.
    pub open spec fn data_start_sector_spec(&self) -> int {
        self.fat_start_sector_spec() + self.fat_sectors_spec() + self.root_dir_sectors_spec()
    }

    /// The bytes in one cluster.
    pub open spec fn bytes_per_cluster_spec(&self) -> int {
        self.bpb_bytes_per_sec * self.bpb_sec_per_clus
    }

    /// The first sector of cluster `n`.
    pub open spec fn cluster_start_sector_spec(&self, n: int) -> int {
        self.data_start_sector_spec() + (n - 2) * self.bpb_sec_per_clus
    }

    /// The number of whole clusters in the data region.
    pub open spec fn total_data_clusters_spec(&self) -> int {
        (self.bpb_tot_sec32 - self.data_start_sector_spec()) / (self.bpb_sec_per_clus as int)
    }

    /// What every valid block has: a sector size and a cluster factor from
    /// the allowed sets, no fixed root region, and a data region that starts
    /// before the volume ends.
    pub proof fn lemma_valid_geometry(&self)
        requires
            self.valid(),
        ensures
            self.bpb_bytes_per_sec == 512 || self.bpb_bytes_per_sec == 1024
                || self.bpb_bytes_per_sec == 2048 || self.bpb_bytes_per_sec == 4096,
            is_cluster_factor(self.bpb_sec_per_clus),
            32 <= self.bytes_per_cluster_spec() <= 32768,
            self.bytes_per_cluster_spec() % 32 == 0,
            self.root_dir_sectors_spec() == 0,
            self.data_start_sector_spec() == self.bpb_rsvd_sec_cnt + self.bpb_fat_sz32
                * self.bpb_num_fats,
            0 <= self.data_start_sector_spec() < self.bpb_tot_sec32,
            self.bpb_root_clus >= 2,
            0 <= self.total_data_clusters_spec() <= 0xFFFF_FFFF,
    {
        lemma_mul_bound(self.bpb_fat_sz32 as int, self.bpb_num_fats as int, 0xFFFF_FFFF, 255);
    }

    pub fn fat_start_sector(&self) -> (r: u64)
        ensures
            r == self.fat_start_sector_spec(),
    {
        self.bpb_rsvd_sec_cnt as u64
    }

    pub fn fat_sectors(&self) -> (r: u64)
        ensures
            r == self.fat_sectors_spec(),
    {
        proof {
            lemma_mul_bound(self.bpb_fat_sz32 as int, self.bpb_num_fats as int, 0xFFFF_FFFF, 255);
        }
        self.bpb_fat_sz32 as u64 * self.bpb_num_fats as u64
    }

    pub fn root_dir_start_sector(&self) -> (r: u64)
        ensures
            r == self.fat_start_sector_spec() + self.fat_sectors_spec(),
    {
        proof {
            lemma_mul_bound(self.bpb_fat_sz32 as int, self.bpb_num_fats as int, 0xFFFF_FFFF, 255);
        }
        self.fat_start_sector() + self.fat_sectors()
    }

    pub fn root_dir_sectors(&self) -> (r: u64)
        requires
            self.bpb_bytes_per_sec > 0,
        ensures
            r == self.root_dir_sectors_spec(),
    {
        (32 * self.bpb_root_ent_cnt as u64 + self.bpb_bytes_per_sec as u64 - 1)
            / self.bpb_bytes_per_sec as u64
    }

    pub fn data_start_sector(&self) -> (r: u64)
        requires
            self.bpb_bytes_per_sec > 0,
        ensures
            r == self.data_start_sector_spec(),
    {
        proof {
            lemma_mul_bound(self.bpb_fat_sz32 as int, self.bpb_num_fats as int, 0xFFFF_FFFF, 255);
        }
        self.root_dir_start_sector() + self.root_dir_sectors()
    }

    /// The sectors of the data region.
    pub fn data_sectors(&self) -> (r: u64)
        requires
            self.bpb_bytes_per_sec > 0,
            self.data_start_sector_spec() <= self.bpb_tot_sec32,
        ensures
            r == self.bpb_tot_sec32 - self.data_start_sector_spec(),
    {
        self.bpb_tot_sec32 as u64 - self.data_start_sector()
    }

    /// The number of whole clusters in the data region: no chain without a
    /// cycle is longer.
    pub fn total_data_clusters(&self) -> (r: u64)
        requires
            self.bpb_bytes_per_sec > 0,
            self.bpb_sec_per_clus > 0,
            self.data_start_sector_spec() <= self.bpb_tot_sec32,
        ensures
            r == self.total_data_clusters_spec(),
    {
        self.data_sectors() / self.bpb_sec_per_clus as u64
    }

    #[inline]
    pub fn bytes_per_sector(&self) -> (r: u64)
        ensures
            r == self.bpb_bytes_per_sec,
    {
        self.bpb_bytes_per_sec as u64
    }

    #[inline]
    pub fn bytes_per_cluster(&self) -> (r: u64)
        ensures
            r == self.bytes_per_cluster_spec(),
    {
        proof {
            lemma_mul_bound(self.bpb_bytes_per_sec as int, self.bpb_sec_per_clus as int, 65535, 255);
        }
        self.bytes_per_sector() * self.sectors_per_cluster()
    }

    #[inline]
    pub fn sectors_per_cluster(&self) -> (r: u64)
        ensures
            r == self.bpb_sec_per_clus,
    {
        self.bpb_sec_per_clus as u64
    }

    /// The first sector of cluster `n`; clusters are numbered from 2.
    #[inline]
    pub fn cluster_start_sector(&self, n: u32) -> (r: u64)
        requires
            self.bpb_bytes_per_sec > 0,
            n >= 2,
        ensures
            r == self.cluster_start_sector_spec(n as int),
    {
        proof {
            lemma_mul_bound(self.bpb_fat_sz32 as int, self.bpb_num_fats as int, 0xFFFF_FFFF, 255);
            lemma_mul_bound((n - 2) as int, self.bpb_sec_per_clus as int, 0xFFFF_FFFF, 255);
        }
        self.data_start_sector() + (n - 2) as u64 * self.sectors_per_cluster()
    }

    /// Decodes and checks a boot sector. Anything but 512 bytes is an I/O
    /// error; 512 bytes are accepted exactly when their decoding breaks no
    /// rule, and rejected with the first rule broken otherwise.
    pub fn parse(sector: &Vec<u8>) -> (r: Fat32Result<BPB>)
        ensures
            sector@.len() != 512 ==> r == Err::<BPB, Fat32Error>(Fat32Error::IOError),
            sector@.len() == 512 ==> (r is Ok <==> sector_defect(sector@) is None),
            r matches Ok(b) ==> b.decodes(sector@) && b.valid(),
            sector@.len() == 512 ==> (r matches Err(e) ==> sector_defect(sector@) == Some(
                e->InvalidBPB_0,
            ) && e is InvalidBPB),
    {
        if sector.len() != BOOT_SECTOR_SIZE {
            return Err(Fat32Error::IOError);
        }
        let bpb = BPB {
            bs_jmp_boot: [sector[0], sector[1], sector[2]],
            bs_oem_name: [
                sector[3],
                sector[4],
                sector[5],
                sector[6],
                sector[7],
                sector[8],
                sector[9],
                sector[10],
            ],
            bpb_bytes_per_sec: read_le16(sector, 11),
            bpb_sec_per_clus: sector[13],
            bpb_rsvd_sec_cnt: read_le16(sector, 14),
            bpb_num_fats: sector[16],
            bpb_root_ent_cnt: read_le16(sector, 17),
            bpb_tot_sec16: read_le16(sector, 19),
            bpb_media: sector[21],
            bpb_fat_sz16: read_le16(sector, 22),
            bpb_sec_per_trk: read_le16(sector, 24),
            bpb_num_heads: read_le16(sector, 26),
            bpb_hidd_sec: read_le32(sector, 28),
            bpb_tot_sec32: read_le32(sector, 32),
            bpb_fat_sz32: read_le32(sector, 36),
            bpb_ext_flags: read_le16(sector, 40),
            bpb_fs_ver: read_le16(sector, 42),
            bpb_root_clus: read_le32(sector, 44),
            bpb_fs_info: read_le16(sector, 48),
            bpb_bk_boot_sec: read_le16(sector, 50),
            bpb_reserved: [
                sector[52],
                sector[53],
                sector[54],
                sector[55],
                sector[56],
                sector[57],
                sector[58],
                sector[59],
                sector[60],
                sector[61],
                sector[62],
                sector[63],
            ],
            bs_drv_num: sector[64],
            bs_reserved1: sector[65],
            bs_boot_sig: sector[66],
            bs_vol_id: read_le32(sector, 67),
            bs_vol_lab: [
                sector[71],
                sector[72],
                sector[73],
                sector[74],
                sector[75],
                sector[76],
                sector[77],
                sector[78],
                sector[79],
                sector[80],
                sector[81],
            ],
            bs_fil_sys_type: [
                sector[82],
                sector[83],
                sector[84],
                sector[85],
                sector[86],
                sector[87],
                sector[88],
                sector[89],
            ],
            bs_boot_code32: copy_range(sector, 90, 510),
            bs_sign: read_le16(sector, 510),
        };
        proof {
            assert(bpb.bs_jmp_boot@ =~= sector@.subrange(0, 3));
            assert(bpb.bs_oem_name@ =~= sector@.subrange(3, 11));
            assert(bpb.bpb_reserved@ =~= sector@.subrange(52, 64));
            assert(bpb.bs_vol_lab@ =~= sector@.subrange(71, 82));
            assert(bpb.bs_fil_sys_type@ =~= sector@.subrange(82, 90));
            assert(bpb.decodes(sector@));
            lemma_decoding_unique(bpb, choose|b: BPB| b.decodes(sector@), sector@);
        }
        match bpb.validate() {
            Ok(()) => Ok(bpb),
            Err(e) => Err(e),
        }
    }

    /// Reads the first 512 bytes of the device and parses them. A device
    /// shorter than that gives an I/O error.
    pub fn read_from(drive: &Drive) -> (r: Fat32Result<BPB>)
        ensures
            drive@.len() < 512 ==> r == Err::<BPB, Fat32Error>(Fat32Error::IOError),
            drive@.len() >= 512 ==> (r is Ok <==> sector_defect(drive@.subrange(0, 512)) is None),
            r matches Ok(b) ==> drive@.len() >= 512 && b.decodes(drive@.subrange(0, 512))
                && b.valid(),
            drive@.len() >= 512 ==> (r matches Err(e) ==> sector_defect(drive@.subrange(0, 512))
                == Some(e->InvalidBPB_0) && e is InvalidBPB),
    {
        let mut buf: Vec<u8> = vec![0u8; BOOT_SECTOR_SIZE];
        match drive.read(&mut buf, 0) {
            Err(e) => Err(e),
            Ok(n) => {
                if n < BOOT_SECTOR_SIZE {
                    Err(Fat32Error::IOError)
                } else {
                    assert(buf@ =~= drive@.subrange(0, 512));
                    BPB::parse(&buf)
                }
            },
        }
    }

    /// The sector image of the block.
    pub fn to_bytes(&self) -> (out: Vec<u8>)
        requires
            self.well_formed(),
        ensures
            out@ == self.encoding(),
            self.decodes(out@),
    {
        let mut out: Vec<u8> = Vec::new();
        push_bytes(&mut out, self.bs_jmp_boot.as_slice());
        push_bytes(&mut out, self.bs_oem_name.as_slice());
        push_le16(&mut out, self.bpb_bytes_per_sec);
        out.push(self.bpb_sec_per_clus);
        push_le16(&mut out, self.bpb_rsvd_sec_cnt);
        out.push(self.bpb_num_fats);
        push_le16(&mut out, self.bpb_root_ent_cnt);
        push_le16(&mut out, self.bpb_tot_sec16);
        out.push(self.bpb_media);
        push_le16(&mut out, self.bpb_fat_sz16);
        push_le16(&mut out, self.bpb_sec_per_trk);
        push_le16(&mut out, self.bpb_num_heads);
        push_le32(&mut out, self.bpb_hidd_sec);
        push_le32(&mut out, self.bpb_tot_sec32);
        push_le32(&mut out, self.bpb_fat_sz32);
        push_le16(&mut out, self.bpb_ext_flags);
        push_le16(&mut out, self.bpb_fs_ver);
        push_le32(&mut out, self.bpb_root_clus);
        push_le16(&mut out, self.bpb_fs_info);
        push_le16(&mut out, self.bpb_bk_boot_sec);
        push_bytes(&mut out, self.bpb_reserved.as_slice());
        out.push(self.bs_drv_num);
        out.push(self.bs_reserved1);
        out.push(self.bs_boot_sig);
        push_le32(&mut out, self.bs_vol_id);
        push_bytes(&mut out, self.bs_vol_lab.as_slice());
        push_bytes(&mut out, self.bs_fil_sys_type.as_slice());
        assert(out@ =~= self.header_encoding());
        push_bytes(&mut out, self.bs_boot_code32.as_slice());
        push_le16(&mut out, self.bs_sign);
        proof {
            lemma_encoding_decodes(*self);
        }
        out
    }
}

/// The verdict on a 512-byte sector: the defect of its decoding.
pub open spec fn sector_defect(s: Seq<u8>) -> Option<BpbDefect> {
    (choose|b: BPB| b.decodes(s)).defect()
}

/// A sector has one decoding: two blocks that decode the same bytes agree in
/// every field, and so in their verdict.
pub proof fn lemma_decoding_unique(a: BPB, b: BPB, s: Seq<u8>)
    requires
        a.decodes(s),
        b.decodes(s),
    ensures
        a.same_fields(&b),
        a.defect() == b.defect(),
        a.defect() == sector_defect(s),
{
    let c = choose|c: BPB| c.decodes(s);
    assert(a.same_fields(&c));
    assert(a.defect() == c.defect());
    assert(b.defect() == c.defect());
}

/// A block is the decoding of its own sector image.
pub proof fn lemma_encoding_decodes(b: BPB)
    requires
        b.well_formed(),
    ensures
        b.encoding().len() == 512,
        b.decodes(b.encoding()),
{
    let h = b.header_encoding();
    let s = b.encoding();
    assert(h.len() == 90);
    assert(s.len() == 512);
    assert(s.subrange(0, 90) =~= h);
    lemma_header_fields(b);
    assert forall|i: int| 0 <= i < 90 implies s[i] == h[i] by {}
    assert(s.subrange(0, 3) =~= h.subrange(0, 3));
    assert(s.subrange(3, 11) =~= h.subrange(3, 11));
    assert(s.subrange(52, 64) =~= h.subrange(52, 64));
    assert(s.subrange(71, 82) =~= h.subrange(71, 82));
    assert(s.subrange(82, 90) =~= h.subrange(82, 90));
    assert(s.subrange(90, 510) =~= b.bs_boot_code32@);
    lemma_le_round_trip(b.bs_sign, 0);
    assert(le16(s, 510) == le16(le16_bytes(b.bs_sign), 0));
}

/// Where each field lies in the first 90 bytes of the image.
proof fn lemma_header_fields(b: BPB)
    ensures
        ({
            let h = b.header_encoding();
            &&& h.len() == 90
            &&& h.subrange(0, 3) == b.bs_jmp_boot@
            &&& h.subrange(3, 11) == b.bs_oem_name@
            &&& le16(h, 11) == b.bpb_bytes_per_sec
            &&& h[13] == b.bpb_sec_per_clus
            &&& le16(h, 14) == b.bpb_rsvd_sec_cnt
            &&& h[16] == b.bpb_num_fats
            &&& le16(h, 17) == b.bpb_root_ent_cnt
            &&& le16(h, 19) == b.bpb_tot_sec16
            &&& h[21] == b.bpb_media
            &&& le16(h, 22) == b.bpb_fat_sz16
            &&& le16(h, 24) == b.bpb_sec_per_trk
            &&& le16(h, 26) == b.bpb_num_heads
            &&& le32(h, 28) == b.bpb_hidd_sec
            &&& le32(h, 32) == b.bpb_tot_sec32
            &&& le32(h, 36) == b.bpb_fat_sz32
            &&& le16(h, 40) == b.bpb_ext_flags
            &&& le16(h, 42) == b.bpb_fs_ver
            &&& le32(h, 44) == b.bpb_root_clus
            &&& le16(h, 48) == b.bpb_fs_info
            &&& le16(h, 50) == b.bpb_bk_boot_sec
            &&& h.subrange(52, 64) == b.bpb_reserved@
            &&& h[64] == b.bs_drv_num
            &&& h[65] == b.bs_reserved1
            &&& h[66] == b.bs_boot_sig
            &&& le32(h, 67) == b.bs_vol_id
            &&& h.subrange(71, 82) == b.bs_vol_lab@
            &&& h.subrange(82, 90) == b.bs_fil_sys_type@
        }),
{
    let h = b.header_encoding();
    assert(h.len() == 90);
    assert(h.subrange(0, 3) =~= b.bs_jmp_boot@);
    assert(h.subrange(3, 11) =~= b.bs_oem_name@);
    assert(h.subrange(52, 64) =~= b.bpb_reserved@);
    assert(h.subrange(71, 82) =~= b.bs_vol_lab@);
    assert(h.subrange(82, 90) =~= b.bs_fil_sys_type@);
    lemma_le_round_trip(b.bpb_bytes_per_sec, b.bpb_hidd_sec);
    lemma_le_round_trip(b.bpb_rsvd_sec_cnt, b.bpb_tot_sec32);
    lemma_le_round_trip(b.bpb_root_ent_cnt, b.bpb_fat_sz32);
    lemma_le_round_trip(b.bpb_tot_sec16, b.bpb_root_clus);
    lemma_le_round_trip(b.bpb_fat_sz16, b.bs_vol_id);
    lemma_le_round_trip(b.bpb_sec_per_trk, 0);
    lemma_le_round_trip(b.bpb_num_heads, 0);
    lemma_le_round_trip(b.bpb_ext_flags, 0);
    lemma_le_round_trip(b.bpb_fs_ver, 0);
    lemma_le_round_trip(b.bpb_fs_info, 0);
    lemma_le_round_trip(b.bpb_bk_boot_sec, 0);
}

/// Writing a valid block out and parsing the image gives the block back:
/// the image breaks no rule, and whatever decodes it agrees with the block
/// in every field.
pub proof fn lemma_round_trip(b: BPB, parsed: BPB)
    requires
        b.valid(),
        parsed.decodes(b.encoding()),
    ensures
        b.encoding().len() == 512,
        sector_defect(b.encoding()) is None,
        parsed.same_fields(&b),
        parsed.valid(),
{
    lemma_encoding_decodes(b);
    lemma_decoding_unique(parsed, b, b.encoding());
}

} // verus!
