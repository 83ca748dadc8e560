use fat32::adapter::{
    access_mode, admit_open, check_access, errno_of, AccessRequest, EACCES, EINVAL, EIO, EISDIR,
    ENOTDIR,
};
use fat32::directory::{decode_date_time, fat32_get_date, fat32_get_time};
use fat32::inode::joined;
use fat32::time::seconds_or_epoch;
use fat32::{
    fat_is_bad, fat_is_eoc, fat_is_free, fat_is_in_chain, fat_is_reserved, BpbDefect, Drive,
    Fat32Error, FatEntry, InodeResolver, BPB, LFN, ROOT_INODE,
};

fn units(s: &str) -> Vec<u16> {
    s.encode_utf16().collect()
}

fn sample_bpb() -> BPB {
    BPB {
        bs_jmp_boot: [0xEB, 0x58, 0x90],
        bs_oem_name: *b"MSWIN4.1",
        bpb_bytes_per_sec: 512,
        bpb_sec_per_clus: 8,
        bpb_rsvd_sec_cnt: 32,
        bpb_num_fats: 2,
        bpb_root_ent_cnt: 0,
        bpb_tot_sec16: 0,
        bpb_media: 0xF8,
        bpb_fat_sz16: 0,
        bpb_sec_per_trk: 63,
        bpb_num_heads: 255,
        bpb_hidd_sec: 0x0102_0304,
        bpb_tot_sec32: 0x0010_0000,
        bpb_fat_sz32: 1000,
        bpb_ext_flags: 0,
        bpb_fs_ver: 0,
        bpb_root_clus: 2,
        bpb_fs_info: 1,
        bpb_bk_boot_sec: 6,
        bpb_reserved: [0; 12],
        bs_drv_num: 0x80,
        bs_reserved1: 0,
        bs_boot_sig: 0x29,
        bs_vol_id: 0xDEAD_BEEF,
        bs_vol_lab: *b"NO NAME    ",
        bs_fil_sys_type: *b"FAT32   ",
        bs_boot_code32: (0..420u32).map(|i| i as u8).collect(),
        bs_sign: 0xAA55,
    }
}

fn defect_of(bpb: &BPB) -> Option<BpbDefect> {
    match BPB::parse(&bpb.to_bytes()) {
        Ok(_) => None,
        Err(Fat32Error::InvalidBPB(d)) => Some(d),
        Err(e) => panic!("unexpected error {:?}", e),
    }
}

#[test]
fn bpb_round_trip() {
    let bpb = sample_bpb();
    let bytes = bpb.to_bytes();
    assert_eq!(bytes.len(), 512);
    assert_eq!(&bytes[11..13], &[0x00, 0x02]);
    assert_eq!(&bytes[28..32], &[0x04, 0x03, 0x02, 0x01]);
    assert_eq!(&bytes[82..90], b"FAT32   ");
    assert_eq!(&bytes[510..], &[0x55, 0xAA]);
    let parsed = BPB::parse(&bytes).unwrap();
    assert_eq!(format!("{:?}", parsed), format!("{:?}", bpb));
    assert_eq!(parsed.to_bytes(), bytes);
    let read = BPB::read_from(&Drive::from_bytes(bytes.clone())).unwrap();
    assert_eq!(read.to_bytes(), bytes);
    assert!(bpb.validate().is_ok());
}

#[test]
fn bpb_mutations_are_rejected() {
    let ok = sample_bpb();
    assert_eq!(defect_of(&ok), None);
    let mut b = ok.clone();
    b.bs_jmp_boot = [0xEB, 0x58, 0x00];
    assert_eq!(defect_of(&b), Some(BpbDefect::JumpInstruction));
    b.bs_jmp_boot = [0xE9, 0x58, 0x00];
    assert_eq!(defect_of(&b), None);
    let mut b = ok.clone();
    b.bpb_bytes_per_sec = 513;
    assert_eq!(defect_of(&b), Some(BpbDefect::BytesPerSector));
    let mut b = ok.clone();
    b.bpb_sec_per_clus = 3;
    assert_eq!(defect_of(&b), Some(BpbDefect::SectorsPerCluster));
    b.bpb_sec_per_clus = 0;
    assert_eq!(defect_of(&b), Some(BpbDefect::SectorsPerCluster));
    let mut b = ok.clone();
    b.bpb_bytes_per_sec = 4096;
    b.bpb_sec_per_clus = 16;
    assert_eq!(defect_of(&b), Some(BpbDefect::ClusterTooLarge));
    b.bpb_sec_per_clus = 8;
    assert_eq!(defect_of(&b), None);
    let mut b = ok.clone();
    b.bpb_media = 0xF1;
    assert_eq!(defect_of(&b), Some(BpbDefect::Media));
    b.bpb_media = 0xF0;
    assert_eq!(defect_of(&b), None);
    let mut b = ok.clone();
    b.bpb_root_ent_cnt = 512;
    assert_eq!(defect_of(&b), Some(BpbDefect::RootEntryCount));
    let mut b = ok.clone();
    b.bpb_tot_sec16 = 1;
    assert_eq!(defect_of(&b), Some(BpbDefect::TotalSectors16));
    let mut b = ok.clone();
    b.bpb_fat_sz16 = 1;
    assert_eq!(defect_of(&b), Some(BpbDefect::FatSize16));
    let mut b = ok.clone();
    b.bpb_tot_sec32 = 0;
    assert_eq!(defect_of(&b), Some(BpbDefect::TotalSectors32));
    let mut b = ok.clone();
    b.bpb_fs_ver = 1;
    assert_eq!(defect_of(&b), Some(BpbDefect::Version));
    let mut b = ok.clone();
    b.bpb_reserved[11] = 1;
    assert_eq!(defect_of(&b), Some(BpbDefect::Reserved));
    let mut b = ok.clone();
    b.bs_fil_sys_type = *b"FAT16   ";
    assert_eq!(defect_of(&b), Some(BpbDefect::FileSystemType));
    let mut b = ok.clone();
    b.bs_sign = 0x55AA;
    assert_eq!(defect_of(&b), Some(BpbDefect::Signature));
    let mut b = ok.clone();
    b.bpb_root_clus = 1;
    assert_eq!(defect_of(&b), Some(BpbDefect::RootCluster));
    let mut b = ok.clone();
    b.bpb_tot_sec32 = 2032;
    assert_eq!(defect_of(&b), Some(BpbDefect::NoDataRegion));
    b.bpb_tot_sec32 = 2033;
    assert_eq!(defect_of(&b), None);
    let mut b = ok.clone();
    b.bpb_media = 0;
    b.bs_sign = 0;
    assert_eq!(defect_of(&b), Some(BpbDefect::Media));
    assert_eq!(BpbDefect::Media.reason(), "Invalid BPB_Media value");
    assert_eq!(BPB::parse(&vec![0u8; 511]).unwrap_err(), Fat32Error::IOError);
}

#[test]
fn geometry_formulas() {
    let bpb = sample_bpb();
    assert_eq!(bpb.fat_start_sector(), 32);
    assert_eq!(bpb.fat_sectors(), 2000);
    assert_eq!(bpb.root_dir_start_sector(), 2032);
    assert_eq!(bpb.root_dir_sectors(), 0);
    assert_eq!(bpb.data_start_sector(), 2032);
    assert_eq!(bpb.data_sectors(), 0x0010_0000 - 2032);
    assert_eq!(bpb.total_data_clusters(), (0x0010_0000 - 2032) / 8);
    assert_eq!(bpb.bytes_per_sector(), 512);
    assert_eq!(bpb.sectors_per_cluster(), 8);
    assert_eq!(bpb.bytes_per_cluster(), 4096);
    assert_eq!(bpb.cluster_start_sector(2), 2032);
    assert_eq!(bpb.cluster_start_sector(10), 2032 + 64);
}

#[test]
fn fat_classes_partition_the_values() {
    let samples: [u32; 14] = [
        0,
        1,
        2,
        3,
        0x0FFF_FFF6,
        0x0FFF_FFF7,
        0x0FFF_FFF8,
        0x0FFF_FFFF,
        0x1000_0000,
        0x1000_0001,
        0xF000_0002,
        0xFFFF_FFF7,
        0xFFFF_FFFF,
        0x8000_0000,
    ];
    for v in samples {
        let classes = [
            fat_is_free(v),
            fat_is_reserved(v),
            fat_is_in_chain(v),
            fat_is_bad(v),
            fat_is_eoc(v),
        ];
        assert_eq!(classes.iter().filter(|c| **c).count(), 1, "value {:#x}", v);
    }
    assert!(fat_is_free(0x1000_0000));
    assert!(fat_is_reserved(0x1000_0001));
    assert!(fat_is_in_chain(0x0FFF_FFF6));
    assert!(fat_is_bad(0xFFFF_FFF7));
    assert!(fat_is_eoc(0x0FFF_FFF8));
    assert!(!fat_is_eoc(0x0FFF_FFF7));
}

#[test]
fn drive_reads_are_positional() {
    let drive = Drive::from_bytes((0..100u8).collect());
    assert_eq!(drive.size(), 100);
    let mut buf = vec![0xEEu8; 10];
    assert_eq!(drive.read(&mut buf, 5).unwrap(), 10);
    assert_eq!(buf, (5..15u8).collect::<Vec<u8>>());
    assert_eq!(drive.read(&mut buf, 95).unwrap(), 5);
    assert_eq!(buf, vec![95, 96, 97, 98, 99, 10, 11, 12, 13, 14]);
    assert_eq!(drive.read(&mut buf, 100).unwrap(), 0);
    assert_eq!(drive.read(&mut buf, 5000).unwrap(), 0);
    assert_eq!(drive.read(&mut buf, -1).unwrap_err(), Fat32Error::IOError);
    assert_eq!(drive.read(&mut buf, 5).unwrap(), 10);
}

fn entry_named(name: &[u8; 11], nt_res: u8) -> FatEntry {
    let mut slot = vec![0u8; 32];
    slot[..11].copy_from_slice(name);
    slot[12] = nt_res;
    FatEntry::read(&slot).unwrap().unwrap()
}

#[test]
fn short_names() {
    assert_eq!(entry_named(b"README  TXT", 0).short_name(), units("README.TXT"));
    assert_eq!(entry_named(b"README  TXT", 0x08).short_name(), units("readme.TXT"));
    assert_eq!(entry_named(b"README  TXT", 0x10).short_name(), units("README.txt"));
    assert_eq!(entry_named(b"README  TXT", 0x18).short_name(), units("readme.txt"));
    assert_eq!(entry_named(b"DIR1       ", 0).short_name(), units("DIR1"));
    assert_eq!(entry_named(b"A B     C  ", 0).short_name(), units("A B.C"));
    assert_eq!(entry_named(b"12345678ABC", 0x18).short_name(), units("12345678.abc"));
    assert_eq!(entry_named(b".          ", 0).short_name(), units("."));
    assert_eq!(entry_named(b"README  TXT", 0).name_checksum(), 115);
    assert_eq!(entry_named(b"FILE    BIN", 0).name_checksum(), 7);
}

#[test]
fn slots_decode() {
    assert!(FatEntry::read(&vec![0u8; 32]).unwrap().is_none());
    assert_eq!(FatEntry::read(&vec![1u8; 31]).unwrap_err(), Fat32Error::IOError);
    assert_eq!(LFN::read(&vec![1u8; 31]).unwrap_err(), Fat32Error::IOError);
    let mut slot: Vec<u8> = (0..32u8).map(|i| i + 1).collect();
    slot[11] = 0x0F;
    let lfn = LFN::read(&slot).unwrap();
    assert_eq!((lfn.ord, lfn.attr, lfn.type_, lfn.chksum), (1, 0x0F, 13, 14));
    assert_eq!(lfn.fst_clus_lo, 0x1C1B);
    let mut name = vec![7u16];
    lfn.construct_name(&mut name);
    assert_eq!(
        name,
        vec![
            7, 0x0302, 0x0504, 0x0706, 0x0908, 0x0B0A, 0x100F, 0x1211, 0x1413, 0x1615, 0x1817,
            0x1A19, 0x1E1D, 0x201F
        ]
    );
    let entry = FatEntry::read(&slot).unwrap().unwrap();
    assert_eq!(entry.name, [1, 2, 3, 4, 5, 6, 7, 8, 9, 10, 11]);
    assert_eq!((entry.attr, entry.nt_res, entry.crt_time_tenth), (0x0F, 13, 14));
    assert_eq!((entry.crt_time, entry.crt_date, entry.lst_acc_date), (0x100F, 0x1211, 0x1413));
    assert_eq!((entry.fst_clus_hi, entry.wrt_time, entry.wrt_date), (0x1615, 0x1817, 0x1A19));
    assert_eq!((entry.fst_clus_lo, entry.file_size), (0x1C1B, 0x201F_1E1D));
}

#[test]
fn dates_and_times() {
    assert_eq!(fat32_get_date(0x586F), (2024, 3, 15));
    assert_eq!(fat32_get_time(0x6CB5), (13, 37, 42));
    assert_eq!(fat32_get_date(0x0021), (1980, 1, 1));
    assert_eq!(fat32_get_date(0), (1980, 0, 0));
    assert_eq!(fat32_get_date(0xFFFF), (2107, 15, 31));
    assert_eq!(fat32_get_time(0xFFFF), (31, 63, 62));
    let moment = decode_date_time(0x586F, 0x6CB5);
    assert_eq!((moment.year, moment.month, moment.day), (2024, 3, 15));
    assert_eq!((moment.hour, moment.minute, moment.second), (13, 37, 42));
    assert_eq!(moment.seconds(), Some(1710509862));
    assert_eq!(moment.timestamp(), 1710509862);
    assert_eq!(decode_date_time(0x0021, 0).seconds(), Some(315532800));
    assert_eq!(decode_date_time(0xFF9F, 0xBF7D).seconds(), Some(4354819198));
    let no_month = decode_date_time(0x0001, 0);
    assert_eq!((no_month.seconds(), no_month.timestamp()), (None, 0));
    assert_eq!(decode_date_time(0x585E, 0).seconds(), None);
    assert_eq!(decode_date_time(0x585D, 0).seconds(), Some(1709164800));
    assert_eq!(decode_date_time(0x586F, 0xC000).seconds(), None);
    assert_eq!(decode_date_time(0x586F, 0x001E).seconds(), None);
    assert_eq!(seconds_or_epoch(Some(-5)), -5);
    assert_eq!(seconds_or_epoch(None), 0);
}

#[test]
fn inodes_are_stable() {
    let mut inodes = InodeResolver::new();
    assert_eq!(inodes.path(ROOT_INODE), &units("/"));
    let a = inodes.get_or_assign_inode(ROOT_INODE, &units("DIR1"));
    assert_eq!(a, 2);
    let b = inodes.get_or_assign_inode(a, &units("FILE.BIN"));
    assert_eq!(b, 3);
    let c = inodes.get_or_assign_inode(ROOT_INODE, &units("other"));
    assert_eq!(c, 4);
    for _ in 0..3 {
        assert_eq!(inodes.get_or_assign_inode(ROOT_INODE, &units("DIR1")), a);
        assert_eq!(inodes.get_or_assign_inode(a, &units("FILE.BIN")), b);
    }
    assert_eq!(inodes.path(a), &units("/DIR1"));
    assert_eq!(inodes.path(b), &units("/DIR1/FILE.BIN"));
    assert_eq!(inodes.find_path(&units("/DIR1/FILE.BIN")), Some(b));
    assert_eq!(inodes.find_path(&units("/DIR1/NONE")), None);
    assert_eq!(inodes.get_or_assign_inode(b, &units(".")), b);
    assert_eq!(inodes.get_or_assign_inode(b, &units("..")), a);
    assert_eq!(inodes.get_or_assign_inode(a, &units("..")), ROOT_INODE);
    assert_eq!(inodes.get_or_assign_inode(ROOT_INODE, &units("..")), ROOT_INODE);
    assert_eq!(inodes.get_or_assign_inode(ROOT_INODE, &units(".")), ROOT_INODE);
    assert_eq!(inodes.next_inode, 4);
    assert!(inodes.is_known(4) && !inodes.is_known(5) && !inodes.is_known(0));
    assert_eq!(joined(&units("/"), &units("a")), units("/a"));
    assert_eq!(joined(&units("/a"), &units("b")), units("/a/b"));
}

#[test]
fn open_flags_and_error_numbers() {
    let read_only = AccessRequest { read: true, write: false, execute: false };
    assert_eq!(access_mode(0, true), Ok(read_only));
    assert_eq!(access_mode(0x8000, false), Ok(read_only));
    assert_eq!(
        access_mode(0x20, true),
        Ok(AccessRequest { read: true, write: false, execute: true })
    );
    assert_eq!(access_mode(0x20, false), Ok(read_only));
    assert_eq!(access_mode(512, true), Err(EACCES));
    assert_eq!(access_mode(1, true), Ok(AccessRequest { read: false, write: true, execute: false }));
    assert_eq!(access_mode(2, true), Ok(AccessRequest { read: true, write: true, execute: false }));
    assert_eq!(access_mode(3, true), Err(EINVAL));
    assert_eq!(admit_open(0, false), Ok(()));
    assert_eq!(admit_open(0x20, true), Ok(()));
    assert_eq!(admit_open(1, false), Err(EACCES));
    assert_eq!(admit_open(2, true), Err(EACCES));
    assert_eq!(admit_open(512, false), Err(EACCES));
    assert_eq!(admit_open(3, false), Err(EINVAL));
    assert!(check_access(true, false, true));
    assert!(!check_access(true, true, false));
    assert_eq!(errno_of(&Fat32Error::NotADir), ENOTDIR);
    assert_eq!(errno_of(&Fat32Error::IsDir), EISDIR);
    assert_eq!(errno_of(&Fat32Error::IOError), EIO);
    assert_eq!(errno_of(&Fat32Error::BadCluster(7)), EIO);
    assert_eq!(errno_of(&Fat32Error::InvalidBPB(BpbDefect::Media)), EIO);
}
