use fat32::adapter::{
    getattr, lookup, open, opendir, read, release, releasedir, FileKind, EACCES, EBADF, EINVAL,
    EIO, EISDIR, ENOENT, ENOTDIR,
};
use fat32::{Drive, Driver, FileState, InodeResolver, BPB, ROOT_INODE};

fn units(s: &str) -> Vec<u16> {
    s.encode_utf16().collect()
}

fn slot(name: &[u8; 11], attr: u8, cluster: u16, size: u32) -> [u8; 32] {
    let mut slot = [0u8; 32];
    slot[..11].copy_from_slice(name);
    slot[11] = attr;
    slot[16..18].copy_from_slice(&0x0021u16.to_le_bytes());
    slot[18..20].copy_from_slice(&0x0021u16.to_le_bytes());
    slot[24..26].copy_from_slice(&0x586Fu16.to_le_bytes());
    slot[22..24].copy_from_slice(&0x6CB5u16.to_le_bytes());
    slot[26..28].copy_from_slice(&cluster.to_le_bytes());
    slot[28..32].copy_from_slice(&size.to_le_bytes());
    slot
}

/// Root: `DOCS` (a directory at cluster 3), `NOTE.TXT` (cluster 4, chain
/// 4 -> 5), `LOST.BIN` (cluster 9, whose FAT entry is free).
/// `DOCS` holds `A.TXT` at cluster 6.
fn volume() -> Driver {
    let bpb = BPB {
        bs_jmp_boot: [0xEB, 0x58, 0x90],
        bs_oem_name: *b"MSWIN4.1",
        bpb_bytes_per_sec: 512,
        bpb_sec_per_clus: 1,
        bpb_rsvd_sec_cnt: 2,
        bpb_num_fats: 1,
        bpb_root_ent_cnt: 0,
        bpb_tot_sec16: 0,
        bpb_media: 0xF8,
        bpb_fat_sz16: 0,
        bpb_sec_per_trk: 1,
        bpb_num_heads: 1,
        bpb_hidd_sec: 0,
        bpb_tot_sec32: 19,
        bpb_fat_sz32: 1,
        bpb_ext_flags: 0,
        bpb_fs_ver: 0,
        bpb_root_clus: 2,
        bpb_fs_info: 1,
        bpb_bk_boot_sec: 0,
        bpb_reserved: [0; 12],
        bs_drv_num: 0x80,
        bs_reserved1: 0,
        bs_boot_sig: 0x29,
        bs_vol_id: 1,
        bs_vol_lab: *b"NO NAME    ",
        bs_fil_sys_type: *b"FAT32   ",
        bs_boot_code32: vec![0u8; 420],
        bs_sign: 0xAA55,
    };
    let mut bytes = vec![0u8; 19 * 512];
    bytes[..512].copy_from_slice(&bpb.to_bytes());
    let fat = 2 * 512;
    for (cluster, value) in [(0u32, 0x0FFF_FFF8u32), (1, 0x0FFF_FFFF), (2, 0x0FFF_FFFF)] {
        bytes[fat + cluster as usize * 4..][..4].copy_from_slice(&value.to_le_bytes());
    }
    for (cluster, value) in [(3u32, 0x0FFF_FFFFu32), (4, 5), (5, 0x0FFF_FFF8), (6, 0x0FFF_FFFF)] {
        bytes[fat + cluster as usize * 4..][..4].copy_from_slice(&value.to_le_bytes());
    }
    let data = 3 * 512;
    let root = [
        slot(b"DOCS       ", 0x10, 3, 0),
        slot(b"NOTE    TXT", 0x20, 4, 700),
        slot(b"LOST    BIN", 0x20, 9, 10),
    ];
    for (i, s) in root.iter().enumerate() {
        bytes[data + i * 32..][..32].copy_from_slice(s);
    }
    bytes[data + 512..][..32].copy_from_slice(&slot(b"A       TXT", 0x20, 6, 2));
    for i in 0..700 {
        bytes[data + 2 * 512 + i] = (i % 256) as u8;
    }
    bytes[data + 4 * 512..][..2].copy_from_slice(b"ok");
    Driver::new(Drive::from_bytes(bytes)).unwrap()
}

#[test]
fn lookup_assigns_inodes_and_reports_attributes() {
    let driver = volume();
    let mut inodes = InodeResolver::new();
    let docs = lookup(&driver, &mut inodes, ROOT_INODE, &units("DOCS"), 7, 8).unwrap();
    assert_eq!((docs.ino, docs.kind, docs.blocks, docs.size), (2, FileKind::Directory, 1, 0));
    assert_eq!((docs.uid, docs.gid, docs.perm, docs.nlink, docs.blksize), (7, 8, 0o644, 1, 512));
    let a = lookup(&driver, &mut inodes, docs.ino, &units("A.TXT"), 7, 8).unwrap();
    assert_eq!((a.ino, a.kind, a.blocks, a.size), (3, FileKind::RegularFile, 1, 2));
    assert_eq!((a.mtime, a.ctime, a.crtime, a.atime), (1710509862, 1710509862, 315532800, 315532800));
    assert_eq!(lookup(&driver, &mut inodes, ROOT_INODE, &units("NONE"), 7, 8), Err(ENOENT));
    assert_eq!(lookup(&driver, &mut inodes, ROOT_INODE, &units("LOST.BIN"), 7, 8), Err(EIO));
    assert_eq!(inodes.next_inode, 3);
    let note = lookup(&driver, &mut inodes, ROOT_INODE, &units("NOTE.TXT"), 7, 8).unwrap();
    assert_eq!((note.ino, note.blocks, note.size), (4, 2, 700));
    let again = lookup(&driver, &mut inodes, ROOT_INODE, &units("DOCS"), 7, 8).unwrap();
    assert_eq!(again, docs);
    assert_eq!(getattr(&driver, &inodes, 3, 7, 8), Ok(a));
    let root = getattr(&driver, &inodes, ROOT_INODE, 0, 0).unwrap();
    assert_eq!((root.ino, root.kind), (1, FileKind::Directory));
}

#[test]
fn opens_follow_the_flags_and_the_kind() {
    let driver = volume();
    let mut inodes = InodeResolver::new();
    let mut handles = FileState::new();
    let docs = lookup(&driver, &mut inodes, ROOT_INODE, &units("DOCS"), 0, 0).unwrap().ino;
    let note = lookup(&driver, &mut inodes, ROOT_INODE, &units("NOTE.TXT"), 0, 0).unwrap().ino;
    assert_eq!(opendir(&driver, &mut handles, &inodes, docs, 1), Err(EACCES));
    assert_eq!(opendir(&driver, &mut handles, &inodes, docs, 2), Err(EACCES));
    assert_eq!(opendir(&driver, &mut handles, &inodes, docs, 512), Err(EACCES));
    assert_eq!(opendir(&driver, &mut handles, &inodes, docs, 3), Err(EINVAL));
    assert_eq!(opendir(&driver, &mut handles, &inodes, note, 0), Err(ENOTDIR));
    assert_eq!(open(&driver, &mut handles, &inodes, docs, 0), Err(EISDIR));
    assert_eq!(open(&driver, &mut handles, &inodes, note, 1), Err(EACCES));
    let dir = opendir(&driver, &mut handles, &inodes, docs, 0).unwrap();
    let file = open(&driver, &mut handles, &inodes, note, 0x20).unwrap();
    assert_eq!((dir, file), (1, 2));
    assert_eq!(driver.read_dir(&mut handles, dir, 0).unwrap().unwrap().name(), &units("A.TXT"));

    let bytes = read(&driver, &handles, file, 500, 4096, 0).unwrap();
    assert_eq!(bytes.len(), 200);
    assert!(bytes.iter().enumerate().all(|(i, b)| *b == ((500 + i) % 256) as u8));
    assert_eq!(read(&driver, &handles, file, 700, 16, 0), Ok(Vec::new()));
    assert_eq!(read(&driver, &handles, file, 0, 16, 1), Err(EACCES));
    assert_eq!(read(&driver, &handles, dir, 0, 16, 0), Err(EBADF));

    assert_eq!(release(&driver, &mut handles, dir), Err(EBADF));
    assert_eq!(releasedir(&driver, &mut handles, file), Err(EBADF));
    assert_eq!(release(&driver, &mut handles, file), Ok(()));
    assert_eq!(release(&driver, &mut handles, file), Err(EBADF));
    assert_eq!(read(&driver, &handles, file, 0, 16, 0), Err(EBADF));
    assert_eq!(releasedir(&driver, &mut handles, dir), Ok(()));
    assert_eq!(releasedir(&driver, &mut handles, dir), Err(EBADF));
}
