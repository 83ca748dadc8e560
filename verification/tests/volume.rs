use fat32::adapter::{errno_of, file_attr_of, file_type_of, FileKind, EIO, ENOENT};
use fat32::file::list_directory;
use fat32::primitives::{cluster_start_sector, read_cluster, read_sector};
use fat32::{
    BpbDefect, DirectoryState, Drive, Driver, Fat, Fat32Error, FatDirectory, FatEntry, File,
    FileState, Files, BPB, LFN,
};

const RESERVED: u16 = 4;
const FAT_SECTORS: u32 = 1;
const DATA_CLUSTERS: u32 = 32;
const EOC: u32 = 0x0FFF_FFFF;

fn units(s: &str) -> Vec<u16> {
    s.encode_utf16().collect()
}

fn sample_bpb(sec_per_clus: u8) -> BPB {
    BPB {
        bs_jmp_boot: [0xEB, 0x58, 0x90],
        bs_oem_name: *b"MSWIN4.1",
        bpb_bytes_per_sec: 512,
        bpb_sec_per_clus: sec_per_clus,
        bpb_rsvd_sec_cnt: RESERVED,
        bpb_num_fats: 2,
        bpb_root_ent_cnt: 0,
        bpb_tot_sec16: 0,
        bpb_media: 0xF8,
        bpb_fat_sz16: 0,
        bpb_sec_per_trk: 63,
        bpb_num_heads: 255,
        bpb_hidd_sec: 0,
        bpb_tot_sec32: RESERVED as u32 + 2 * FAT_SECTORS + DATA_CLUSTERS * sec_per_clus as u32,
        bpb_fat_sz32: FAT_SECTORS,
        bpb_ext_flags: 0,
        bpb_fs_ver: 0,
        bpb_root_clus: 2,
        bpb_fs_info: 1,
        bpb_bk_boot_sec: 6,
        bpb_reserved: [0; 12],
        bs_drv_num: 0x80,
        bs_reserved1: 0,
        bs_boot_sig: 0x29,
        bs_vol_id: 0x1234_5678,
        bs_vol_lab: *b"NO NAME    ",
        bs_fil_sys_type: *b"FAT32   ",
        bs_boot_code32: vec![0u8; 420],
        bs_sign: 0xAA55,
    }
}

struct Image {
    bytes: Vec<u8>,
    sec_per_clus: u8,
}

impl Image {
    fn new(sec_per_clus: u8) -> Image {
        let bpb = sample_bpb(sec_per_clus);
        let total = bpb.bpb_tot_sec32 as usize * 512;
        let mut bytes = vec![0u8; total];
        bytes[..512].copy_from_slice(&bpb.to_bytes());
        let mut image = Image { bytes, sec_per_clus };
        image.set_fat(0, 0x0FFF_FFF8);
        image.set_fat(1, EOC);
        image.set_fat(2, EOC);
        image
    }

    fn set_fat(&mut self, cluster: u32, value: u32) {
        let at = RESERVED as usize * 512 + cluster as usize * 4;
        self.bytes[at..at + 4].copy_from_slice(&value.to_le_bytes());
    }

    fn cluster_at(&self, cluster: u32) -> usize {
        let data_start = RESERVED as usize + 2 * FAT_SECTORS as usize;
        (data_start + (cluster as usize - 2) * self.sec_per_clus as usize) * 512
    }

    fn write(&mut self, cluster: u32, offset: usize, data: &[u8]) {
        let at = self.cluster_at(cluster) + offset;
        self.bytes[at..at + data.len()].copy_from_slice(data);
    }

    fn mount(&self) -> Driver {
        Driver::new(Drive::from_bytes(self.bytes.clone())).unwrap()
    }
}

const CRT_DATE: u16 = 0x586F;
const CRT_TIME: u16 = 0x6CB5;

fn short_slot(name: &[u8; 11], attr: u8, cluster: u32, size: u32) -> [u8; 32] {
    let mut slot = [0u8; 32];
    slot[..11].copy_from_slice(name);
    slot[11] = attr;
    slot[14..16].copy_from_slice(&CRT_TIME.to_le_bytes());
    slot[16..18].copy_from_slice(&CRT_DATE.to_le_bytes());
    slot[18..20].copy_from_slice(&CRT_DATE.to_le_bytes());
    slot[20..22].copy_from_slice(&((cluster >> 16) as u16).to_le_bytes());
    slot[22..24].copy_from_slice(&CRT_TIME.to_le_bytes());
    slot[24..26].copy_from_slice(&CRT_DATE.to_le_bytes());
    slot[26..28].copy_from_slice(&(cluster as u16).to_le_bytes());
    slot[28..32].copy_from_slice(&size.to_le_bytes());
    slot
}

fn rotate_sum(name: &[u8; 11]) -> u8 {
    let mut sum: u8 = 0;
    for b in name {
        sum = ((sum >> 1) | (sum << 7)).wrapping_add(*b);
    }
    sum
}

/// The long-name slots of `long` in disk order, `count` of them.
fn long_slots(long: &str, count: usize, checksum: u8) -> Vec<[u8; 32]> {
    let mut all: Vec<u16> = long.encode_utf16().collect();
    if all.len() < count * 13 {
        all.push(0);
    }
    while all.len() < count * 13 {
        all.push(0xFFFF);
    }
    let places: [usize; 13] = [1, 3, 5, 7, 9, 14, 16, 18, 20, 22, 24, 28, 30];
    let mut slots = Vec::new();
    for ordinal in (1..=count).rev() {
        let mut slot = [0u8; 32];
        slot[0] = ordinal as u8 | if ordinal == count { 0x40 } else { 0 };
        slot[11] = 0x0F;
        slot[13] = checksum;
        for (k, place) in places.iter().enumerate() {
            let unit = all[(ordinal - 1) * 13 + k];
            slot[*place..*place + 2].copy_from_slice(&unit.to_le_bytes());
        }
        slots.push(slot);
    }
    slots
}

fn put_slots(image: &mut Image, cluster: u32, slots: &[[u8; 32]]) {
    for (i, slot) in slots.iter().enumerate() {
        image.write(cluster, i * 32, slot);
    }
}

fn readme_image() -> Image {
    let mut image = Image::new(1);
    put_slots(&mut image, 2, &[short_slot(b"README  TXT", 0x20, 3, 13)]);
    image.set_fat(3, EOC);
    image.write(3, 0, b"hello, world\n");
    image
}

#[test]
fn mount_minimal_image() {
    let image = Image::new(1);
    let driver = image.mount();
    let mut state = FileState::new();
    let handle = driver.open_dir(&mut state, &units("/")).unwrap();
    assert_eq!(handle, 1);
    assert!(driver.read_dir(&mut state, handle, 0).unwrap().is_none());
    assert!(driver.close_dir(&mut state, handle).is_ok());
}

#[test]
fn root_with_one_short_name_file() {
    let image = readme_image();
    let driver = image.mount();
    let mut state = FileState::new();
    let mut inodes = fat32::InodeResolver::new();
    let found = driver.search_by_path(&units("/README.TXT")).unwrap();
    assert_eq!(found.file_size(), 13);
    assert_eq!(found.cluster_num(), 3);
    let inode = inodes.get_or_assign_inode(1, &units("README.TXT"));
    assert_eq!(inode, 2);
    assert_eq!(inodes.path(inode), &units("/README.TXT"));
    let handle = driver.open(&mut state, inodes.path(inode)).unwrap();
    let mut buffer = vec![0xAAu8; 128];
    assert_eq!(driver.read(&state, handle, &mut buffer, 0).unwrap(), 13);
    assert_eq!(&buffer[..13], b"hello, world\n");
    assert!(buffer[13..].iter().all(|b| *b == 0xAA));
    assert_eq!(driver.read(&state, handle, &mut buffer, 13).unwrap(), 0);
    assert_eq!(driver.read(&state, handle, &mut buffer, 5).unwrap(), 8);
    assert_eq!(&buffer[..8], b", world\n");
}

#[test]
fn two_cluster_file() {
    let mut image = Image::new(2);
    put_slots(&mut image, 2, &[short_slot(b"BIG     DAT", 0x20, 5, 1500)]);
    image.set_fat(5, 9);
    image.set_fat(9, EOC);
    let first: Vec<u8> = (0..1024u32).map(|i| (i % 251) as u8).collect();
    let second: Vec<u8> = (0..1024u32).map(|i| (i % 241) as u8 ^ 0x5A).collect();
    image.write(5, 0, &first);
    image.write(9, 0, &second);
    let driver = image.mount();
    assert_eq!(driver.bytes_per_cluster(), 1024);
    let mut state = FileState::new();
    let handle = driver.open(&mut state, &units("/BIG.DAT")).unwrap();
    let mut buffer = vec![0u8; 600];
    assert_eq!(driver.read(&state, handle, &mut buffer, 1000).unwrap(), 500);
    assert_eq!(&buffer[..24], &first[1000..]);
    assert_eq!(&buffer[24..500], &second[..476]);
    assert!(buffer[500..].iter().all(|b| *b == 0));
    let mut whole = vec![0u8; 4096];
    assert_eq!(driver.read(&state, handle, &mut whole, 0).unwrap(), 1500);
    assert_eq!(&whole[..1024], &first[..]);
    assert_eq!(&whole[1024..1500], &second[..476]);
}

#[test]
fn long_filename() {
    let short = b"AVERYL~1TXT";
    assert_eq!(rotate_sum(short), 128);
    let mut slots = long_slots("A Very Long File Name.txt", 3, rotate_sum(short));
    slots.push(short_slot(short, 0x20, 7, 4242));
    let mut image = Image::new(1);
    put_slots(&mut image, 2, &slots);
    image.set_fat(7, EOC);
    let driver = image.mount();
    let found = driver.search_by_path(&units("/A Very Long File Name.txt")).unwrap();
    assert_eq!(found.name(), &units("A Very Long File Name.txt"));
    assert_eq!(found.short_name, units("AVERYL~1.TXT"));
    assert_eq!(found.file_size(), 4242);
    assert_eq!(found.cluster_num(), 7);
    let created = found.create_time();
    assert_eq!(
        (created.year, created.month, created.day, created.hour, created.minute, created.second),
        (2024, 3, 15, 13, 37, 42)
    );
    assert_eq!(found.write_time(), created);
    let accessed = found.access_time();
    assert_eq!((accessed.year, accessed.month, accessed.day, accessed.hour), (2024, 3, 15, 0));
    assert!(found.is_file());
    assert_eq!(driver.search_by_path(&units("/AVERYL~1.TXT")).unwrap_err(), Fat32Error::NotFound);
}

#[test]
fn long_name_with_wrong_checksum_falls_back_to_short_name() {
    let short = b"AVERYL~1TXT";
    let mut slots = long_slots("A Very Long File Name.txt", 2, rotate_sum(short) ^ 1);
    slots.push(short_slot(short, 0x20, 7, 1));
    let mut image = Image::new(1);
    put_slots(&mut image, 2, &slots);
    let driver = image.mount();
    let root = FatDirectory::root(&driver);
    let mut files = Files::new(&driver, &root);
    let record = files.next(&driver).unwrap().unwrap();
    assert!(record.long_name.is_none());
    assert_eq!(record.name(), &units("AVERYL~1.TXT"));
    assert!(files.next(&driver).unwrap().is_none());
    assert!(files.next(&driver).unwrap().is_none());
}

#[test]
fn every_slot_of_a_long_name_carries_the_checksum() {
    let short = b"AVERYL~1TXT";
    let slots = long_slots("A Very Long File Name.txt", 2, rotate_sum(short));
    let parts: Vec<LFN> = slots.iter().map(|s| LFN::read(&s.to_vec()).unwrap()).collect();
    let entry = FatEntry::read(&short_slot(short, 0x20, 7, 1).to_vec()).unwrap().unwrap();
    assert_eq!(entry.name_checksum(), 128);
    let record = FatDirectory::new(entry, &parts);
    assert_eq!(record.long_name, Some(units("A Very Long File Name.txt")));
    assert!(parts.iter().all(|p| p.chksum == record.name_checksum()));
    let mut broken = parts.clone();
    broken[1].chksum = 0;
    assert!(FatDirectory::new(entry, &broken).long_name.is_none());
    assert!(FatDirectory::new(entry, &Vec::new()).long_name.is_none());
}

fn nested_image() -> Image {
    let mut image = Image::new(1);
    put_slots(
        &mut image,
        2,
        &[
            short_slot(b"VOLUME     ", 0x08, 0, 0),
            short_slot(b"DIR1       ", 0x10, 3, 0),
        ],
    );
    let mut deleted = short_slot(b"GONE    TXT", 0x20, 9, 5);
    deleted[0] = 0xE5;
    put_slots(
        &mut image,
        3,
        &[
            short_slot(b".          ", 0x10, 3, 0),
            short_slot(b"..         ", 0x10, 0, 0),
            deleted,
            short_slot(b"DIR2       ", 0x10, 4, 0),
        ],
    );
    put_slots(
        &mut image,
        4,
        &[
            short_slot(b".          ", 0x10, 4, 0),
            short_slot(b"..         ", 0x10, 3, 0),
            short_slot(b"FILE    BIN", 0x20, 5, 3),
        ],
    );
    image.set_fat(3, EOC);
    image.set_fat(4, EOC);
    image.set_fat(5, EOC);
    image.write(5, 0, b"abc");
    image
}

#[test]
fn nested_directory() {
    let image = nested_image();
    let driver = image.mount();
    let found = driver.search_by_path(&units("/DIR1/DIR2/FILE.BIN")).unwrap();
    assert_eq!(found.cluster_num(), 5);
    assert_eq!(found.file_size(), 3);
    let missing = driver.search_by_path(&units("/DIR1/DIR2/OTHER.BIN")).unwrap_err();
    assert_eq!(missing, Fat32Error::NotFound);
    assert_eq!(errno_of(&missing), ENOENT);
    assert_eq!(driver.search_by_path(&units("/DIR1/GONE.TXT")).unwrap_err(), Fat32Error::NotFound);
    assert!(driver.search_by_path(&units("")).unwrap().is_dir());
    assert!(driver.search_by_path(&units("//DIR1//DIR2/")).unwrap().is_dir());
    let dir1 = driver.search_by_path(&units("/DIR1")).unwrap();
    let dot = driver.search(&dir1, &units(".")).unwrap();
    assert!(dot.is_current_dir() && !dot.is_parent_dir());
    assert!(driver.search(&dir1, &units("..")).unwrap().is_parent_dir());
}

#[test]
fn listing_skips_volume_labels_but_lookup_finds_them() {
    let image = nested_image();
    let driver = image.mount();
    let mut state = FileState::new();
    let handle = driver.open_dir(&mut state, &units("/")).unwrap();
    let first = driver.read_dir(&mut state, handle, 0).unwrap().unwrap();
    assert_eq!(first.name(), &units("DIR1"));
    assert!(driver.read_dir(&mut state, handle, 1).unwrap().is_none());
    let label = driver.search_by_path(&units("/VOLUME")).unwrap();
    assert!(label.is_volume_label());
}

#[test]
fn corrupted_chain() {
    let mut image = Image::new(4);
    put_slots(&mut image, 3, &[short_slot(b"X          ", 0x20, 0, 0)]);
    put_slots(&mut image, 2, &[short_slot(b"BROKEN  BIN", 0x20, 4, 5000)]);
    image.set_fat(4, EOC);
    let driver = image.mount();
    assert_eq!(driver.bytes_per_cluster(), 2048);
    let mut state = FileState::new();
    let handle = driver.open(&mut state, &units("/BROKEN.BIN")).unwrap();
    let mut buffer = vec![0u8; 5000];
    assert_eq!(driver.read(&state, handle, &mut buffer, 0).unwrap_err(), Fat32Error::FileCorrupt);
    assert_eq!(driver.read(&state, handle, &mut buffer, 3000).unwrap_err(), Fat32Error::FileCorrupt);
    let mut small = vec![0u8; 2048];
    assert_eq!(driver.read(&state, handle, &mut small, 0).unwrap(), 2048);
    assert_eq!(errno_of(&Fat32Error::FileCorrupt), EIO);
}

#[test]
fn chain_into_bad_or_free_cluster() {
    let mut image = Image::new(1);
    put_slots(
        &mut image,
        2,
        &[
            short_slot(b"BAD     BIN", 0x20, 4, 1000),
            short_slot(b"FREE    BIN", 0x20, 6, 1000),
        ],
    );
    image.set_fat(4, 0xFFFF_FFF7);
    image.set_fat(6, 0);
    let driver = image.mount();
    let mut state = FileState::new();
    let bad = driver.open(&mut state, &units("/BAD.BIN")).unwrap();
    let free = driver.open(&mut state, &units("/FREE.BIN")).unwrap();
    let mut buffer = vec![0u8; 1000];
    assert_eq!(
        driver.read(&state, bad, &mut buffer, 0).unwrap_err(),
        Fat32Error::BadCluster(0x0FFF_FFF7)
    );
    assert_eq!(driver.read(&state, free, &mut buffer, 0).unwrap_err(), Fat32Error::FileCorrupt);
    assert_eq!(driver.read_fat(4).unwrap(), None);
    assert_eq!(driver.read_fat(6).unwrap_err(), Fat32Error::FileCorrupt);
    assert_eq!(driver.read_fat(2).unwrap(), None);
    assert_eq!(Fat::read(&driver, 4).unwrap(), Fat(0x0FFF_FFF7));
    assert!(Fat::read(&driver, 4).unwrap().is_bad());
    assert!(Fat::read(&driver, 4).unwrap().next(&driver).is_none());
    assert_eq!(
        Fat::read(&driver, 6).unwrap().next(&driver),
        Some(Err(Fat32Error::FileCorrupt))
    );
}

#[test]
fn chain_walk_ends_on_a_cycle() {
    let mut image = Image::new(1);
    put_slots(
        &mut image,
        2,
        &[
            short_slot(b"LOOP    BIN", 0x20, 4, 100),
            short_slot(b"THREE   BIN", 0x20, 10, 1200),
            short_slot(b"EMPTY   BIN", 0x20, 0, 0),
        ],
    );
    image.set_fat(4, 5);
    image.set_fat(5, 4);
    image.set_fat(10, 11);
    image.set_fat(11, 12);
    image.set_fat(12, EOC);
    let driver = image.mount();
    assert_eq!(driver.bpb.total_data_clusters(), 32);
    let looping = driver.search_by_path(&units("/LOOP.BIN")).unwrap();
    assert_eq!(looping.n_clusters(&driver).unwrap_err(), Fat32Error::FileCorrupt);
    let three = driver.search_by_path(&units("/THREE.BIN")).unwrap();
    assert_eq!(three.n_clusters(&driver).unwrap(), 3);
    let empty = driver.search_by_path(&units("/EMPTY.BIN")).unwrap();
    assert_eq!(empty.n_clusters(&driver).unwrap(), 0);
    let attr = file_attr_of(&driver, &three, 9, 1000, 100).unwrap();
    assert_eq!((attr.ino, attr.size, attr.blocks, attr.blksize), (9, 1200, 3, 512));
    assert_eq!((attr.perm, attr.nlink, attr.uid, attr.gid), (0o644, 1, 1000, 100));
    assert_eq!((attr.rdev, attr.flags), (0, 0));
    assert_eq!(attr.kind, FileKind::RegularFile);
    assert_eq!((attr.mtime, attr.ctime, attr.crtime), (1710509862, 1710509862, 1710509862));
    assert_eq!(attr.atime, 1710460800);
    let root = file_attr_of(&driver, &FatDirectory::root(&driver), 1, 0, 0).unwrap();
    assert_eq!((root.kind, root.blocks, root.size), (FileKind::Directory, 1, 0));
    assert_eq!((root.atime, root.mtime, root.crtime), (315532800, 315532800, 315532800));
}

#[test]
fn directory_chain_is_followed_and_cycles_end() {
    let mut image = Image::new(1);
    let mut first = Vec::new();
    for i in 0..16u8 {
        let mut name = *b"F00     TXT";
        name[1] = b'0' + i / 10;
        name[2] = b'0' + i % 10;
        first.push(short_slot(&name, 0x20, 0, 0));
    }
    put_slots(&mut image, 2, &first);
    put_slots(&mut image, 8, &[short_slot(b"LAST    TXT", 0x20, 0, 0)]);
    image.set_fat(2, 8);
    image.set_fat(8, EOC);
    let driver = image.mount();
    let mut state = FileState::new();
    let handle = driver.open_dir(&mut state, &units("/")).unwrap();
    assert_eq!(driver.read_dir(&mut state, handle, 16).unwrap().unwrap().name(), &units("LAST.TXT"));
    assert!(driver.read_dir(&mut state, handle, 17).unwrap().is_none());

    let mut full = Vec::new();
    for _ in 0..16 {
        full.push(short_slot(b"SAME    TXT", 0x20, 0, 0));
    }
    let mut cyclic = Image::new(1);
    put_slots(&mut cyclic, 2, &full);
    cyclic.set_fat(2, 2);
    let driver = cyclic.mount();
    assert_eq!(driver.search_by_path(&units("/NONE")).unwrap_err(), Fat32Error::FileCorrupt);
}

#[test]
fn read_is_clamped_to_the_file_size() {
    let image = readme_image();
    let driver = image.mount();
    let mut state = FileState::new();
    let handle = driver.open(&mut state, &units("/README.TXT")).unwrap();
    for offset in 0..20u64 {
        for want in [0usize, 1, 5, 13, 14, 600] {
            let mut buffer = vec![0u8; want];
            let got = driver.read(&state, handle, &mut buffer, offset).unwrap();
            let left = 13u64.saturating_sub(offset) as usize;
            assert_eq!(got, want.min(left));
            assert_eq!(&buffer[..got], &b"hello, world\n"[offset.min(13) as usize..][..got]);
        }
    }
}

#[test]
fn closed_handles_are_refused_until_reissued() {
    let image = readme_image();
    let driver = image.mount();
    let mut state = FileState::new();
    let file = driver.open(&mut state, &units("/README.TXT")).unwrap();
    let dir = driver.open_dir(&mut state, &units("/")).unwrap();
    assert_eq!((file, dir), (1, 2));
    let mut buffer = vec![0u8; 4];
    assert_eq!(driver.close(&mut state, dir).unwrap_err(), Fat32Error::InvalidFileHandle(dir));
    assert_eq!(driver.close_dir(&mut state, file).unwrap_err(), Fat32Error::InvalidFileHandle(file));
    assert!(driver.close(&mut state, file).is_ok());
    assert_eq!(
        driver.read(&state, file, &mut buffer, 0).unwrap_err(),
        Fat32Error::InvalidFileHandle(file)
    );
    assert_eq!(driver.close(&mut state, file).unwrap_err(), Fat32Error::InvalidFileHandle(file));
    assert_eq!(errno_of(&Fat32Error::InvalidFileHandle(file)), 9);
    let again = driver.open(&mut state, &units("/README.TXT")).unwrap();
    assert_eq!(again, file);
    assert_eq!(driver.read(&state, again, &mut buffer, 0).unwrap(), 4);
    assert!(driver.close_dir(&mut state, dir).is_ok());
    assert_eq!(
        driver.read_dir(&mut state, dir, 0).unwrap_err(),
        Fat32Error::InvalidFileHandle(dir)
    );
    assert_eq!(driver.open(&mut state, &units("/")).unwrap_err(), Fat32Error::IsDir);
    assert_eq!(driver.open_dir(&mut state, &units("/README.TXT")).unwrap_err(), Fat32Error::NotADir);
    assert_eq!(driver.open(&mut state, &units("/NONE")).unwrap_err(), Fat32Error::NotFound);
    assert!(state.has_free_handle());
}

#[test]
fn readdir_serves_a_snapshot() {
    let image = nested_image();
    let driver = image.mount();
    let mut state = FileState::new();
    let handle = driver.open_dir(&mut state, &units("/DIR1/DIR2")).unwrap();
    let a = driver.read_dir(&mut state, handle, 2).unwrap().unwrap();
    let b = driver.read_dir(&mut state, handle, 2).unwrap().unwrap();
    assert_eq!(a.name(), b.name());
    assert_eq!(a.name(), &units("FILE.BIN"));
    assert_eq!((a.cluster_num(), a.file_size()), (b.cluster_num(), b.file_size()));

    let mut changed = nested_image();
    put_slots(&mut changed, 4, &[short_slot(b"OTHER   BIN", 0x20, 5, 3)]);
    let later = changed.mount();
    let c = later.read_dir(&mut state, handle, 0).unwrap().unwrap();
    assert_eq!(c.name(), &units("."));
    let fresh = later.open_dir(&mut state, &units("/DIR1/DIR2")).unwrap();
    assert_eq!(later.read_dir(&mut state, fresh, 0).unwrap().unwrap().name(), &units("OTHER.BIN"));
}

#[test]
fn truncated_image_is_an_io_error() {
    assert_eq!(
        Driver::new(Drive::from_bytes(vec![0u8; 100])).err(),
        Some(Fat32Error::IOError)
    );
    let mut image = readme_image();
    let cut = image.cluster_at(3) + 5;
    image.bytes.truncate(cut);
    let driver = image.mount();
    let mut state = FileState::new();
    let handle = driver.open(&mut state, &units("/README.TXT")).unwrap();
    let mut buffer = vec![0u8; 13];
    assert_eq!(driver.read(&state, handle, &mut buffer, 0).unwrap_err(), Fat32Error::IOError);
    let mut sector = vec![0u8; 512];
    assert!(driver.read_sector(0, 0, &mut sector).is_ok());
    assert_eq!(&sector[..], &image.bytes[..512]);
    assert_eq!(driver.read_sector(1 << 60, 0, &mut sector).unwrap_err(), Fat32Error::IOError);
    assert_eq!(driver.read_cluster(1, 0, &mut sector).unwrap_err(), Fat32Error::FileCorrupt);
    assert_eq!(
        Driver::new(Drive::from_bytes(vec![0u8; 512])).err(),
        Some(Fat32Error::InvalidBPB(BpbDefect::JumpInstruction))
    );
}

#[test]
fn primitive_reads() {
    let image = readme_image();
    let driver = image.mount();
    assert_eq!(cluster_start_sector(&driver, 2), 6);
    assert_eq!(cluster_start_sector(&driver, 3), 7);
    let mut word = vec![0u8; 5];
    assert!(read_cluster(&driver, 3, 7, &mut word).is_ok());
    assert_eq!(&word[..], b"world");
    assert!(read_sector(&driver, 7, 0, &mut word).is_ok());
    assert_eq!(&word[..], b"hello");
    let past = image.bytes.len() as u64 / 512;
    assert_eq!(read_sector(&driver, past, 0, &mut word).unwrap_err(), Fat32Error::IOError);
    assert_eq!(read_cluster(&driver, 0, 0, &mut word).unwrap_err(), Fat32Error::FileCorrupt);
    assert_eq!(&word[..], b"hello");
    assert_eq!(driver.read_fat_entry(0).unwrap(), 0x0FFF_FFF8);
    assert_eq!(driver.next_cluster(3).unwrap_err(), Fat32Error::FileCorrupt);
    assert_eq!(driver.read_fat_entry(1 << 30).unwrap_err(), Fat32Error::IOError);
    let end = Fat::read(&driver, 3).unwrap();
    assert!(end.is_eoc() && !end.is_free() && !end.is_reserved() && !end.is_bad());
    assert_eq!(end.value(), EOC);
    assert!(Fat(0).is_free() && Fat(1).is_reserved());
}

#[test]
fn records_and_their_kinds() {
    let image = nested_image();
    let driver = image.mount();
    let root = FatDirectory::root(&driver);
    assert_eq!(root.name(), &units("/"));
    assert_eq!((root.cluster_num(), root.file_size()), (2, 0));
    assert!(root.is_dir() && !root.is_file() && !root.is_deleted() && !root.is_volume_label());
    assert!(root.matches_attr(0x10) && !root.matches_attr(0x11));
    assert_eq!(file_type_of(&root), FileKind::Directory);
    let listed = list_directory(&driver, &driver.search_by_path(&units("/DIR1")).unwrap()).unwrap();
    let names: Vec<String> = listed.iter().map(|d| String::from_utf16_lossy(d.name())).collect();
    assert_eq!(names, vec![".", "..", "DIR2"]);
    let file = driver.search_by_path(&units("/DIR1/DIR2/FILE.BIN")).unwrap();
    assert_eq!(file_type_of(&file), FileKind::RegularFile);
    assert_eq!(file.clone().name(), file.name());
    assert!(File::new(root.clone()).is_err());
    let opened = File::new(file.clone()).unwrap();
    let mut buffer = vec![0u8; 2];
    assert_eq!(opened.read(&driver, 1, &mut buffer).unwrap(), 2);
    assert_eq!(&buffer[..], b"bc");
    let state = DirectoryState::new(root);
    assert!(state.files_cached.is_none());
    assert_eq!(driver.files(&state.directory).cluster, 2);
}
