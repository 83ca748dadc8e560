use crate::boot::{lemma_mul_bound, BPB};
use crate::bytes::{le32, read_le32};
use crate::directory::{
    find_record, lemma_scan_advances, root_record, scan, start_cursor, FatDirectory, Files,
    RecordView,
};
use crate::error::{Fat32Error, Fat32Result, FileHandle};
use crate::file::{file_read, record_at, FileState};
use crate::io::{after_read, read_count, Drive};
use vstd::arithmetic::div_mod::lemma_fundamental_div_mod;
use vstd::prelude::*;

verus! {

/// The low 28 bits of a FAT entry: the part that carries the value.
pub open spec fn fat_value(raw: u32) -> u32 {
    (raw % 0x1000_0000) as u32
}

pub open spec fn fat_is_eoc_spec(value: u32) -> bool {
    fat_value(value) >= 0x0FFF_FFF8
}

pub open spec fn fat_is_free_spec(value: u32) -> bool {
    fat_value(value) == 0
}

pub open spec fn fat_is_bad_spec(value: u32) -> bool {
    fat_value(value) == 0x0FFF_FFF7
}

pub open spec fn fat_is_reserved_spec(value: u32) -> bool {
    fat_value(value) == 1
}

pub open spec fn fat_is_in_chain_spec(value: u32) -> bool {
    2 <= fat_value(value) <= 0x0FFF_FFF6
}

/// Masks a raw entry to the 28 bits that count.
pub fn fat_masked(raw: u32) -> (v: u32)
    ensures
        v == fat_value(raw),
        v <= 0x0FFF_FFFF,
{
    assert(raw & 0x0FFF_FFFF == raw % 0x1000_0000) by (bit_vector);
    raw & 0x0FFF_FFFF
}

/// The entry marks the end of a chain.
#[verifier::when_used_as_spec(fat_is_eoc_spec)]
pub fn fat_is_eoc(value: u32) -> (r: bool)
    ensures
        r == fat_is_eoc_spec(value),
{
    fat_masked(value) >= 0x0FFF_FFF8
}

/// The entry marks a cluster that no file uses.
#[verifier::when_used_as_spec(fat_is_free_spec)]
pub fn fat_is_free(value: u32) -> (r: bool)
    ensures
        r == fat_is_free_spec(value),
{
    fat_masked(value) == 0
}

/// The entry marks a cluster that must not be used.
#[verifier::when_used_as_spec(fat_is_bad_spec)]
pub fn fat_is_bad(value: u32) -> (r: bool)
    ensures
        r == fat_is_bad_spec(value),
{
    fat_masked(value) == 0x0FFF_FFF7
}

/// The entry holds the reserved value 1.
#[verifier::when_used_as_spec(fat_is_reserved_spec)]
pub fn fat_is_reserved(value: u32) -> (r: bool)
    ensures
        r == fat_is_reserved_spec(value),
{
    fat_masked(value) == 1
}

/// The entry names the next cluster of a chain.
#[verifier::when_used_as_spec(fat_is_in_chain_spec)]
pub fn fat_is_in_chain(value: u32) -> (r: bool)
    ensures
        r == fat_is_in_chain_spec(value),
{
    let v: u32 = fat_masked(value);
    2 <= v && v <= 0x0FFF_FFF6
}

/// Every 32-bit value falls in exactly one of the five classes.
pub proof fn lemma_classification_total(value: u32)
    ensures
        fat_is_free(value) || fat_is_reserved(value) || fat_is_in_chain(value) || fat_is_bad(value)
            || fat_is_eoc(value),
        !(fat_is_free(value) && fat_is_reserved(value)),
        !(fat_is_free(value) && fat_is_in_chain(value)),
        !(fat_is_free(value) && fat_is_bad(value)),
        !(fat_is_free(value) && fat_is_eoc(value)),
        !(fat_is_reserved(value) && fat_is_in_chain(value)),
        !(fat_is_reserved(value) && fat_is_bad(value)),
        !(fat_is_reserved(value) && fat_is_eoc(value)),
        !(fat_is_in_chain(value) && fat_is_bad(value)),
        !(fat_is_in_chain(value) && fat_is_eoc(value)),
        !(fat_is_bad(value) && fat_is_eoc(value)),
{
}

/// A positional read of `len` bytes at `offset` comes back whole from a
/// device of `size` bytes.
pub open spec fn readable(size: nat, offset: int, len: nat) -> bool {
    0 <= offset <= i64::MAX && read_count(size, offset, len) == len
}

/// The `len` bytes of the image that start at `offset`.
pub open spec fn span(image: Seq<u8>, offset: int, len: nat) -> Seq<u8> {
    if len == 0 {
        Seq::empty()
    } else {
        image.subrange(offset, offset + len)
    }
}

/// What a buffer holds after a read at `offset` that asked to fill it,
/// whether the read came back whole or short: the device refuses an offset
/// that it cannot address and then delivers nothing.
pub open spec fn delivered(image: Seq<u8>, offset: int, buf: Seq<u8>) -> Seq<u8> {
    if 0 <= offset <= i64::MAX {
        after_read(image, offset, buf)
    } else {
        buf
    }
}

/// The byte offset of byte `byte_offset` of cluster `n`.
pub open spec fn cluster_offset(bpb: BPB, n: int, byte_offset: int) -> int {
    bpb.cluster_start_sector_spec(n) * bpb.bpb_bytes_per_sec + byte_offset
}

/// What reading `len` bytes at `byte_offset` of cluster `n` gives. Cluster
/// numbers below 2 name no cluster.
pub open spec fn cluster_span(image: Seq<u8>, bpb: BPB, n: u32, byte_offset: int, len: nat)
    -> Fat32Result<Seq<u8>> {
    if n < 2 {
        Err(Fat32Error::FileCorrupt)
    } else if readable(image.len(), cluster_offset(bpb, n as int, byte_offset), len) {
        Ok(span(image, cluster_offset(bpb, n as int, byte_offset), len))
    } else {
        Err(Fat32Error::IOError)
    }
}

/// The byte offset of the FAT entry of cluster `n`.
pub open spec fn fat_entry_offset(bpb: BPB, n: int) -> int {
    bpb.bpb_rsvd_sec_cnt * bpb.bpb_bytes_per_sec + n * 4
}

/// The masked FAT entry of cluster `n`, where the image holds it.
pub open spec fn fat_entry(image: Seq<u8>, bpb: BPB, n: u32) -> Option<u32> {
    if readable(image.len(), fat_entry_offset(bpb, n as int), 4) {
        Some(fat_value(le32(image, fat_entry_offset(bpb, n as int))))
    } else {
        None
    }
}

/// One step along a chain as a walker sees it: the next cluster, or `None`
/// at an end-of-chain or bad-cluster mark. A free or reserved entry in a
/// chain is corruption.
pub open spec fn fat_link(image: Seq<u8>, bpb: BPB, n: u32) -> Fat32Result<Option<u32>> {
    match fat_entry(image, bpb, n) {
        None => Err(Fat32Error::IOError),
        Some(v) => if fat_is_eoc(v) || fat_is_bad(v) {
            Ok(None)
        } else if v < 2 {
            Err(Fat32Error::FileCorrupt)
        } else {
            Ok(Some(v))
        },
    }
}

/// The cluster that follows `n`, for a reader that still needs bytes: here
/// the end of the chain is corruption, and a bad-cluster mark is reported
/// with its value.
pub open spec fn fat_successor(image: Seq<u8>, bpb: BPB, n: u32) -> Fat32Result<u32> {
    match fat_entry(image, bpb, n) {
        None => Err(Fat32Error::IOError),
        Some(v) => if fat_is_bad(v) {
            Err(Fat32Error::BadCluster(v))
        } else if fat_is_eoc(v) || v < 2 {
            Err(Fat32Error::FileCorrupt)
        } else {
            Ok(v)
        },
    }
}

/// A mounted volume: the device and its validated parameter block.
pub struct Driver {
    pub drive: Drive,
    pub bpb: BPB,
}

impl Driver {
    /// The parameter block passed validation.
    pub open spec fn wf(&self) -> bool {
        self.bpb.valid()
    }

    /// The bytes of the device.
    pub open spec fn image(&self) -> Seq<u8> {
        self.drive@
    }

    /// Mounts the device: reads and validates its boot sector.
    pub fn new(drive: Drive) -> (r: Fat32Result<Driver>)
        ensures
            drive@.len() < 512 ==> r == Err::<Driver, Fat32Error>(Fat32Error::IOError),
            drive@.len() >= 512 ==> (r is Ok <==> crate::boot::sector_defect(
                drive@.subrange(0, 512),
            ) is None),
            r matches Ok(d) ==> d.wf() && d.drive@ == drive@ && d.bpb.decodes(
                drive@.subrange(0, 512),
            ),
            drive@.len() >= 512 ==> (r matches Err(e) ==> crate::boot::sector_defect(
                drive@.subrange(0, 512),
            ) == Some(e->InvalidBPB_0) && e is InvalidBPB),
    {
        match BPB::read_from(&drive) {
            Ok(bpb) => Ok(Driver { drive, bpb }),
            Err(e) => Err(e),
        }
    }

    pub fn bytes_per_cluster(&self) -> (r: u64)
        ensures
            r == self.bpb.bytes_per_cluster_spec(),
    {
        self.bpb.bytes_per_cluster()
    }

    /// Fills `buffer` with the bytes at `byte_offset` of sector `n`. A read
    /// that the device cannot deliver whole is an I/O error.
    pub fn read_sector(&self, n: u64, byte_offset: u64, buffer: &mut Vec<u8>) -> (r: Fat32Result<
        (),
    >)
        ensures
            final(buffer)@.len() == old(buffer)@.len(),
            r is Ok <==> readable(
                self.image().len(),
                self.bpb.bpb_bytes_per_sec * n + byte_offset,
                old(buffer)@.len(),
            ),
            r is Ok ==> final(buffer)@ == span(
                self.image(),
                self.bpb.bpb_bytes_per_sec * n + byte_offset,
                old(buffer)@.len(),
            ),
            r is Err ==> r == Err::<(), Fat32Error>(Fat32Error::IOError),
            final(buffer)@ == delivered(
                self.image(),
                self.bpb.bpb_bytes_per_sec * n + byte_offset,
                old(buffer)@,
            ),
    {
        proof {
            lemma_mul_bound(
                self.bpb.bpb_bytes_per_sec as int,
                n as int,
                0xFFFF,
                0xFFFF_FFFF_FFFF_FFFF,
            );
        }
        let offset: u128 = self.bpb.bpb_bytes_per_sec as u128 * n as u128 + byte_offset as u128;
        if offset > 0x7FFF_FFFF_FFFF_FFFF {
            return Err(Fat32Error::IOError);
        }
        let want: usize = buffer.len();
        match self.drive.read(buffer, offset as i64) {
            Err(e) => Err(Fat32Error::IOError),
            Ok(got) => {
                if got < want {
                    Err(Fat32Error::IOError)
                } else {
                    assert(buffer@ =~= span(self.image(), offset as int, want as nat));
                    Ok(())
                }
            },
        }
    }

    /// Fills `buffer` with the bytes at `byte_offset` of cluster `n`.
    pub fn read_cluster(&self, n: u32, byte_offset: u64, buffer: &mut Vec<u8>) -> (r: Fat32Result<
        (),
    >)
        requires
            self.wf(),
        ensures
            final(buffer)@.len() == old(buffer)@.len(),
            match cluster_span(
                self.image(),
                self.bpb,
                n,
                byte_offset as int,
                old(buffer)@.len(),
            ) {
                Ok(data) => r is Ok && final(buffer)@ == data,
                Err(e) => r == Err::<(), Fat32Error>(e),
            },
            final(buffer)@ == if n < 2 {
                old(buffer)@
            } else {
                delivered(
                    self.image(),
                    cluster_offset(self.bpb, n as int, byte_offset as int),
                    old(buffer)@,
                )
            },
    {
        if n < 2 {
            return Err(Fat32Error::FileCorrupt);
        }
        proof {
            self.bpb.lemma_valid_geometry();
        }
        let start_sector: u64 = self.bpb.cluster_start_sector(n);
        self.read_sector(start_sector, byte_offset, buffer)
    }

    /// The raw FAT entry of cluster `n`, masked to 28 bits.
    pub fn read_fat_entry(&self, n: u32) -> (r: Fat32Result<u32>)
        requires
            self.wf(),
        ensures
            r == match fat_entry(self.image(), self.bpb, n) {
                Some(v) => Ok::<u32, Fat32Error>(v),
                None => Err::<u32, Fat32Error>(Fat32Error::IOError),
            },
    {
        proof {
            self.bpb.lemma_valid_geometry();
        }
        let bps: u64 = self.bpb.bytes_per_sector();
        let sector: u64 = self.bpb.bpb_rsvd_sec_cnt as u64 + (n as u64 * 4) / bps;
        let entry_offset: u64 = (n as u64 * 4) % bps;
        proof {
            lemma_fundamental_div_mod(n as int * 4, bps as int);
            assert(bps * sector == bps * self.bpb.bpb_rsvd_sec_cnt + bps * ((n as int * 4) / (
            bps as int))) by (nonlinear_arith)
                requires
                    sector == self.bpb.bpb_rsvd_sec_cnt + (n as int * 4) / (bps as int),
            ;
            assert(bps * self.bpb.bpb_rsvd_sec_cnt == self.bpb.bpb_rsvd_sec_cnt * bps)
                by (nonlinear_arith);
            assert(bps * sector + entry_offset == fat_entry_offset(self.bpb, n as int));
        }
        let mut bytes: Vec<u8> = vec![0u8; 4];
        match self.read_sector(sector, entry_offset, &mut bytes) {
            Err(e) => Err(e),
            Ok(()) => {
                let raw: u32 = read_le32(&bytes, 0);
                Ok(fat_masked(raw))
            },
        }
    }

    /// Returns the next cluster number according to the FAT, or `None` where
    /// the chain ends.
    pub fn read_fat(&self, cluster_num: u32) -> (r: Fat32Result<Option<u32>>)
        requires
            self.wf(),
        ensures
            r == fat_link(self.image(), self.bpb, cluster_num),
    {
        let v: u32 = self.read_fat_entry(cluster_num)?;
        if v >= 0x0FFF_FFF7 {
            Ok(None)
        } else if v < 2 {
            Err(Fat32Error::FileCorrupt)
        } else {
            Ok(Some(v))
        }
    }

    /// The cluster that follows `cluster_num`, for a reader that needs it.
    pub fn next_cluster(&self, cluster_num: u32) -> (r: Fat32Result<u32>)
        requires
            self.wf(),
        ensures
            r == fat_successor(self.image(), self.bpb, cluster_num),
    {
        let v: u32 = self.read_fat_entry(cluster_num)?;
        if v == 0x0FFF_FFF7 {
            Err(Fat32Error::BadCluster(v))
        } else if v >= 0x0FFF_FFF8 || v < 2 {
            Err(Fat32Error::FileCorrupt)
        } else {
            Ok(v)
        }
    }

    /// A cursor over the records of `directory`.
    pub fn files(&self, directory: &FatDirectory) -> (files: Files)
        requires
            self.wf(),
        ensures
            files == start_cursor(self.bpb, directory@.cluster_num()),
    {
        Files::new(self, directory)
    }

    /// The first record of `directory` that bears `name`, compared unit by
    /// unit.
    pub fn search(&self, directory: &FatDirectory, name: &Vec<u16>) -> (r: Fat32Result<
        FatDirectory,
    >)
        requires
            self.wf(),
        ensures
            match find_record(
                self.image(),
                self.bpb,
                start_cursor(self.bpb, directory@.cluster_num()),
                name@,
            ) {
                Ok(rec) => r matches Ok(d) && d@ == rec,
                Err(e) => r matches Err(f) && f == e,
            },
    {
        let mut files = self.files(directory);
        let ghost start = files;
        loop
            invariant
                self.wf(),
                start == start_cursor(self.bpb, directory@.cluster_num()),
                find_record(self.image(), self.bpb, start, name@) == find_record(
                    self.image(),
                    self.bpb,
                    files,
                    name@,
                ),
            decreases files.fuel, crate::directory::slots_left(self.bpb, files),
        {
            let ghost before = files;
            proof {
                lemma_scan_advances(self.image(), self.bpb, files, Seq::empty());
            }
            let step = files.next(self);
            proof {
                let sc = scan(self.image(), self.bpb, before, Seq::empty());
                assert(files == sc.1);
                assert(find_record(self.image(), self.bpb, before, name@) == match sc.0 {
                    Err(e) => Err::<RecordView, Fat32Error>(e),
                    Ok(None) => Err(Fat32Error::NotFound),
                    Ok(Some(rec)) => if rec.name() == name@ {
                        Ok(rec)
                    } else if crate::directory::advances(self.bpb, before, sc.1) {
                        find_record(self.image(), self.bpb, sc.1, name@)
                    } else {
                        Err(Fat32Error::NotFound)
                    },
                });
            }
            match step {
                Err(e) => {
                    return Err(e);
                },
                Ok(None) => {
                    return Err(Fat32Error::NotFound);
                },
                Ok(Some(file)) => {
                    if units_equal(file.name(), name) {
                        return Ok(file);
                    }
                },
            }
        }
    }

    /// Resolves a path from the root, one component after the other.
    /// Slashes separate components; empty components count for nothing, so
    /// the empty path and `/` both name the root.
    pub fn search_by_path(&self, path: &Vec<u16>) -> (r: Fat32Result<FatDirectory>)
        requires
            self.wf(),
        ensures
            match resolve(
                self.image(),
                self.bpb,
                root_record(self.bpb.bpb_root_clus),
                path@,
                0,
            ) {
                Ok(rec) => r matches Ok(d) && d@ == rec,
                Err(e) => r matches Err(f) && f == e,
            },
    {
        let mut current = FatDirectory::root(self);
        let mut i: usize = 0;
        while i < path.len()
            invariant
                self.wf(),
                i <= path.len(),
                resolve(self.image(), self.bpb, root_record(self.bpb.bpb_root_clus), path@, 0)
                    == resolve(self.image(), self.bpb, current@, path@, i as int),
            decreases path.len() - i,
        {
            if path[i] == 0x2F {
                i += 1;
            } else {
                let mut name: Vec<u16> = Vec::new();
                name.push(path[i]);
                let mut j: usize = i + 1;
                assert(name@ =~= path@.subrange(i as int, j as int));
                while j < path.len() && path[j] != 0x2F
                    invariant
                        i < j <= path.len(),
                        name@ == path@.subrange(i as int, j as int),
                        j + name_length(path@, j as int) == i + 1 + name_length(path@, i + 1),
                    decreases path.len() - j,
                {
                    name.push(path[j]);
                    j += 1;
                    assert(name@ =~= path@.subrange(i as int, j as int));
                }
                proof {
                    lemma_name_length_bounded(path@, j as int);
                }
                match self.search(&current, &name) {
                    Err(e) => {
                        return Err(e);
                    },
                    Ok(found) => {
                        current = found;
                    },
                }
                i = j;
            }
        }
        Ok(current)
    }

    /// Resolves `path` and opens the directory it names. The handle table
    /// is the caller's, who guards it for all threads.
    pub fn open_dir(&self, state: &mut FileState, path: &Vec<u16>) -> (r: Fat32Result<FileHandle>)
        requires
            self.wf(),
            old(state).wf(),
            old(state).can_allocate(),
        ensures
            final(state).wf(),
            match resolve(self.image(), self.bpb, root_record(self.bpb.bpb_root_clus), path@, 0) {
                Err(e) => (r matches Err(f) && f == e) && old(state).unchanged(final(state)),
                Ok(rec) => if rec.is_dir() {
                    r == Ok::<FileHandle, Fat32Error>(old(state).next_handle())
                        && old(state).dir_opened(final(state), rec, old(state).next_handle())
                } else {
                    r == Err::<FileHandle, Fat32Error>(Fat32Error::NotADir)
                        && old(state).unchanged(final(state))
                },
            },
    {
        match self.search_by_path(path) {
            Err(e) => Err(e),
            Ok(directory) => state.open_dir(&directory),
        }
    }

    /// The record at `offset` of an open directory; see
    /// `FileState::read_dir`.
    pub fn read_dir(&self, state: &mut FileState, handle: FileHandle, offset: usize) -> (r:
        Fat32Result<Option<FatDirectory>>)
        requires
            self.wf(),
            old(state).wf(),
        ensures
            final(state).wf(),
            !old(state).dirs@.contains_key(handle) ==> r == Err::<
                Option<FatDirectory>,
                Fat32Error,
            >(Fat32Error::InvalidFileHandle(handle)) && old(state).unchanged(final(state)),
            old(state).dirs@.contains_key(handle) ==> match old(state).dirs@[handle].listing(
                self.image(),
                self.bpb,
            ) {
                Err(e) => (r matches Err(f) && f == e) && old(state).unchanged(final(state)),
                Ok(listing) => old(state).dir_listed(final(state), handle, listing)
                    && match record_at(listing, offset as nat) {
                    Some(rec) => r matches Ok(Some(d)) && d@ == rec,
                    None => r matches Ok(None),
                },
            },
    {
        state.read_dir(self, handle, offset)
    }

    /// Closes a directory handle.
    pub fn close_dir(&self, state: &mut FileState, handle: FileHandle) -> (r: Fat32Result<()>)
        requires
            old(state).wf(),
        ensures
            final(state).wf(),
            old(state).dirs@.contains_key(handle) ==> r is Ok && old(state).dir_closed(
                final(state),
                handle,
            ),
            !old(state).dirs@.contains_key(handle) ==> r == Err::<(), Fat32Error>(
                Fat32Error::InvalidFileHandle(handle),
            ) && old(state).unchanged(final(state)),
    {
        state.close_dir(handle)
    }

    /// Resolves `path` and opens the file it names.
    pub fn open(&self, state: &mut FileState, path: &Vec<u16>) -> (r: Fat32Result<FileHandle>)
        requires
            self.wf(),
            old(state).wf(),
            old(state).can_allocate(),
        ensures
            final(state).wf(),
            match resolve(self.image(), self.bpb, root_record(self.bpb.bpb_root_clus), path@, 0) {
                Err(e) => (r matches Err(f) && f == e) && old(state).unchanged(final(state)),
                Ok(rec) => if !rec.is_dir() {
                    r == Ok::<FileHandle, Fat32Error>(old(state).next_handle())
                        && old(state).file_opened(final(state), rec, old(state).next_handle())
                } else {
                    r == Err::<FileHandle, Fat32Error>(Fat32Error::IsDir)
                        && old(state).unchanged(final(state))
                },
            },
    {
        match self.search_by_path(path) {
            Err(e) => Err(e),
            Ok(file) => state.open(&file),
        }
    }

    /// Closes a file handle.
    pub fn close(&self, state: &mut FileState, handle: FileHandle) -> (r: Fat32Result<()>)
        requires
            old(state).wf(),
        ensures
            final(state).wf(),
            old(state).files@.contains_key(handle) ==> r is Ok && old(state).file_closed(
                final(state),
                handle,
            ),
            !old(state).files@.contains_key(handle) ==> r == Err::<(), Fat32Error>(
                Fat32Error::InvalidFileHandle(handle),
            ) && old(state).unchanged(final(state)),
    {
        state.close(handle)
    }

    /// Reads from an open file into the front of `buffer`; see
    /// `File::read`.
    pub fn read(
        &self,
        state: &FileState,
        handle: FileHandle,
        buffer: &mut Vec<u8>,
        byte_offset: u64,
    ) -> (r: Fat32Result<usize>)
        requires
            self.wf(),
        ensures
            final(buffer)@.len() == old(buffer)@.len(),
            !state.files@.contains_key(handle) ==> r == Err::<usize, Fat32Error>(
                Fat32Error::InvalidFileHandle(handle),
            ) && final(buffer)@ == old(buffer)@,
            state.files@.contains_key(handle) ==> match file_read(
                self.image(),
                self.bpb,
                state.files@[handle].directory@.cluster_num(),
                state.files@[handle].directory@.entry.file_size as nat,
                byte_offset as nat,
                old(buffer)@.len(),
            ) {
                Ok(data) => r == Ok::<usize, Fat32Error>(data.len() as usize) && data.len()
                    <= old(buffer)@.len() && final(buffer)@ == data + old(buffer)@.subrange(
                    data.len() as int,
                    old(buffer)@.len() as int,
                ),
                Err(e) => r == Err::<usize, Fat32Error>(e),
            },
    {
        state.read(self, handle, buffer, byte_offset)
    }
}

/// Whether two names hold the same units.
pub fn units_equal(a: &Vec<u16>, b: &Vec<u16>) -> (r: bool)
    ensures
        r == (a@ == b@),
{
    if a.len() != b.len() {
        return false;
    }
    let mut i: usize = 0;
    while i < a.len()
        invariant
            i <= a.len(),
            a.len() == b.len(),
            a@.subrange(0, i as int) == b@.subrange(0, i as int),
        decreases a.len() - i,
    {
        if a[i] != b[i] {
            return false;
        }
        i += 1;
        assert(a@.subrange(0, i as int) =~= a@.subrange(0, i - 1).push(a@[i - 1]));
        assert(b@.subrange(0, i as int) =~= b@.subrange(0, i - 1).push(b@[i - 1]));
    }
    assert(a@ =~= a@.subrange(0, i as int));
    assert(b@ =~= b@.subrange(0, i as int));
    true
}

/// How many units from index `from` on come before the next slash or the
/// end of the path.
pub open spec fn name_length(path: Seq<u16>, from: int) -> nat
    decreases path.len() - from,
{
    if from < 0 || from >= path.len() || path[from] == 0x2F {
        0
    } else {
        1 + name_length(path, from + 1)
    }
}

/// How many units of the path lie at index `from` and beyond.
pub open spec fn units_after(path: Seq<u16>, from: int) -> nat {
    if from < path.len() {
        (path.len() - from) as nat
    } else {
        0
    }
}

/// A component ends within the path.
pub proof fn lemma_name_length_bounded(path: Seq<u16>, from: int)
    requires
        0 <= from <= path.len(),
    ensures
        from + name_length(path, from) <= path.len(),
    decreases path.len() - from,
{
    if from < path.len() && path[from] != 0x2F {
        lemma_name_length_bounded(path, from + 1);
    }
}

/// The record that the path from index `from` on names, starting in `dir`:
/// each component is looked up in the record found for the one before.
pub open spec fn resolve(image: Seq<u8>, bpb: BPB, dir: RecordView, path: Seq<u16>, from: int)
    -> Fat32Result<RecordView>
    decreases units_after(path, from),
{
    if from < 0 || from >= path.len() {
        Ok(dir)
    } else if path[from] == 0x2F {
        resolve(image, bpb, dir, path, from + 1)
    } else {
        let end = from + 1 + name_length(path, from + 1);
        match find_record(
            image,
            bpb,
            start_cursor(bpb, dir.cluster_num()),
            path.subrange(from, end),
        ) {
            Err(e) => Err(e),
            Ok(rec) => resolve(image, bpb, rec, path, end),
        }
    }
}

} // verus!
