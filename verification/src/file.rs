use crate::boot::BPB;
use crate::directory::{
    lemma_scan_advances, record_views, scan, slots_left, start_cursor, visible_records,
    FatDirectory, RecordView,
};
use crate::driver::{cluster_offset, cluster_span, fat_successor, Driver};
use crate::error::{Fat32Error, Fat32Result, FileHandle};
use std::collections::HashMap;
use vstd::arithmetic::div_mod::{lemma_fundamental_div_mod, lemma_fundamental_div_mod_converse};
use vstd::prelude::*;

verus! {

broadcast use vstd::std_specs::hash::group_hash_axioms;

/// How many bytes a read of `want` bytes at `offset` gives from a file of
/// `size` bytes: none at or past the end, and never more than are left.
pub open spec fn clamp_len(size: nat, offset: nat, want: nat) -> nat {
    if offset >= size {
        0
    } else if want <= size - offset {
        want
    } else {
        (size - offset) as nat
    }
}

/// The cluster reached from `c` after `k` links. A chain that ends before
/// that is corrupt.
pub open spec fn skip_chain(image: Seq<u8>, bpb: BPB, c: u32, k: nat) -> Fat32Result<u32>
    decreases k,
{
    if k == 0 {
        Ok(c)
    } else {
        match fat_successor(image, bpb, c) {
            Err(e) => Err(e),
            Ok(next) => skip_chain(image, bpb, next, (k - 1) as nat),
        }
    }
}

/// The `remaining` bytes of a chain that start at byte `intra` of cluster
/// `c`: what is left of that cluster, then the clusters that follow it.
/// The chain is followed only while bytes are still owed.
#[verifier::opaque]
pub open spec fn stream_bytes(image: Seq<u8>, bpb: BPB, c: u32, intra: nat, remaining: nat)
    -> Fat32Result<Seq<u8>>
    decreases remaining,
{
    let room = bpb.bytes_per_cluster_spec() - intra;
    let take = if remaining <= room {
        remaining
    } else {
        room as nat
    };
    if remaining == 0 {
        Ok(Seq::empty())
    } else if room <= 0 {
        Err(Fat32Error::FileCorrupt)
    } else {
        match cluster_span(image, bpb, c, intra as int, take) {
            Err(e) => Err(e),
            Ok(data) => if remaining == take {
                Ok(data)
            } else {
                match fat_successor(image, bpb, c) {
                    Err(e) => Err(e),
                    Ok(next) => match stream_bytes(
                        image,
                        bpb,
                        next,
                        0,
                        (remaining - take) as nat,
                    ) {
                        Err(e) => Err(e),
                        Ok(rest) => Ok(data + rest),
                    },
                }
            },
        }
    }
}

/// The bytes that a read of `want` bytes at `offset` gives from the file of
/// `size` bytes whose chain starts at `c0`.
pub open spec fn file_read(image: Seq<u8>, bpb: BPB, c0: u32, size: nat, offset: nat, want: nat)
    -> Fat32Result<Seq<u8>> {
    if offset >= size {
        Ok(Seq::empty())
    } else {
        match skip_chain(image, bpb, c0, offset / (bpb.bytes_per_cluster_spec() as nat)) {
            Err(e) => Err(e),
            Ok(c) => stream_bytes(
                image,
                bpb,
                c,
                offset % (bpb.bytes_per_cluster_spec() as nat),
                clamp_len(size, offset, want),
            ),
        }
    }
}

/// One step of a stream: the part that lies in cluster `c`, then the rest.
pub proof fn lemma_stream_step(image: Seq<u8>, bpb: BPB, c: u32, intra: nat, remaining: nat)
    requires
        remaining > 0,
        intra < bpb.bytes_per_cluster_spec(),
    ensures
        ({
            let room = (bpb.bytes_per_cluster_spec() - intra) as nat;
            let take = if remaining <= room {
                remaining
            } else {
                room
            };
            stream_bytes(image, bpb, c, intra, remaining) == match cluster_span(
                image,
                bpb,
                c,
                intra as int,
                take,
            ) {
                Err(e) => Err::<Seq<u8>, Fat32Error>(e),
                Ok(data) => if remaining == take {
                    Ok(data)
                } else {
                    match fat_successor(image, bpb, c) {
                        Err(e) => Err(e),
                        Ok(next) => match stream_bytes(
                            image,
                            bpb,
                            next,
                            0,
                            (remaining - take) as nat,
                        ) {
                            Err(e) => Err(e),
                            Ok(rest) => Ok(data + rest),
                        },
                    }
                },
            }
        }),
{
    reveal(stream_bytes);
}

/// A stream of no bytes is empty and touches nothing.
pub proof fn lemma_stream_done(image: Seq<u8>, bpb: BPB, c: u32, intra: nat)
    ensures
        stream_bytes(image, bpb, c, intra, 0) == Ok::<Seq<u8>, Fat32Error>(Seq::empty()),
{
    reveal(stream_bytes);
}

/// A stream that succeeds gives exactly the bytes asked for.
pub proof fn lemma_stream_length(image: Seq<u8>, bpb: BPB, c: u32, intra: nat, remaining: nat)
    ensures
        stream_bytes(image, bpb, c, intra, remaining) matches Ok(data) ==> data.len() == remaining,
    decreases remaining,
{
    reveal(stream_bytes);
    let room = bpb.bytes_per_cluster_spec() - intra;
    if remaining > 0 && room > 0 {
        let take = if remaining <= room {
            remaining
        } else {
            room as nat
        };
        if remaining != take {
            match fat_successor(image, bpb, c) {
                Ok(next) => lemma_stream_length(image, bpb, next, 0, (remaining - take) as nat),
                Err(e) => {},
            }
        }
    }
}

/// A read never gives more than was asked for, nor a byte from a position
/// at or past the file's size: what it gives are the bytes at positions
/// `offset` up to `offset + n`, where `n` is the clamped length.
pub proof fn lemma_read_clamped(
    image: Seq<u8>,
    bpb: BPB,
    c0: u32,
    size: nat,
    offset: nat,
    want: nat,
)
    ensures
        file_read(image, bpb, c0, size, offset, want) matches Ok(data) ==> {
            &&& data.len() == clamp_len(size, offset, want)
            &&& data.len() <= want
            &&& (data.len() > 0 ==> offset + data.len() <= size)
        },
{
    if offset < size {
        match skip_chain(image, bpb, c0, offset / (bpb.bytes_per_cluster_spec() as nat)) {
            Ok(c) => lemma_stream_length(
                image,
                bpb,
                c,
                offset % (bpb.bytes_per_cluster_spec() as nat),
                clamp_len(size, offset, want),
            ),
            Err(e) => {},
        }
    }
}

/// Where a quotient and remainder go when a multiple of the divisor is
/// added: `q` whole parts more, and the same remainder.
pub proof fn lemma_div_mod_shift(d: int, q: int, y: int)
    requires
        d > 0,
        q >= 0,
        y >= 0,
    ensures
        (q * d + y) / d == q + y / d,
        (q * d + y) % d == y % d,
{
    lemma_fundamental_div_mod(y, d);
    assert(q * d + y == (q + y / d) * d + y % d) by (nonlinear_arith)
        requires
            y == d * (y / d) + y % d,
    ;
    lemma_fundamental_div_mod_converse(q * d + y, d, q + y / d, y % d);
}

/// Following `a` links and then `b` more is following `a + b` links.
pub proof fn lemma_skip_chain_adds(image: Seq<u8>, bpb: BPB, c: u32, a: nat, b: nat)
    ensures
        skip_chain(image, bpb, c, a + b) == match skip_chain(image, bpb, c, a) {
            Err(e) => Err::<u32, Fat32Error>(e),
            Ok(mid) => skip_chain(image, bpb, mid, b),
        },
    decreases a,
{
    if a > 0 {
        match fat_successor(image, bpb, c) {
            Err(e) => {},
            Ok(next) => {
                lemma_skip_chain_adds(image, bpb, next, (a - 1) as nat, b);
                assert((a - 1) as nat + b == (a + b - 1) as nat);
            },
        }
    }
}

/// Byte `i` of a stream is the byte of the image at its place in the
/// chain: in the cluster reached after as many links as whole clusters lie
/// before it, at the offset that is left over.
pub proof fn lemma_stream_byte(
    image: Seq<u8>,
    bpb: BPB,
    c: u32,
    intra: nat,
    remaining: nat,
    i: int,
)
    requires
        bpb.valid(),
        intra < bpb.bytes_per_cluster_spec(),
        stream_bytes(image, bpb, c, intra, remaining) is Ok,
        0 <= i < remaining,
    ensures
        ({
            let bpc = bpb.bytes_per_cluster_spec();
            let data = stream_bytes(image, bpb, c, intra, remaining)->Ok_0;
            &&& data.len() == remaining
            &&& skip_chain(image, bpb, c, ((intra + i) / bpc) as nat) matches Ok(at) && at >= 2
                && 0 <= cluster_offset(bpb, at as int, (intra + i) % bpc) < image.len()
                && data[i] == image[cluster_offset(bpb, at as int, (intra + i) % bpc)]
        }),
    decreases remaining,
{
    let bpc = bpb.bytes_per_cluster_spec();
    bpb.lemma_valid_geometry();
    lemma_stream_step(image, bpb, c, intra, remaining);
    lemma_stream_length(image, bpb, c, intra, remaining);
    let room = (bpc - intra) as nat;
    let take = if remaining <= room {
        remaining
    } else {
        room
    };
    let part = cluster_span(image, bpb, c, intra as int, take)->Ok_0;
    if i < take {
        lemma_div_mod_shift(bpc, 0, intra + i);
        assert((intra + i) / bpc == 0 && (intra + i) % bpc == intra + i) by {
            lemma_fundamental_div_mod_converse(intra + i, bpc, 0, intra + i);
        }
        if remaining != take {
            let next = fat_successor(image, bpb, c)->Ok_0;
            lemma_stream_length(image, bpb, next, 0, (remaining - take) as nat);
        }
        assert(part[i] == image[cluster_offset(bpb, c as int, intra as int) + i]);
    } else {
        let next = fat_successor(image, bpb, c)->Ok_0;
        let rest = stream_bytes(image, bpb, next, 0, (remaining - take) as nat)->Ok_0;
        lemma_stream_byte(image, bpb, next, 0, (remaining - take) as nat, i - take);
        lemma_div_mod_shift(bpc, 1, i - take);
        assert(1 * bpc + (i - take) == intra + i);
        let m = ((i - take) / bpc) as nat;
        assert(skip_chain(image, bpb, c, 1 + m) == skip_chain(image, bpb, next, m));
        assert(((intra + i) / bpc) as nat == 1 + m);
        assert((part + rest)[i] == rest[i - take]);
    }
}

/// Every byte that a read gives lies below the file's size and is the byte
/// of the image at its place in the chain: position `p` of the file lies
/// in the cluster reached from the first after `p / bytes_per_cluster`
/// links, at offset `p % bytes_per_cluster`.
pub proof fn lemma_read_byte(
    image: Seq<u8>,
    bpb: BPB,
    c0: u32,
    size: nat,
    offset: nat,
    want: nat,
    i: int,
)
    requires
        bpb.valid(),
        file_read(image, bpb, c0, size, offset, want) is Ok,
        0 <= i < file_read(image, bpb, c0, size, offset, want)->Ok_0.len(),
    ensures
        ({
            let bpc = bpb.bytes_per_cluster_spec();
            let data = file_read(image, bpb, c0, size, offset, want)->Ok_0;
            &&& offset + i < size
            &&& skip_chain(image, bpb, c0, ((offset + i) / bpc) as nat) matches Ok(at) && at >= 2
                && 0 <= cluster_offset(bpb, at as int, (offset + i) % bpc) < image.len()
                && data[i] == image[cluster_offset(bpb, at as int, (offset + i) % bpc)]
        }),
{
    let bpc = bpb.bytes_per_cluster_spec();
    bpb.lemma_valid_geometry();
    lemma_read_clamped(image, bpb, c0, size, offset, want);
    let skipped = (offset as int / bpc) as nat;
    let intra = (offset as int % bpc) as nat;
    let start = skip_chain(image, bpb, c0, skipped)->Ok_0;
    lemma_stream_byte(image, bpb, start, intra, clamp_len(size, offset, want), i);
    lemma_fundamental_div_mod(offset as int, bpc);
    assert(skipped * bpc + (intra + i) == offset + i) by (nonlinear_arith)
        requires
            offset == bpc * skipped + intra,
    ;
    lemma_div_mod_shift(bpc, skipped as int, intra + i);
    lemma_skip_chain_adds(image, bpb, c0, skipped, ((intra + i) / bpc) as nat);
    assert(((offset + i) / bpc) as nat == skipped + ((intra + i) / bpc) as nat);
}

/// Overwrites `dst[at..at + src.len()]` with `src`.
fn copy_into(dst: &mut Vec<u8>, at: usize, src: &Vec<u8>)
    requires
        at + src.len() <= old(dst).len(),
    ensures
        final(dst)@ == old(dst)@.subrange(0, at as int) + src@ + old(dst)@.subrange(
            at + src.len(),
            old(dst).len() as int,
        ),
{
    let mut i: usize = 0;
    while i < src.len()
        invariant
            i <= src.len(),
            at + src.len() <= dst.len(),
            dst.len() == old(dst).len(),
            dst@ == old(dst)@.subrange(0, at as int) + src@.subrange(0, i as int) + old(
                dst,
            )@.subrange(at + i, old(dst).len() as int),
        decreases src.len() - i,
    {
        dst[at + i] = src[i];
        i += 1;
        assert(dst@ =~= old(dst)@.subrange(0, at as int) + src@.subrange(0, i as int) + old(
            dst,
        )@.subrange(at + i, old(dst).len() as int));
    }
    assert(src@.subrange(0, i as int) =~= src@);
}

/// An open file.
pub struct File {
    pub directory: FatDirectory,
}

impl File {
    /// Opens the record as a file; a directory is refused.
    pub fn new(directory: FatDirectory) -> (r: Fat32Result<File>)
        ensures
            directory@.is_dir() ==> (r matches Err(e) && e == Fat32Error::IsDir),
            !directory@.is_dir() ==> (r matches Ok(f) && f.directory@ == directory@),
    {
        if directory.is_dir() {
            return Err(Fat32Error::IsDir);
        }
        Ok(File { directory })
    }

    /// Reads into the front of `buffer` the file's bytes from `byte_offset`
    /// on, as many as the buffer takes and the file still has, and returns
    /// their number. The rest of the buffer keeps what it held.
    pub fn read(&self, driver: &Driver, byte_offset: u64, buffer: &mut Vec<u8>) -> (r: Fat32Result<
        usize,
    >)
        requires
            driver.wf(),
        ensures
            final(buffer)@.len() == old(buffer)@.len(),
            match file_read(
                driver.image(),
                driver.bpb,
                self.directory@.cluster_num(),
                self.directory@.entry.file_size as nat,
                byte_offset as nat,
                old(buffer)@.len(),
            ) {
                Ok(data) => r == Ok::<usize, Fat32Error>(data.len() as usize) && data.len()
                    <= old(buffer)@.len() && final(buffer)@ == data + old(buffer)@.subrange(
                    data.len() as int,
                    old(buffer)@.len() as int,
                ),
                Err(e) => r == Err::<usize, Fat32Error>(e),
            },
    {
        proof {
            driver.bpb.lemma_valid_geometry();
        }
        let file_size: u64 = self.directory.file_size();
        if byte_offset >= file_size {
            assert(buffer@ =~= Seq::<u8>::empty() + buffer@.subrange(0, buffer@.len() as int));
            return Ok(0);
        }
        let left: u64 = file_size - byte_offset;
        let read_len: usize = if buffer.len() as u64 <= left {
            buffer.len()
        } else {
            left as usize
        };
        let bpc: u64 = driver.bytes_per_cluster();
        let mut n_skip: u64 = byte_offset / bpc;
        let mut intra: u64 = byte_offset % bpc;
        let mut cluster: u32 = self.directory.cluster_num();
        let ghost target = file_read(
            driver.image(),
            driver.bpb,
            self.directory@.cluster_num(),
            self.directory@.entry.file_size as nat,
            byte_offset as nat,
            buffer@.len(),
        );
        while n_skip != 0
            invariant
                driver.wf(),
                read_len == clamp_len(file_size as nat, byte_offset as nat, buffer@.len()),
                buffer@ == old(buffer)@,
                target == file_read(
                    driver.image(),
                    driver.bpb,
                    self.directory@.cluster_num(),
                    self.directory@.entry.file_size as nat,
                    byte_offset as nat,
                    old(buffer)@.len(),
                ),
                intra == byte_offset as nat % (driver.bpb.bytes_per_cluster_spec() as nat),
                target == match skip_chain(driver.image(), driver.bpb, cluster, n_skip as nat) {
                    Err(e) => Err::<Seq<u8>, Fat32Error>(e),
                    Ok(c) => stream_bytes(
                        driver.image(),
                        driver.bpb,
                        c,
                        intra as nat,
                        read_len as nat,
                    ),
                },
            decreases n_skip,
        {
            match driver.next_cluster(cluster) {
                Err(e) => {
                    return Err(e);
                },
                Ok(next) => {
                    cluster = next;
                },
            }
            n_skip -= 1;
        }
        let mut to_read: usize = read_len;
        let mut buffer_ptr: usize = 0;
        while to_read > 0
            invariant
                driver.wf(),
                bpc == driver.bpb.bytes_per_cluster_spec(),
                32 <= bpc <= 32768,
                intra < bpc,
                buffer@.len() == old(buffer)@.len(),
                buffer_ptr + to_read == read_len,
                read_len <= buffer@.len(),
                target == file_read(
                    driver.image(),
                    driver.bpb,
                    self.directory@.cluster_num(),
                    self.directory@.entry.file_size as nat,
                    byte_offset as nat,
                    old(buffer)@.len(),
                ),
                buffer@.subrange(buffer_ptr as int, buffer@.len() as int) == old(buffer)@.subrange(
                    buffer_ptr as int,
                    buffer@.len() as int,
                ),
                target == match stream_bytes(
                    driver.image(),
                    driver.bpb,
                    cluster,
                    intra as nat,
                    to_read as nat,
                ) {
                    Err(e) => Err::<Seq<u8>, Fat32Error>(e),
                    Ok(rest) => Ok(buffer@.subrange(0, buffer_ptr as int) + rest),
                },
            decreases to_read,
        {
            let room: u64 = bpc - intra;
            let take: usize = if to_read as u64 <= room {
                to_read
            } else {
                room as usize
            };
            let mut chunk: Vec<u8> = vec![0u8; take];
            let ghost before = buffer@;
            proof {
                lemma_stream_step(driver.image(), driver.bpb, cluster, intra as nat, to_read as nat);
                lemma_stream_done(driver.image(), driver.bpb, cluster, 0);
            }
            match driver.read_cluster(cluster, intra, &mut chunk) {
                Err(e) => {
                    return Err(e);
                },
                Ok(()) => {},
            }
            copy_into(buffer, buffer_ptr, &chunk);
            proof {
                assert(buffer@.subrange(0, buffer_ptr + take) =~= before.subrange(
                    0,
                    buffer_ptr as int,
                ) + chunk@);
                assert(buffer@.subrange(buffer_ptr + take, buffer@.len() as int) =~= old(
                    buffer,
                )@.subrange(buffer_ptr + take, buffer@.len() as int)) by {
                    assert forall|k: int| buffer_ptr + take <= k < buffer@.len() implies buffer@[k]
                        == old(buffer)@[k] by {
                        assert(before.subrange(buffer_ptr as int, before.len() as int)[k
                            - buffer_ptr] == old(buffer)@.subrange(
                            buffer_ptr as int,
                            before.len() as int,
                        )[k - buffer_ptr]);
                    }
                }
            }
            let ghost done = before.subrange(0, buffer_ptr as int);
            let ghost step = stream_bytes(
                driver.image(),
                driver.bpb,
                cluster,
                intra as nat,
                to_read as nat,
            );
            let ghost old_cluster = cluster;
            buffer_ptr += take;
            to_read -= take;
            assert(buffer@.subrange(0, buffer_ptr as int) == done + chunk@);
            if to_read > 0 {
                match driver.next_cluster(cluster) {
                    Err(e) => {
                        assert(step == Err::<Seq<u8>, Fat32Error>(e));
                        return Err(e);
                    },
                    Ok(next) => {
                        cluster = next;
                    },
                }
                intra = 0;
                proof {
                    let rest = stream_bytes(driver.image(), driver.bpb, cluster, 0, to_read as nat);
                    match rest {
                        Ok(r) => {
                            assert(step == Ok::<Seq<u8>, Fat32Error>(chunk@ + r));
                            assert(done + (chunk@ + r) =~= (done + chunk@) + r);
                        },
                        Err(e) => {
                            assert(step == Err::<Seq<u8>, Fat32Error>(e));
                        },
                    }
                }
            } else {
                proof {
                    lemma_stream_done(driver.image(), driver.bpb, cluster, intra as nat);
                    assert(step == Ok::<Seq<u8>, Fat32Error>(chunk@));
                    assert((done + chunk@) + Seq::<u8>::empty() =~= done + chunk@);
                }
            }
        }
        proof {
            lemma_stream_done(driver.image(), driver.bpb, cluster, intra as nat);
            assert(buffer@.subrange(0, buffer_ptr as int) + Seq::<u8>::empty()
                =~= buffer@.subrange(0, buffer_ptr as int));
            assert(buffer@ =~= buffer@.subrange(0, buffer_ptr as int) + old(buffer)@.subrange(
                buffer_ptr as int,
                buffer@.len() as int,
            ));
        }
        Ok(read_len)
    }
}

/// An open directory: its record and, once it has been read, the listing
/// that every later read is served from.
pub struct DirectoryState {
    pub directory: FatDirectory,
    pub files_cached: Option<Vec<FatDirectory>>,
}

impl DirectoryState {
    pub fn new(directory: FatDirectory) -> (r: DirectoryState)
        ensures
            r.directory@ == directory@,
            r.files_cached is None,
    {
        DirectoryState { directory, files_cached: None }
    }

    /// The listing that reads of this directory are served from: the cached
    /// one where there is one, else what the volume holds now.
    pub open spec fn listing(&self, image: Seq<u8>, bpb: BPB) -> Fat32Result<Seq<RecordView>> {
        match self.files_cached {
            Some(cached) => Ok(record_views(cached@)),
            None => visible_records(image, bpb, start_cursor(bpb, self.directory@.cluster_num())),
        }
    }
}

/// The record at `offset` of a listing, `None` past its end.
pub open spec fn record_at(listing: Seq<RecordView>, offset: nat) -> Option<RecordView> {
    if offset < listing.len() {
        Some(listing[offset as int])
    } else {
        None
    }
}

/// The table of open files and directories.
pub struct FileState {
    pub files: HashMap<FileHandle, File>,
    pub dirs: HashMap<FileHandle, DirectoryState>,
    pub next_file_handle: FileHandle,
    pub free_list: Vec<FileHandle>,
}

impl FileState {
    /// No handle is open twice or both open and free, every handle that was
    /// ever issued lies in `1..=next_file_handle`, the free list names no
    /// handle twice, and files and directories sit in their own tables.
    pub open spec fn wf(&self) -> bool {
        &&& forall|h: FileHandle| #[trigger]
            self.files@.contains_key(h) ==> 1 <= h <= self.next_file_handle
                && !self.dirs@.contains_key(h) && !self.free_list@.contains(h)
                && !self.files@[h].directory@.is_dir()
        &&& forall|h: FileHandle| #[trigger]
            self.dirs@.contains_key(h) ==> 1 <= h <= self.next_file_handle
                && !self.free_list@.contains(h) && self.dirs@[h].directory@.is_dir()
        &&& forall|i: int|
            0 <= i < self.free_list@.len() ==> 1 <= #[trigger] self.free_list@[i]
                <= self.next_file_handle
        &&& forall|i: int, j: int|
            0 <= i < j < self.free_list@.len() ==> self.free_list@[i] != self.free_list@[j]
    }

    /// The handle is open, as a file or as a directory.
    pub open spec fn is_open(&self, h: FileHandle) -> bool {
        self.files@.contains_key(h) || self.dirs@.contains_key(h)
    }

    /// A handle can still be issued: one is free, or the counter has room.
    pub open spec fn can_allocate(&self) -> bool {
        self.free_list@.len() > 0 || self.next_file_handle < u64::MAX
    }

    /// The handle that the next open issues: the one freed last, else the
    /// next number.
    pub open spec fn next_handle(&self) -> FileHandle {
        if self.free_list@.len() > 0 {
            self.free_list@.last()
        } else {
            (self.next_file_handle + 1) as u64
        }
    }

    /// The counter and the free list once `next_handle` has been issued.
    pub open spec fn issued(&self, after: &FileState) -> bool {
        if self.free_list@.len() > 0 {
            after.free_list@ == self.free_list@.drop_last() && after.next_file_handle
                == self.next_file_handle
        } else {
            after.free_list@ == self.free_list@ && after.next_file_handle == self.next_file_handle
                + 1
        }
    }

    /// Nothing differs between the two tables.
    pub open spec fn unchanged(&self, after: &FileState) -> bool {
        &&& after.files@ == self.files@
        &&& after.dirs@ == self.dirs@
        &&& after.free_list@ == self.free_list@
        &&& after.next_file_handle == self.next_file_handle
    }

    /// `after` is this table with the directory `rec` opened under the
    /// handle `h`, unread, and nothing else touched.
    pub open spec fn dir_opened(&self, after: &FileState, rec: RecordView, h: FileHandle) -> bool {
        &&& h == self.next_handle()
        &&& !self.is_open(h)
        &&& self.issued(after)
        &&& after.files@ == self.files@
        &&& after.dirs@.dom() == self.dirs@.dom().insert(h)
        &&& after.dirs@[h].directory@ == rec
        &&& after.dirs@[h].files_cached is None
        &&& forall|k: FileHandle| self.dirs@.contains_key(k) ==> after.dirs@[k] == self.dirs@[k]
    }

    /// `after` is this table with the file `rec` opened under the handle
    /// `h`, and nothing else touched.
    pub open spec fn file_opened(&self, after: &FileState, rec: RecordView, h: FileHandle) -> bool {
        &&& h == self.next_handle()
        &&& !self.is_open(h)
        &&& self.issued(after)
        &&& after.dirs@ == self.dirs@
        &&& after.files@.dom() == self.files@.dom().insert(h)
        &&& after.files@[h].directory@ == rec
        &&& forall|k: FileHandle| self.files@.contains_key(k) ==> after.files@[k] == self.files@[k]
    }

    /// `after` is this table with the directory handle `h` closed and put
    /// on the free list.
    pub open spec fn dir_closed(&self, after: &FileState, h: FileHandle) -> bool {
        &&& after.files@ == self.files@
        &&& after.dirs@ == self.dirs@.remove(h)
        &&& after.free_list@ == self.free_list@.push(h)
        &&& after.next_file_handle == self.next_file_handle
    }

    /// `after` is this table with the file handle `h` closed and put on the
    /// free list.
    pub open spec fn file_closed(&self, after: &FileState, h: FileHandle) -> bool {
        &&& after.dirs@ == self.dirs@
        &&& after.files@ == self.files@.remove(h)
        &&& after.free_list@ == self.free_list@.push(h)
        &&& after.next_file_handle == self.next_file_handle
    }

    /// `after` is this table once the open directory `h` has been read
    /// with the given listing: the listing is cached under `h`, and nothing
    /// else differs.
    pub open spec fn dir_listed(
        &self,
        after: &FileState,
        h: FileHandle,
        listing: Seq<RecordView>,
    ) -> bool {
        &&& after.files@ == self.files@
        &&& after.free_list@ == self.free_list@
        &&& after.next_file_handle == self.next_file_handle
        &&& after.dirs@.dom() == self.dirs@.dom()
        &&& after.dirs@[h].directory@ == self.dirs@[h].directory@
        &&& after.dirs@[h].files_cached matches Some(cached) && record_views(cached@) == listing
        &&& forall|k: FileHandle|
            k != h && self.dirs@.contains_key(k) ==> after.dirs@[k] == self.dirs@[k]
    }

    /// A closed file handle is open in no table, so reads and closes on it
    /// are refused, and it is the handle that the next open issues.
    pub proof fn lemma_closed_file_handle(&self, after: &FileState, h: FileHandle)
        requires
            self.wf(),
            self.files@.contains_key(h),
            self.file_closed(after, h),
        ensures
            !after.is_open(h),
            after.next_handle() == h,
    {
    }

    /// A closed directory handle is open in no table, so reads and closes
    /// on it are refused, and it is the handle that the next open issues.
    pub proof fn lemma_closed_dir_handle(&self, after: &FileState, h: FileHandle)
        requires
            self.wf(),
            self.dirs@.contains_key(h),
            self.dir_closed(after, h),
        ensures
            !after.is_open(h),
            after.next_handle() == h,
    {
    }

    /// Once a directory handle has been read, its listing is fixed: whatever
    /// the volume holds later, reads of the handle are served from the
    /// listing made then, so the same offset gives the same record.
    pub proof fn lemma_listing_is_snapshot(
        &self,
        after: &FileState,
        h: FileHandle,
        listing: Seq<RecordView>,
        later_image: Seq<u8>,
        later_bpb: BPB,
        offset: nat,
    )
        requires
            self.dirs@.contains_key(h),
            self.dir_listed(after, h, listing),
        ensures
            after.dirs@.contains_key(h),
            after.dirs@[h].listing(later_image, later_bpb) == Ok::<Seq<RecordView>, Fat32Error>(
                listing,
            ),
            after.dir_listed(after, h, listing),
    {
    }

    pub fn new() -> (r: FileState)
        ensures
            r.wf(),
            r.can_allocate(),
            r.files@ == Map::<FileHandle, File>::empty(),
            r.dirs@ == Map::<FileHandle, DirectoryState>::empty(),
            r.next_file_handle == 0,
            r.free_list@ == Seq::<FileHandle>::empty(),
    {
        FileState {
            files: HashMap::new(),
            dirs: HashMap::new(),
            next_file_handle: 0,
            free_list: Vec::new(),
        }
    }

    /// Whether a handle can still be issued.
    pub fn has_free_handle(&self) -> (r: bool)
        ensures
            r == self.can_allocate(),
    {
        self.free_list.len() > 0 || self.next_file_handle < u64::MAX
    }

    fn alloc_handle(&mut self) -> (h: FileHandle)
        requires
            old(self).wf(),
            old(self).can_allocate(),
        ensures
            h == old(self).next_handle(),
            old(self).issued(final(self)),
            final(self).files@ == old(self).files@,
            final(self).dirs@ == old(self).dirs@,
            !old(self).is_open(h),
            !final(self).free_list@.contains(h),
            1 <= h <= final(self).next_file_handle,
    {
        if let Some(existing) = self.free_list.pop() {
            assert(old(self).free_list@[old(self).free_list@.len() - 1] == existing);
            assert(old(self).free_list@.contains(existing));
            return existing;
        }
        self.next_file_handle += 1;
        self.next_file_handle
    }

    fn dealloc_handle(&mut self, handle: FileHandle)
        ensures
            final(self).free_list@ == old(self).free_list@.push(handle),
            final(self).files@ == old(self).files@,
            final(self).dirs@ == old(self).dirs@,
            final(self).next_file_handle == old(self).next_file_handle,
    {
        self.free_list.push(handle);
    }

    /// Opens a directory and issues its handle; the listing is read when it
    /// is first asked for. A record that is no directory is refused.
    pub fn open_dir(&mut self, directory: &FatDirectory) -> (r: Fat32Result<FileHandle>)
        requires
            old(self).wf(),
            old(self).can_allocate(),
        ensures
            final(self).wf(),
            !directory@.is_dir() ==> r == Err::<FileHandle, Fat32Error>(Fat32Error::NotADir)
                && old(self).unchanged(final(self)),
            directory@.is_dir() ==> r == Ok::<FileHandle, Fat32Error>(old(self).next_handle())
                && old(self).dir_opened(final(self), directory@, old(self).next_handle()),
    {
        if !directory.is_dir() {
            return Err(Fat32Error::NotADir);
        }
        let handle = self.alloc_handle();
        self.dirs.insert(handle, DirectoryState::new(directory.clone()));
        assert(final(self).dirs@.dom() =~= old(self).dirs@.dom().insert(handle));
        Ok(handle)
    }

    /// The record at `offset` of the directory's listing, `None` past its
    /// end. The first read of a handle lists the directory and keeps the
    /// listing; every later read is served from it.
    pub fn read_dir(&mut self, driver: &Driver, handle: FileHandle, offset: usize) -> (r:
        Fat32Result<Option<FatDirectory>>)
        requires
            old(self).wf(),
            driver.wf(),
        ensures
            final(self).wf(),
            !old(self).dirs@.contains_key(handle) ==> r == Err::<Option<FatDirectory>, Fat32Error>(
                Fat32Error::InvalidFileHandle(handle),
            ) && old(self).unchanged(final(self)),
            old(self).dirs@.contains_key(handle) ==> match old(self).dirs@[handle].listing(
                driver.image(),
                driver.bpb,
            ) {
                Err(e) => (r matches Err(f) && f == e) && old(self).unchanged(final(self)),
                Ok(listing) => old(self).dir_listed(final(self), handle, listing) && match record_at(
                    listing,
                    offset as nat,
                ) {
                    Some(rec) => r matches Ok(Some(d)) && d@ == rec,
                    None => r matches Ok(None),
                },
            },
    {
        let state = match self.dirs.remove(&handle) {
            None => {
                assert(final(self).dirs@ =~= old(self).dirs@);
                return Err(Fat32Error::InvalidFileHandle(handle));
            },
            Some(state) => state,
        };
        let directory = state.directory;
        let cached: Vec<FatDirectory> = match state.files_cached {
            Some(cached) => cached,
            None => {
                match list_directory(driver, &directory) {
                    Ok(listed) => listed,
                    Err(e) => {
                        self.dirs.insert(handle, DirectoryState { directory, files_cached: None });
                        assert(self.dirs@ =~= old(self).dirs@);
                        return Err(e);
                    },
                }
            },
        };
        let answer: Option<FatDirectory> = if offset < cached.len() {
            Some(cached[offset].clone())
        } else {
            None
        };
        self.dirs.insert(handle, DirectoryState { directory, files_cached: Some(cached) });
        assert(final(self).dirs@.dom() =~= old(self).dirs@.dom());
        Ok(answer)
    }

    /// Closes a directory handle, which may then be issued again.
    pub fn close_dir(&mut self, handle: FileHandle) -> (r: Fat32Result<()>)
        requires
            old(self).wf(),
        ensures
            final(self).wf(),
            !final(self).is_open(handle) || old(self).files@.contains_key(handle),
            old(self).dirs@.contains_key(handle) ==> r is Ok && old(self).dir_closed(
                final(self),
                handle,
            ),
            !old(self).dirs@.contains_key(handle) ==> r == Err::<(), Fat32Error>(
                Fat32Error::InvalidFileHandle(handle),
            ) && old(self).unchanged(final(self)),
    {
        if self.dirs.remove(&handle).is_none() {
            assert(final(self).dirs@ =~= old(self).dirs@);
            return Err(Fat32Error::InvalidFileHandle(handle));
        }
        self.dealloc_handle(handle);
        Ok(())
    }

    /// Opens a file and issues its handle. A directory is refused.
    pub fn open(&mut self, file: &FatDirectory) -> (r: Fat32Result<FileHandle>)
        requires
            old(self).wf(),
            old(self).can_allocate(),
        ensures
            final(self).wf(),
            file@.is_dir() ==> r == Err::<FileHandle, Fat32Error>(Fat32Error::IsDir)
                && old(self).unchanged(final(self)),
            !file@.is_dir() ==> r == Ok::<FileHandle, Fat32Error>(old(self).next_handle())
                && old(self).file_opened(final(self), file@, old(self).next_handle()),
    {
        if file.is_dir() {
            return Err(Fat32Error::IsDir);
        }
        let opened_file = match File::new(file.clone()) {
            Ok(f) => f,
            Err(e) => {
                return Err(e);
            },
        };
        let handle = self.alloc_handle();
        self.files.insert(handle, opened_file);
        assert(final(self).files@.dom() =~= old(self).files@.dom().insert(handle));
        Ok(handle)
    }

    /// Closes a file handle, which may then be issued again.
    pub fn close(&mut self, handle: FileHandle) -> (r: Fat32Result<()>)
        requires
            old(self).wf(),
        ensures
            final(self).wf(),
            !final(self).is_open(handle) || old(self).dirs@.contains_key(handle),
            old(self).files@.contains_key(handle) ==> r is Ok && old(self).file_closed(
                final(self),
                handle,
            ),
            !old(self).files@.contains_key(handle) ==> r == Err::<(), Fat32Error>(
                Fat32Error::InvalidFileHandle(handle),
            ) && old(self).unchanged(final(self)),
    {
        if self.files.remove(&handle).is_none() {
            assert(final(self).files@ =~= old(self).files@);
            return Err(Fat32Error::InvalidFileHandle(handle));
        }
        self.dealloc_handle(handle);
        Ok(())
    }

    /// Reads from an open file; see `File::read`. A handle that is not an
    /// open file is refused and the buffer left alone.
    pub fn read(
        &self,
        driver: &Driver,
        handle: FileHandle,
        buffer: &mut Vec<u8>,
        byte_offset: u64,
    ) -> (r: Fat32Result<usize>)
        requires
            driver.wf(),
        ensures
            final(buffer)@.len() == old(buffer)@.len(),
            !self.files@.contains_key(handle) ==> r == Err::<usize, Fat32Error>(
                Fat32Error::InvalidFileHandle(handle),
            ) && final(buffer)@ == old(buffer)@,
            self.files@.contains_key(handle) ==> match file_read(
                driver.image(),
                driver.bpb,
                self.files@[handle].directory@.cluster_num(),
                self.files@[handle].directory@.entry.file_size as nat,
                byte_offset as nat,
                old(buffer)@.len(),
            ) {
                Ok(data) => r == Ok::<usize, Fat32Error>(data.len() as usize) && data.len()
                    <= old(buffer)@.len() && final(buffer)@ == data + old(buffer)@.subrange(
                    data.len() as int,
                    old(buffer)@.len() as int,
                ),
                Err(e) => r == Err::<usize, Fat32Error>(e),
            },
    {
        match self.files.get(&handle) {
            None => Err(Fat32Error::InvalidFileHandle(handle)),
            Some(file) => file.read(driver, byte_offset, buffer),
        }
    }
}

/// Lists a directory from its start: every record but volume labels, in
/// disk order.
pub fn list_directory(driver: &Driver, directory: &FatDirectory) -> (r: Fat32Result<
    Vec<FatDirectory>,
>)
    requires
        driver.wf(),
    ensures
        match visible_records(
            driver.image(),
            driver.bpb,
            start_cursor(driver.bpb, directory@.cluster_num()),
        ) {
            Ok(listing) => r matches Ok(v) && record_views(v@) == listing,
            Err(e) => r matches Err(f) && f == e,
        },
{
    let mut files = driver.files(directory);
    let mut listed: Vec<FatDirectory> = Vec::new();
    let ghost start = files;
    assert(record_views(listed@) =~= Seq::<RecordView>::empty());
    loop
        invariant
            driver.wf(),
            start == start_cursor(driver.bpb, directory@.cluster_num()),
            visible_records(driver.image(), driver.bpb, start) == match visible_records(
                driver.image(),
                driver.bpb,
                files,
            ) {
                Ok(rest) => Ok::<Seq<RecordView>, Fat32Error>(record_views(listed@) + rest),
                Err(e) => Err(e),
            },
        decreases files.fuel, slots_left(driver.bpb, files),
    {
        let ghost before = files;
        let ghost so_far = record_views(listed@);
        proof {
            lemma_scan_advances(driver.image(), driver.bpb, files, Seq::empty());
        }
        let step = files.next(driver);
        proof {
            let sc = scan(driver.image(), driver.bpb, before, Seq::empty());
            assert(files == sc.1);
            assert(visible_records(driver.image(), driver.bpb, before) == match sc.0 {
                Err(e) => Err::<Seq<RecordView>, Fat32Error>(e),
                Ok(None) => Ok(Seq::empty()),
                Ok(Some(rec)) => match visible_records(driver.image(), driver.bpb, sc.1) {
                    Err(e) => Err(e),
                    Ok(rest) => Ok(
                        if rec.is_volume_label() {
                            rest
                        } else {
                            seq![rec] + rest
                        },
                    ),
                },
            });
        }
        match step {
            Err(e) => {
                return Err(e);
            },
            Ok(None) => {
                assert(so_far + Seq::<RecordView>::empty() =~= so_far);
                return Ok(listed);
            },
            Ok(Some(file)) => {
                if !file.is_volume_label() {
                    let ghost rec = file@;
                    listed.push(file);
                    proof {
                        assert(record_views(listed@) =~= so_far.push(rec));
                        match visible_records(driver.image(), driver.bpb, files) {
                            Ok(rest) => {
                                assert(so_far + (seq![rec] + rest) =~= so_far.push(rec) + rest);
                            },
                            Err(e) => {},
                        }
                    }
                }
            },
        }
    }
}

} // verus!
