use crate::directory::{chain_length, date_time_of, root_record, FatDirectory, RecordView};
use crate::driver::{resolve, Driver};
use crate::error::{Fat32Error, Fat32Result, FileHandle};
use crate::file::{file_read, FileState};
use crate::inode::{join_path, joined, InodeResolver};
use crate::time::epoch_default;
use vstd::prelude::*;

verus! {

pub const ENOENT: i32 = 2;

pub const EIO: i32 = 5;

pub const EBADF: i32 = 9;

pub const EACCES: i32 = 13;

pub const ENOTDIR: i32 = 20;

pub const EISDIR: i32 = 21;

pub const EINVAL: i32 = 22;

pub const O_ACCMODE: i32 = 3;

pub const O_RDONLY: i32 = 0;

pub const O_WRONLY: i32 = 1;

pub const O_RDWR: i32 = 2;

pub const O_TRUNC: i32 = 512;

/// Set by the kernel on an open that comes from `exec`.
pub const FMODE_EXEC: i32 = 0x20;

/// The permission bits of every entry of the read-only mount.
pub const MOUNT_PERMISSIONS: u16 = 0o644;

/// The error number that a failure is reported with.
pub open spec fn errno_of_spec(err: Fat32Error) -> i32 {
    match err {
        Fat32Error::NotFound => ENOENT,
        Fat32Error::NotADir => ENOTDIR,
        Fat32Error::IsDir => EISDIR,
        Fat32Error::InvalidFileHandle(_) => EBADF,
        _ => EIO,
    }
}

/// The error number that a failure is reported with.
pub fn errno_of(err: &Fat32Error) -> (r: i32)
    ensures
        r == errno_of_spec(*err),
{
    match err {
        Fat32Error::NotFound => ENOENT,
        Fat32Error::NotADir => ENOTDIR,
        Fat32Error::IsDir => EISDIR,
        Fat32Error::InvalidFileHandle(_) => EBADF,
        _ => EIO,
    }
}

/// What an open asks to do with the entry.
#[derive(Clone, Copy, Debug, PartialEq, Eq, Structural)]
pub struct AccessRequest {
    pub read: bool,
    pub write: bool,
    pub execute: bool,
}

/// The access that open flags ask for. Reading together with truncation
/// is refused; an access mode of 3 names no mode. Where `exec_aware`, a
/// read-only open that comes from `exec` asks to execute as well.
pub open spec fn access_of(flags: i32, exec_aware: bool) -> Result<AccessRequest, i32> {
    if flags & O_ACCMODE == O_RDONLY {
        if flags & O_TRUNC != 0 {
            Err(EACCES)
        } else {
            Ok(
                AccessRequest {
                    read: true,
                    write: false,
                    execute: exec_aware && flags & FMODE_EXEC != 0,
                },
            )
        }
    } else if flags & O_ACCMODE == O_WRONLY {
        Ok(AccessRequest { read: false, write: true, execute: false })
    } else if flags & O_ACCMODE == O_RDWR {
        Ok(AccessRequest { read: true, write: true, execute: false })
    } else {
        Err(EINVAL)
    }
}

/// Decodes open flags into the access they ask for.
pub fn access_mode(flags: i32, exec_aware: bool) -> (r: Result<AccessRequest, i32>)
    ensures
        r == access_of(flags, exec_aware),
{
    let mode: i32 = flags & O_ACCMODE;
    if mode == O_RDONLY {
        if flags & O_TRUNC != 0 {
            Err(EACCES)
        } else {
            Ok(
                AccessRequest {
                    read: true,
                    write: false,
                    execute: exec_aware && flags & FMODE_EXEC != 0,
                },
            )
        }
    } else if mode == O_WRONLY {
        Ok(AccessRequest { read: false, write: true, execute: false })
    } else if mode == O_RDWR {
        Ok(AccessRequest { read: true, write: true, execute: false })
    } else {
        Err(EINVAL)
    }
}

/// The mount is read-only: anything but writing is allowed.
pub fn check_access(read: bool, write: bool, execute: bool) -> (r: bool)
    ensures
        r == !write,
{
    !write
}

/// Whether an open with these flags goes ahead, and the error number it is
/// refused with where it does not.
pub open spec fn admission(flags: i32, exec_aware: bool) -> Result<(), i32> {
    match access_of(flags, exec_aware) {
        Err(errno) => Err(errno),
        Ok(request) => if request.write {
            Err(EACCES)
        } else {
            Ok(())
        },
    }
}

/// Decides an open by its flags alone: every write mode is refused.
pub fn admit_open(flags: i32, exec_aware: bool) -> (r: Result<(), i32>)
    ensures
        r == admission(flags, exec_aware),
{
    match access_mode(flags, exec_aware) {
        Err(errno) => Err(errno),
        Ok(request) => {
            if check_access(request.read, request.write, request.execute) {
                Ok(())
            } else {
                Err(EACCES)
            }
        },
    }
}

/// The two kinds of entry that the volume has.
#[derive(Clone, Copy, Debug, PartialEq, Eq, Structural)]
pub enum FileKind {
    RegularFile,
    Directory,
}

/// The kind of a record.
pub fn file_type_of(directory: &FatDirectory) -> (r: FileKind)
    ensures
        r == if directory@.is_dir() {
            FileKind::Directory
        } else {
            FileKind::RegularFile
        },
{
    if directory.is_file() {
        FileKind::RegularFile
    } else {
        FileKind::Directory
    }
}

/// The attributes reported for an entry.
#[derive(Clone, Copy, Debug, PartialEq, Eq, Structural)]
pub struct FileAttributes {
    pub ino: u64,
    pub size: u64,
    pub blocks: u64,
    /// Seconds from the epoch, in local time, as are the three that follow.
    pub atime: i64,
    pub mtime: i64,
    pub ctime: i64,
    pub crtime: i64,
    pub kind: FileKind,
    pub perm: u16,
    pub nlink: u32,
    pub uid: u32,
    pub gid: u32,
    pub rdev: u32,
    pub blksize: u32,
    pub flags: u32,
}

/// The attributes of a record that takes `blocks` clusters of `blksize`
/// bytes: the change time is the write time, a date that is none counts as
/// the epoch, the permissions are those of the mount, and there is one link.
pub open spec fn attributes_of(
    record: RecordView,
    inode: u64,
    blocks: u64,
    blksize: u32,
    uid: u32,
    gid: u32,
) -> FileAttributes {
    FileAttributes {
        ino: inode,
        size: record.entry.file_size as u64,
        blocks,
        atime: epoch_default(date_time_of(record.entry.lst_acc_date, 0).seconds_spec()),
        mtime: epoch_default(
            date_time_of(record.entry.wrt_date, record.entry.wrt_time).seconds_spec(),
        ),
        ctime: epoch_default(
            date_time_of(record.entry.wrt_date, record.entry.wrt_time).seconds_spec(),
        ),
        crtime: epoch_default(
            date_time_of(record.entry.crt_date, record.entry.crt_time).seconds_spec(),
        ),
        kind: if record.is_dir() {
            FileKind::Directory
        } else {
            FileKind::RegularFile
        },
        perm: MOUNT_PERMISSIONS,
        nlink: 1,
        uid,
        gid,
        rdev: 0,
        blksize,
        flags: 0,
    }
}

/// The attributes of a record on a mounted volume. The block count is the
/// length of the record's chain, so a corrupt chain fails the call.
pub fn file_attr_of(driver: &Driver, directory: &FatDirectory, inode: u64, uid: u32, gid: u32) -> (r:
    Fat32Result<FileAttributes>)
    requires
        driver.wf(),
    ensures
        match chain_length(
            driver.image(),
            driver.bpb,
            directory@.cluster_num(),
            driver.bpb.total_data_clusters_spec() as nat,
        ) {
            Ok(n) => r == Ok::<FileAttributes, Fat32Error>(
                attributes_of(
                    directory@,
                    inode,
                    n as u64,
                    driver.bpb.bytes_per_cluster_spec() as u32,
                    uid,
                    gid,
                ),
            ),
            Err(e) => r == Err::<FileAttributes, Fat32Error>(e),
        },
{
    proof {
        driver.bpb.lemma_valid_geometry();
    }
    let blocks: u64 = match directory.n_clusters(driver) {
        Ok(n) => n,
        Err(e) => {
            return Err(e);
        },
    };
    let written: i64 = directory.write_time().timestamp();
    Ok(
        FileAttributes {
            ino: inode,
            size: directory.file_size(),
            blocks,
            atime: directory.access_time().timestamp(),
            mtime: written,
            ctime: written,
            crtime: directory.create_time().timestamp(),
            kind: file_type_of(directory),
            perm: MOUNT_PERMISSIONS,
            nlink: 1,
            uid,
            gid,
            rdev: 0,
            blksize: driver.bytes_per_cluster() as u32,
            flags: 0,
        },
    )
}

/// The record that a path names on the volume.
pub open spec fn target(driver: &Driver, path: Seq<u16>) -> Fat32Result<RecordView> {
    resolve(driver.image(), driver.bpb, root_record(driver.bpb.bpb_root_clus), path, 0)
}

/// The attributes that a record is reported with under `inode`.
pub open spec fn described(driver: &Driver, record: RecordView, inode: u64, uid: u32, gid: u32)
    -> Fat32Result<FileAttributes> {
    match chain_length(
        driver.image(),
        driver.bpb,
        record.cluster_num(),
        driver.bpb.total_data_clusters_spec() as nat,
    ) {
        Ok(n) => Ok(
            attributes_of(
                record,
                inode,
                n as u64,
                driver.bpb.bytes_per_cluster_spec() as u32,
                uid,
                gid,
            ),
        ),
        Err(e) => Err(e),
    }
}

/// Answers a lookup of `name` in the directory `parent`: finds the entry,
/// gives it its inode and reports its attributes. Where anything fails no
/// inode is assigned and the error number is reported.
pub fn lookup(
    driver: &Driver,
    inodes: &mut InodeResolver,
    parent: u64,
    name: &Vec<u16>,
    uid: u32,
    gid: u32,
) -> (r: Result<FileAttributes, i32>)
    requires
        driver.wf(),
        old(inodes).wf(),
        old(inodes).known(parent),
        old(inodes).next_inode < u64::MAX,
    ensures
        final(inodes).wf(),
        old(inodes).extended_by(final(inodes)),
        match target(driver, join_path(old(inodes).path_of(parent), name@)) {
            Err(e) => r == Err::<FileAttributes, i32>(errno_of_spec(e)) && final(inodes).next_inode == old(inodes).next_inode,
            Ok(record) => match described(driver, record, 0, uid, gid) {
                Err(e) => r == Err::<FileAttributes, i32>(errno_of_spec(e)) && final(inodes).next_inode == old(inodes).next_inode,
                Ok(_) => r matches Ok(attr) && old(inodes).assigned(
                    final(inodes),
                    parent,
                    name@,
                    attr.ino,
                ) && Ok::<FileAttributes, Fat32Error>(attr) == described(
                    driver,
                    record,
                    attr.ino,
                    uid,
                    gid,
                ),
            },
        },
{
    let path = joined(inodes.path(parent), name);
    let found = match driver.search_by_path(&path) {
        Ok(found) => found,
        Err(e) => {
            return Err(errno_of(&e));
        },
    };
    match file_attr_of(driver, &found, 0, uid, gid) {
        Err(e) => Err(errno_of(&e)),
        Ok(attr) => {
            let inode = inodes.get_or_assign_inode(parent, name);
            Ok(
                FileAttributes {
                    ino: inode,
                    size: attr.size,
                    blocks: attr.blocks,
                    atime: attr.atime,
                    mtime: attr.mtime,
                    ctime: attr.ctime,
                    crtime: attr.crtime,
                    kind: attr.kind,
                    perm: attr.perm,
                    nlink: attr.nlink,
                    uid: attr.uid,
                    gid: attr.gid,
                    rdev: attr.rdev,
                    blksize: attr.blksize,
                    flags: attr.flags,
                },
            )
        },
    }
}

/// Reports the attributes of an inode that was issued before.
pub fn getattr(driver: &Driver, inodes: &InodeResolver, ino: u64, uid: u32, gid: u32) -> (r: Result<
    FileAttributes,
    i32,
>)
    requires
        driver.wf(),
        inodes.wf(),
        inodes.known(ino),
    ensures
        match target(driver, inodes.path_of(ino)) {
            Err(e) => r == Err::<FileAttributes, i32>(errno_of_spec(e)),
            Ok(record) => match described(driver, record, ino, uid, gid) {
                Err(e) => r == Err::<FileAttributes, i32>(errno_of_spec(e)),
                Ok(attr) => r == Ok::<FileAttributes, i32>(attr),
            },
        },
{
    let found = match driver.search_by_path(inodes.path(ino)) {
        Ok(found) => found,
        Err(e) => {
            return Err(errno_of(&e));
        },
    };
    match file_attr_of(driver, &found, ino, uid, gid) {
        Ok(attr) => Ok(attr),
        Err(e) => Err(errno_of(&e)),
    }
}

/// Opens the directory of an inode. The flags decide first: any write
/// mode is refused before the volume is touched.
pub fn opendir(
    driver: &Driver,
    handles: &mut FileState,
    inodes: &InodeResolver,
    ino: u64,
    flags: i32,
) -> (r: Result<FileHandle, i32>)
    requires
        driver.wf(),
        old(handles).wf(),
        old(handles).can_allocate(),
        inodes.wf(),
        inodes.known(ino),
    ensures
        final(handles).wf(),
        match admission(flags, false) {
            Err(code) => r == Err::<FileHandle, i32>(code) && old(handles).unchanged(
                final(handles),
            ),
            Ok(_) => match target(driver, inodes.path_of(ino)) {
                Err(e) => r == Err::<FileHandle, i32>(errno_of_spec(e)) && old(handles).unchanged(
                    final(handles),
                ),
                Ok(record) => if record.is_dir() {
                    r == Ok::<FileHandle, i32>(old(handles).next_handle()) && old(handles).dir_opened(final(handles), record, old(handles).next_handle())
                } else {
                    r == Err::<FileHandle, i32>(ENOTDIR) && old(handles).unchanged(final(handles))
                },
            },
        },
{
    match admit_open(flags, false) {
        Err(code) => {
            return Err(code);
        },
        Ok(()) => {},
    }
    match driver.open_dir(handles, inodes.path(ino)) {
        Ok(handle) => Ok(handle),
        Err(e) => Err(errno_of(&e)),
    }
}

/// Opens the file of an inode. The flags decide first: any write mode is
/// refused before the volume is touched.
pub fn open(
    driver: &Driver,
    handles: &mut FileState,
    inodes: &InodeResolver,
    ino: u64,
    flags: i32,
) -> (r: Result<FileHandle, i32>)
    requires
        driver.wf(),
        old(handles).wf(),
        old(handles).can_allocate(),
        inodes.wf(),
        inodes.known(ino),
    ensures
        final(handles).wf(),
        match admission(flags, true) {
            Err(code) => r == Err::<FileHandle, i32>(code) && old(handles).unchanged(
                final(handles),
            ),
            Ok(_) => match target(driver, inodes.path_of(ino)) {
                Err(e) => r == Err::<FileHandle, i32>(errno_of_spec(e)) && old(handles).unchanged(
                    final(handles),
                ),
                Ok(record) => if !record.is_dir() {
                    r == Ok::<FileHandle, i32>(old(handles).next_handle()) && old(handles).file_opened(final(handles), record, old(handles).next_handle())
                } else {
                    r == Err::<FileHandle, i32>(EISDIR) && old(handles).unchanged(final(handles))
                },
            },
        },
{
    match admit_open(flags, true) {
        Err(code) => {
            return Err(code);
        },
        Ok(()) => {},
    }
    match driver.open(handles, inodes.path(ino)) {
        Ok(handle) => Ok(handle),
        Err(e) => Err(errno_of(&e)),
    }
}

/// Reads up to `size` bytes at `offset` from an open file and returns
/// them: as many as the file still has there.
pub fn read(
    driver: &Driver,
    handles: &FileState,
    handle: FileHandle,
    offset: u64,
    size: u32,
    flags: i32,
) -> (r: Result<Vec<u8>, i32>)
    requires
        driver.wf(),
    ensures
        match admission(flags, true) {
            Err(code) => r matches Err(c) && c == code,
            Ok(_) => if !handles.files@.contains_key(handle) {
                r matches Err(c) && c == EBADF
            } else {
                match file_read(
                    driver.image(),
                    driver.bpb,
                    handles.files@[handle].directory@.cluster_num(),
                    handles.files@[handle].directory@.entry.file_size as nat,
                    offset as nat,
                    size as nat,
                ) {
                    Ok(data) => r matches Ok(bytes) && bytes@ == data,
                    Err(e) => r matches Err(c) && c == errno_of_spec(e),
                }
            },
        },
{
    match admit_open(flags, true) {
        Err(code) => {
            return Err(code);
        },
        Ok(()) => {},
    }
    let mut buffer: Vec<u8> = vec![0u8; size as usize];
    match driver.read(handles, handle, &mut buffer, offset) {
        Err(e) => Err(errno_of(&e)),
        Ok(n) => {
            let ghost filled = buffer@;
            buffer.truncate(n);
            assert(buffer@ =~= filled.subrange(0, n as int));
            Ok(buffer)
        },
    }
}

/// Closes a file handle.
pub fn release(driver: &Driver, handles: &mut FileState, handle: FileHandle) -> (r: Result<(), i32>)
    requires
        old(handles).wf(),
    ensures
        final(handles).wf(),
        old(handles).files@.contains_key(handle) ==> r is Ok && old(handles).file_closed(
            final(handles),
            handle,
        ),
        !old(handles).files@.contains_key(handle) ==> r == Err::<(), i32>(EBADF) && old(handles).unchanged(final(handles)),
{
    match driver.close(handles, handle) {
        Ok(()) => Ok(()),
        Err(e) => Err(errno_of(&e)),
    }
}

/// Closes a directory handle.
pub fn releasedir(driver: &Driver, handles: &mut FileState, handle: FileHandle) -> (r: Result<
    (),
    i32,
>)
    requires
        old(handles).wf(),
    ensures
        final(handles).wf(),
        old(handles).dirs@.contains_key(handle) ==> r is Ok && old(handles).dir_closed(
            final(handles),
            handle,
        ),
        !old(handles).dirs@.contains_key(handle) ==> r == Err::<(), i32>(EBADF) && old(handles).unchanged(final(handles)),
{
    match driver.close_dir(handles, handle) {
        Ok(()) => Ok(()),
        Err(e) => Err(errno_of(&e)),
    }
}

} // verus!
