use crate::driver::{
    cluster_offset, cluster_span, delivered, fat_entry, fat_is_bad, fat_is_eoc, fat_is_free,
    fat_is_reserved, readable, span,
    Driver,
};
use crate::error::{Fat32Error, Fat32Result};
use vstd::prelude::*;

verus! {

/// Fills `buffer` with the bytes at `byte_offset` of sector `n`.
pub fn read_sector(driver: &Driver, n: u64, byte_offset: u64, buffer: &mut Vec<u8>) -> (r:
    Fat32Result<()>)
    ensures
        final(buffer)@.len() == old(buffer)@.len(),
        r is Ok <==> readable(
            driver.image().len(),
            driver.bpb.bpb_bytes_per_sec * n + byte_offset,
            old(buffer)@.len(),
        ),
        r is Ok ==> final(buffer)@ == span(
            driver.image(),
            driver.bpb.bpb_bytes_per_sec * n + byte_offset,
            old(buffer)@.len(),
        ),
        r is Err ==> r == Err::<(), Fat32Error>(Fat32Error::IOError),
        final(buffer)@ == delivered(
            driver.image(),
            driver.bpb.bpb_bytes_per_sec * n + byte_offset,
            old(buffer)@,
        ),
{
    driver.read_sector(n, byte_offset, buffer)
}

/// Fills `buffer` with the bytes at `byte_offset` of cluster `n`.
pub fn read_cluster(driver: &Driver, n: u32, byte_offset: u64, buffer: &mut Vec<u8>) -> (r:
    Fat32Result<()>)
    requires
        driver.wf(),
    ensures
        final(buffer)@.len() == old(buffer)@.len(),
        match cluster_span(driver.image(), driver.bpb, n, byte_offset as int, old(buffer)@.len()) {
            Ok(data) => r is Ok && final(buffer)@ == data,
            Err(e) => r == Err::<(), Fat32Error>(e),
        },
        final(buffer)@ == if n < 2 {
            old(buffer)@
        } else {
            delivered(
                driver.image(),
                cluster_offset(driver.bpb, n as int, byte_offset as int),
                old(buffer)@,
            )
        },
{
    driver.read_cluster(n, byte_offset, buffer)
}

/// The first sector of cluster `n`; clusters are numbered from 2.
pub fn cluster_start_sector(driver: &Driver, n: u32) -> (r: u64)
    requires
        driver.wf(),
        n >= 2,
    ensures
        r == driver.bpb.cluster_start_sector_spec(n as int),
{
    proof {
        driver.bpb.lemma_valid_geometry();
    }
    driver.bpb.cluster_start_sector(n)
}

/// A FAT entry, masked to the 28 bits that carry its value.
#[derive(Clone, Copy, Debug, PartialEq, Eq, Structural)]
pub struct Fat(pub u32);

impl Fat {
    /// Reads the entry of cluster `n`.
    pub fn read(driver: &Driver, n: u32) -> (r: Fat32Result<Fat>)
        requires
            driver.wf(),
        ensures
            r == match fat_entry(driver.image(), driver.bpb, n) {
                Some(v) => Ok::<Fat, Fat32Error>(Fat(v)),
                None => Err::<Fat, Fat32Error>(Fat32Error::IOError),
            },
    {
        match driver.read_fat_entry(n) {
            Ok(v) => Ok(Fat(v)),
            Err(e) => Err(e),
        }
    }

    pub fn is_eoc(&self) -> (r: bool)
        ensures
            r == fat_is_eoc(self.0),
    {
        fat_is_eoc(self.0)
    }

    pub fn is_free(&self) -> (r: bool)
        ensures
            r == fat_is_free(self.0),
    {
        fat_is_free(self.0)
    }

    pub fn is_bad(&self) -> (r: bool)
        ensures
            r == fat_is_bad(self.0),
    {
        fat_is_bad(self.0)
    }

    pub fn is_reserved(&self) -> (r: bool)
        ensures
            r == fat_is_reserved(self.0),
    {
        fat_is_reserved(self.0)
    }

    pub fn value(&self) -> (r: u32)
        ensures
            r == self.0,
    {
        self.0
    }

    /// The entry that this one points to: `None` at an end-of-chain or
    /// bad-cluster mark, and corruption where this entry is free or
    /// reserved and so points nowhere.
    pub fn next(&self, driver: &Driver) -> (r: Option<Fat32Result<Fat>>)
        requires
            driver.wf(),
        ensures
            r == if fat_is_eoc(self.0) || fat_is_bad(self.0) {
                None::<Fat32Result<Fat>>
            } else if fat_is_free(self.0) || fat_is_reserved(self.0) {
                Some(Err::<Fat, Fat32Error>(Fat32Error::FileCorrupt))
            } else {
                Some(
                    match fat_entry(driver.image(), driver.bpb, crate::driver::fat_value(self.0)) {
                        Some(v) => Ok::<Fat, Fat32Error>(Fat(v)),
                        None => Err::<Fat, Fat32Error>(Fat32Error::IOError),
                    },
                )
            },
    {
        if self.is_eoc() || self.is_bad() {
            return None;
        }
        if self.is_free() || self.is_reserved() {
            return Some(Err(Fat32Error::FileCorrupt));
        }
        Some(Fat::read(driver, crate::driver::fat_masked(self.0)))
    }
}

} // verus!
