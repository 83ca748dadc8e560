use crate::error::{Fat32Error, Fat32Result};
use vstd::prelude::*;

verus! {

/// A block device held as the bytes of its image. Reads are positional:
/// nothing like a cursor exists, so a read changes nothing.
pub struct Drive {
    bytes: Vec<u8>,
}

impl View for Drive {
    type V = Seq<u8>;

    closed spec fn view(&self) -> Seq<u8> {
        self.bytes@
    }
}

/// How many bytes a positional read of `want` bytes at `offset` delivers
/// from a device of `size` bytes.
pub open spec fn read_count(size: nat, offset: int, want: nat) -> nat {
    if offset < 0 || offset >= size {
        0
    } else if offset + want <= size {
        want
    } else {
        (size - offset) as nat
    }
}

/// What a buffer holds after a positional read at `offset`: the bytes that
/// were delivered at its front, and behind them what it held before.
pub open spec fn after_read(image: Seq<u8>, offset: int, buf: Seq<u8>) -> Seq<u8> {
    let n = read_count(image.len(), offset, buf.len());
    if n == 0 {
        buf
    } else {
        image.subrange(offset, offset + n) + buf.subrange(n as int, buf.len() as int)
    }
}

impl Drive {
    /// A device over the given image.
    pub fn from_bytes(bytes: Vec<u8>) -> (drive: Drive)
        ensures
            drive@ == bytes@,
    {
        Drive { bytes }
    }

    /// The size of the device in bytes.
    pub fn size(&self) -> (n: usize)
        ensures
            n == self@.len(),
    {
        self.bytes.len()
    }

    /// Reads into the front of `buf` the bytes found at `offset`, as many as
    /// the device has there and `buf` can take, and returns their number. A
    /// count below `buf.len()` is a short read. The rest of `buf` keeps what
    /// it held. A negative offset is an error.
    pub fn read(&self, buf: &mut Vec<u8>, offset: i64) -> (r: Fat32Result<usize>)
        ensures
            offset < 0 ==> r == Err::<usize, Fat32Error>(Fat32Error::IOError),
            offset >= 0 ==> r == Ok::<usize, Fat32Error>(
                read_count(self@.len(), offset as int, old(buf)@.len()) as usize,
            ),
            final(buf)@ == after_read(self@, offset as int, old(buf)@),
    {
        if offset < 0 {
            return Err(Fat32Error::IOError);
        }
        let size: usize = self.bytes.len();
        let want: usize = buf.len();
        let start: u64 = offset as u64;
        if start >= size as u64 {
            return Ok(0);
        }
        let start: usize = start as usize;
        let n: usize = if want <= size - start {
            want
        } else {
            size - start
        };
        let mut i: usize = 0;
        while i < n
            invariant
                i <= n,
                n <= want,
                start + n <= size,
                size == self.bytes@.len(),
                want == old(buf)@.len(),
                buf@.len() == want,
                buf@ =~= self.bytes@.subrange(start as int, start + i) + old(buf)@.subrange(
                    i as int,
                    want as int,
                ),
            decreases n - i,
        {
            buf[i] = self.bytes[start + i];
            i += 1;
        }
        Ok(n)
    }
}

} // verus!
