//! The storage medium the filesystem reads from.
use vstd::prelude::*;

verus! {

/// Failure reported by a block device.
#[derive(Debug, Clone, Copy, PartialEq, Eq, Structural)]
pub enum BlockDeviceError {
    /// The requested byte range lies (partly) past the end of the medium.
    OutOfBounds,
}

/// A linear, byte-addressed, read-only storage medium.
pub trait BlockDevice {
    /// The bytes held by the medium.
    spec fn contents(&self) -> Seq<u8>;

    /// The medium answers every read of a range that lies within its
    /// contents (true of a medium that cannot fail on its own).
    spec fn answers(&self) -> bool;

    /// Fills `buf` with the bytes starting at `offset`, or fails.
    /// A successful read is complete: no partial fill is reported as success.
    fn read_at(&self, offset: u64, buf: &mut [u8]) -> (r: Result<(), BlockDeviceError>)
        ensures
            final(buf)@.len() == old(buf)@.len(),
            self.answers() && offset + old(buf)@.len() <= self.contents().len() ==> r is Ok,
            r is Ok ==> offset + old(buf)@.len() <= self.contents().len() && final(buf)@
                == self.contents().subrange(offset as int, offset + old(buf)@.len()),
    ;
}

/// A block device backed by a byte slice in memory.
pub struct MemoryBlockDevice<'a> {
    data: &'a [u8],
}

impl<'a> MemoryBlockDevice<'a> {
    pub fn new(data: &'a [u8]) -> (r: Self)
        ensures
            r.contents() == data@,
            r.answers(),
    {
        MemoryBlockDevice { data }
    }
}

impl<'a> BlockDevice for MemoryBlockDevice<'a> {
    closed spec fn contents(&self) -> Seq<u8> {
        self.data@
    }

    open spec fn answers(&self) -> bool {
        true
    }

    fn read_at(&self, offset: u64, buf: &mut [u8]) -> (r: Result<(), BlockDeviceError>) {
        let len = buf.len();
        if offset > self.data.len() as u64 || len > self.data.len() - offset as usize {
            return Err(BlockDeviceError::OutOfBounds);
        }
        let start = offset as usize;
        let mut i: usize = 0;
        while i < len
            invariant
                len == buf@.len(),
                len == old(buf)@.len(),
                start + len <= self.data.len(),
                i <= len,
                forall|k: int| 0 <= k < i ==> buf@[k] == self.data@[start + k],
            decreases len - i,
        {
            buf[i] = self.data[start + i];
            i = i + 1;
        }
        assert(buf@ =~= self.data@.subrange(start as int, start + len));
        Ok(())
    }
}

} // verus!
