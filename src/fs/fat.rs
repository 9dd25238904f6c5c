//! The file allocation table: from a cluster to the next one of its chain.
use vstd::prelude::*;
use crate::device::block_device::{BlockDevice, BlockDeviceError};
use crate::fs::boot_sector::{BootSector, fat_start};

verus! {

/// Failure of an allocation-table lookup.
#[derive(Debug, Clone, Copy, PartialEq, Eq, Structural)]
pub enum FatError {
    /// The device could not be read.
    Io(BlockDeviceError),
    /// A reserved cluster number was asked for, or the entry read is zero
    /// (a free cluster inside an active chain means the volume is corrupt).
    InvalidCluster,
}

impl FatError {
    /// The failure came from the device rather than from the volume's contents.
    pub open spec fn is_io(self) -> bool {
        self is Io
    }
}

impl From<BlockDeviceError> for FatError {
    fn from(e: BlockDeviceError) -> (r: Self) {
        FatError::Io(e)
    }
}

impl vstd::std_specs::convert::FromSpecImpl<BlockDeviceError> for FatError {
    open spec fn obeys_from_spec() -> bool {
        true
    }

    open spec fn from_spec(e: BlockDeviceError) -> FatError {
        FatError::Io(e)
    }
}

/// Smallest masked table value that marks the end of a chain.
pub const END_OF_CHAIN_MIN: u32 = 0x0FFF_FFF8;

/// Only the low 28 bits of a table entry are meaningful.
pub const ENTRY_MASK: u32 = 0x0FFF_FFFF;

/// Little-endian value of four bytes.
pub open spec fn le_u32(b: Seq<u8>) -> u32 {
    (b[0] + 0x100 * b[1] + 0x1_0000 * b[2] + 0x100_0000 * b[3]) as u32
}

/// What a raw 32-bit table entry says about the next cluster.
pub open spec fn classify_entry(raw: u32) -> Result<Option<u32>, FatError> {
    let v = raw % 0x1000_0000;
    if v == 0 {
        Err(FatError::InvalidCluster)
    } else if v >= END_OF_CHAIN_MIN {
        Ok(None)
    } else {
        Ok(Some(v))
    }
}

/// The raw table entry of cluster `c` on a volume with bytes `disk`.
pub open spec fn fat_word(disk: Seq<u8>, boot: BootSector, c: u32) -> u32 {
    le_u32(disk.subrange(fat_start(boot) + 4 * c, fat_start(boot) + 4 * c + 4))
}

/// The successor of cluster `c` on a device that answers every read within
/// its contents; a read past the end fails with `Io`.
pub open spec fn next_cluster_spec(disk: Seq<u8>, boot: BootSector, c: u32) -> Result<
    Option<u32>,
    FatError,
> {
    if c < 2 {
        Err(FatError::InvalidCluster)
    } else if fat_start(boot) + 4 * c + 4 > disk.len() {
        Err(FatError::Io(BlockDeviceError::OutOfBounds))
    } else {
        classify_entry(fat_word(disk, boot, c))
    }
}

/// Decodes four little-endian bytes.
pub fn read_le_u32(b: &[u8]) -> (r: u32)
    requires
        b@.len() == 4,
    ensures
        r == le_u32(b@),
{
    b[0] as u32 + 0x100 * (b[1] as u32) + 0x1_0000 * (b[2] as u32) + 0x100_0000 * (b[3] as u32)
}

/// Classifies a raw table entry: end of chain, next cluster, or corruption.
pub fn decode_fat_entry(raw: u32) -> (r: Result<Option<u32>, FatError>)
    ensures
        r == classify_entry(raw),
        raw % 0x1000_0000 >= END_OF_CHAIN_MIN ==> r == Ok::<Option<u32>, FatError>(None),
        raw % 0x1000_0000 == 0 ==> r == Err::<Option<u32>, FatError>(FatError::InvalidCluster),
        0 < raw % 0x1000_0000 < END_OF_CHAIN_MIN ==> r == Ok::<Option<u32>, FatError>(Some((raw % 0x1000_0000) as u32)),
{
    let value = raw & ENTRY_MASK;
    assert(raw & 0x0FFF_FFFFu32 == raw % 0x1000_0000u32) by (bit_vector);
    if value == 0 {
        Err(FatError::InvalidCluster)
    } else if value >= END_OF_CHAIN_MIN {
        Ok(None)
    } else {
        Ok(Some(value))
    }
}

/// A readable allocation table.
pub struct Fat<'a, D: BlockDevice> {
    device: &'a D,
    boot: &'a BootSector,
}

impl<'a, D: BlockDevice> Fat<'a, D> {
    /// Bytes of the device the table is read from.
    pub closed spec fn disk(&self) -> Seq<u8> {
        self.device.contents()
    }

    /// Geometry of the volume.
    pub closed spec fn geometry(&self) -> BootSector {
        *self.boot
    }

    /// The device answers every read within its contents.
    pub closed spec fn answers(&self) -> bool {
        self.device.answers()
    }

    /// What `next_cluster(c)` returns when the device answers every read
    /// within its contents.
    pub open spec fn next_spec(&self, c: u32) -> Result<Option<u32>, FatError> {
        next_cluster_spec(self.disk(), self.geometry(), c)
    }

    pub fn new(device: &'a D, boot: &'a BootSector) -> (r: Self)
        ensures
            r.disk() == device.contents(),
            r.geometry() == *boot,
            r.answers() == device.answers(),
    {
        Fat { device, boot }
    }

    /// The cluster that follows `cluster` in its chain: `Ok(None)` at the end
    /// of the chain. On a device that answers, the outcome is the one the
    /// table's contents give; otherwise a failed read is reported as `Io`.
    pub fn next_cluster(&self, cluster: u32) -> (r: Result<Option<u32>, FatError>)
        ensures
            cluster < 2 ==> r == Err::<Option<u32>, FatError>(FatError::InvalidCluster),
            self.answers() ==> r == self.next_spec(cluster),
            r is Ok ==> r == self.next_spec(cluster),
            r matches Err(e) ==> e.is_io() || r == self.next_spec(cluster),
    {
        if cluster < 2 {
            return Err(FatError::InvalidCluster);
        }
        let offset = self.boot.fat_start() + cluster as u64 * 4;
        let mut entry: Vec<u8> = vec![0u8; 4];
        match self.device.read_at(offset, entry.as_mut_slice()) {
            Ok(()) => {},
            Err(e) => {
                return Err(FatError::Io(e));
            },
        }
        let raw = read_le_u32(entry.as_slice());
        assert(entry@ =~= self.disk().subrange(
            fat_start(self.geometry()) + 4 * cluster,
            fat_start(self.geometry()) + 4 * cluster + 4,
        ));
        decode_fat_entry(raw)
    }
}

} // verus!
