//! Assembling the bytes of a cluster chain.
use vstd::prelude::*;
use crate::device::block_device::{BlockDevice, BlockDeviceError};
use crate::fs::boot_sector::{BootSector, cluster_offset, cluster_size, fat_entry_count};
use crate::fs::fat::{Fat, FatError};

verus! {

/// Failure while reading a cluster chain.
#[derive(Debug, Clone, Copy, PartialEq, Eq, Structural)]
pub enum ClusterError {
    /// The allocation table lookup failed.
    Fat(FatError),
    /// A cluster's data could not be read from the device.
    Io(BlockDeviceError),
    /// The chain visits more clusters than the table has entries: it is
    /// corrupt, most likely cyclic.
    ChainTooLong,
}

impl ClusterError {
    /// The failure came from the device rather than from the volume's contents.
    pub open spec fn is_io(self) -> bool {
        match self {
            ClusterError::Io(_) => true,
            ClusterError::Fat(e) => e.is_io(),
            ClusterError::ChainTooLong => false,
        }
    }
}

/// The raw bytes of cluster `c`.
pub open spec fn cluster_data(disk: Seq<u8>, boot: BootSector, c: u32) -> Seq<u8> {
    disk.subrange(cluster_offset(boot, c), cluster_offset(boot, c) + cluster_size(boot))
}

/// `r` with `s` put in front of its bytes; errors pass through.
pub open spec fn prefixed(s: Seq<u8>, r: Result<Seq<u8>, ClusterError>) -> Result<
    Seq<u8>,
    ClusterError,
> {
    match r {
        Ok(t) => Ok(s + t),
        Err(e) => Err(e),
    }
}

/// Reads whole cluster chains.
pub struct ClusterReader<'a, D: BlockDevice> {
    device: &'a D,
    boot: &'a BootSector,
    fat: &'a Fat<'a, D>,
}

impl<'a, D: BlockDevice> ClusterReader<'a, D> {
    /// Bytes of the device the clusters are read from.
    pub closed spec fn disk(&self) -> Seq<u8> {
        self.device.contents()
    }

    /// Geometry used to place clusters.
    pub closed spec fn geometry(&self) -> BootSector {
        *self.boot
    }

    /// The allocation table followed from cluster to cluster.
    pub closed spec fn table(&self) -> Fat<'a, D> {
        *self.fat
    }

    /// The device holding the clusters answers every read within its contents.
    pub closed spec fn device_answers(&self) -> bool {
        self.device.answers()
    }

    /// Both the clusters' device and the table's device answer every read
    /// within their contents.
    pub open spec fn answers(&self) -> bool {
        self.device_answers() && self.table().answers()
    }

    /// The bytes of the chain from cluster `c`, allowing at most `fuel` more
    /// clusters, when the devices answer every read within their contents;
    /// a read past the end fails with `Io`.
    pub open spec fn chain_from(&self, c: u32, fuel: nat) -> Result<Seq<u8>, ClusterError>
        decreases fuel,
    {
        if fuel == 0 {
            Err(ClusterError::ChainTooLong)
        } else if c < 2 {
            Err(ClusterError::Fat(FatError::InvalidCluster))
        } else if cluster_offset(self.geometry(), c) + cluster_size(self.geometry())
            > self.disk().len() {
            Err(ClusterError::Io(BlockDeviceError::OutOfBounds))
        } else {
            let data = cluster_data(self.disk(), self.geometry(), c);
            match self.table().next_spec(c) {
                Err(e) => Err(ClusterError::Fat(e)),
                Ok(None) => Ok(data),
                Ok(Some(n)) => prefixed(data, self.chain_from(n, (fuel - 1) as nat)),
            }
        }
    }

    /// The bytes of the whole chain starting at `start`, when the devices
    /// answer every read within their contents.
    pub open spec fn chain_model(&self, start: u32) -> Result<Seq<u8>, ClusterError> {
        self.chain_from(start, fat_entry_count(self.geometry()) as nat)
    }

    pub fn new(device: &'a D, boot: &'a BootSector, fat: &'a Fat<'a, D>) -> (r: Self)
        ensures
            r.disk() == device.contents(),
            r.geometry() == *boot,
            r.table() == *fat,
            r.device_answers() == device.answers(),
    {
        ClusterReader { device, boot, fat }
    }

    /// Appends to `out` the bytes of every cluster of the chain that starts at
    /// `start_cluster`, in chain order and untrimmed. On devices that answer,
    /// the outcome is the one the volume gives; otherwise a failed read is
    /// reported as such.
    pub fn read_cluster_chain(&self, start_cluster: u32, out: &mut Vec<u8>) -> (r: Result<
        (),
        ClusterError,
    >)
        ensures
            self.answers() ==> match self.chain_model(start_cluster) {
                Ok(bytes) => r is Ok && final(out)@ == old(out)@ + bytes,
                Err(e) => r == Err::<(), ClusterError>(e),
            },
            fat_entry_count(self.geometry()) == 0 ==> r == Err::<(), ClusterError>(
                ClusterError::ChainTooLong,
            ),
            start_cluster < 2 && fat_entry_count(self.geometry()) > 0 ==> r == Err::<
                (),
                ClusterError,
            >(ClusterError::Fat(FatError::InvalidCluster)),
            r is Ok ==> self.chain_model(start_cluster) is Ok && final(out)@ == old(out)@
                + self.chain_model(start_cluster)->Ok_0,
            r matches Err(e) ==> e.is_io() || self.chain_model(start_cluster) == Err::<
                Seq<u8>,
                ClusterError,
            >(e),
    {
        let cs = self.boot.cluster_size() as usize;
        let limit = self.boot.fat_entry_count();
        let mut visits: u64 = 0;
        let mut current = start_cluster;
        let ghost acc: Seq<u8> = Seq::empty();
        loop
            invariant
                visits <= limit,
                cs == cluster_size(self.geometry()),
                limit == fat_entry_count(self.geometry()),
                out@ == old(out)@ + acc,
                visits == 0 ==> current == start_cluster,
                visits > 0 ==> start_cluster >= 2,
                self.chain_model(start_cluster) == prefixed(
                    acc,
                    self.chain_from(current, (limit - visits) as nat),
                ),
            decreases limit - visits,
        {
            if visits >= limit {
                return Err(ClusterError::ChainTooLong);
            }
            let ghost f0 = (limit - visits) as nat;
            if current < 2 {
                assert(self.chain_from(current, f0) == Err::<Seq<u8>, ClusterError>(
                    ClusterError::Fat(FatError::InvalidCluster),
                ));
                return Err(ClusterError::Fat(FatError::InvalidCluster));
            }
            let offset = self.boot.cluster_offset(current);
            let mut buf: Vec<u8> = vec![0u8; cs];
            match self.device.read_at(offset, buf.as_mut_slice()) {
                Ok(()) => {},
                Err(e) => {
                    proof {
                        if self.answers() {
                            assert(self.chain_from(current, f0) == Err::<Seq<u8>, ClusterError>(
                                ClusterError::Io(BlockDeviceError::OutOfBounds),
                            ));
                        }
                    }
                    return Err(ClusterError::Io(e));
                },
            }
            let ghost data = buf@;
            assert(self.chain_from(current, f0) == match self.table().next_spec(current) {
                Err(e) => Err(ClusterError::Fat(e)),
                Ok(None) => Ok(data),
                Ok(Some(n)) => prefixed(data, self.chain_from(n, (f0 - 1) as nat)),
            });
            assert(data =~= cluster_data(self.disk(), self.geometry(), current));
            out.append(&mut buf);
            visits = visits + 1;
            let ghost fuel = (limit - visits) as nat;
            match self.fat.next_cluster(current) {
                Err(e) => {
                    assert(self.chain_from(current, f0) == Err::<Seq<u8>, ClusterError>(
                        ClusterError::Fat(e),
                    ) || e.is_io());
                    return Err(ClusterError::Fat(e));
                },
                Ok(None) => {
                    proof {
                        assert(acc + data =~= acc + data + Seq::<u8>::empty());
                    }
                    return Ok(());
                },
                Ok(Some(n)) => {
                    proof {
                        assert(self.chain_from(current, fuel + 1) == prefixed(
                            data,
                            self.chain_from(n, fuel),
                        ));
                        match self.chain_from(n, fuel) {
                            Ok(t) => {
                                assert(acc + (data + t) =~= (acc + data) + t);
                            },
                            Err(_) => {},
                        }
                        acc = acc + data;
                    }
                    current = n;
                },
            }
        }
    }
}

} // verus!
