//! Volume geometry, taken as an already-parsed record.
use vstd::prelude::*;

verus! {

/// The geometry constants of a FAT32 volume.
#[derive(Debug, Clone, Copy, PartialEq, Eq)]
pub struct BootSector {
    pub bytes_per_sector: u16,
    pub sectors_per_cluster: u8,
    pub reserved_sectors: u16,
    pub fat_count: u8,
    pub sectors_per_fat: u32,
    pub root_cluster: u32,
}

/// Byte offset of the first allocation table.
pub open spec fn fat_start(b: BootSector) -> int {
    b.reserved_sectors * b.bytes_per_sector
}

/// Byte offset of the data region, after the reserved area and every table.
pub open spec fn data_start(b: BootSector) -> int {
    fat_start(b) + b.fat_count * (b.sectors_per_fat * b.bytes_per_sector)
}

/// Number of bytes in one cluster.
pub open spec fn cluster_size(b: BootSector) -> int {
    b.sectors_per_cluster * b.bytes_per_sector
}

/// Byte offset of cluster `c` (for `c >= 2`).
pub open spec fn cluster_offset(b: BootSector, c: u32) -> int {
    data_start(b) + (c - 2) * cluster_size(b)
}

/// Number of entries one allocation table holds: no chain of a sound volume
/// visits more clusters than this.
pub open spec fn fat_entry_count(b: BootSector) -> int {
    (b.sectors_per_fat * b.bytes_per_sector) / 4
}

impl BootSector {
    pub fn fat_start(&self) -> (r: u64)
        ensures
            r == fat_start(*self),
            r <= 0xffff * 0xffff,
    {
        assert(self.reserved_sectors * self.bytes_per_sector <= 0xffff * 0xffff) by (nonlinear_arith)
            requires
                self.reserved_sectors <= 0xffff,
                self.bytes_per_sector <= 0xffff,
        ;
        self.reserved_sectors as u64 * self.bytes_per_sector as u64
    }

    pub fn data_start(&self) -> (r: u64)
        ensures
            r == data_start(*self),
            r <= 0xffff * 0xffff + 0xff * (0xffff_ffff * 0xffff),
    {
        let fs = self.fat_start();
        assert(self.sectors_per_fat * self.bytes_per_sector <= 0xffff_ffff * 0xffff) by (nonlinear_arith)
            requires
                self.sectors_per_fat <= 0xffff_ffff,
                self.bytes_per_sector <= 0xffff,
        ;
        let per_fat = self.sectors_per_fat as u64 * self.bytes_per_sector as u64;
        assert(self.fat_count * per_fat <= 0xff * (0xffff_ffff * 0xffff)) by (nonlinear_arith)
            requires
                self.fat_count <= 0xff,
                per_fat <= 0xffff_ffff * 0xffff,
        ;
        fs + self.fat_count as u64 * per_fat
    }

    pub fn cluster_size(&self) -> (r: u64)
        ensures
            r == cluster_size(*self),
            r <= 0xff * 0xffff,
    {
        assert(self.sectors_per_cluster * self.bytes_per_sector <= 0xff * 0xffff) by (nonlinear_arith)
            requires
                self.sectors_per_cluster <= 0xff,
                self.bytes_per_sector <= 0xffff,
        ;
        self.sectors_per_cluster as u64 * self.bytes_per_sector as u64
    }

    pub fn cluster_offset(&self, c: u32) -> (r: u64)
        requires
            c >= 2,
        ensures
            r == cluster_offset(*self, c),
            r <= 0xffff * 0xffff + 0xff * (0xffff_ffff * 0xffff) + 0xffff_ffff * (0xff * 0xffff),
    {
        let ds = self.data_start();
        let cs = self.cluster_size();
        let k = (c - 2) as u64;
        assert(k * cs <= 0xffff_ffff * (0xff * 0xffff)) by (nonlinear_arith)
            requires
                k <= 0xffff_ffff,
                cs <= 0xff * 0xffff,
        ;
        ds + k * cs
    }

    pub fn fat_entry_count(&self) -> (r: u64)
        ensures
            r == fat_entry_count(*self),
    {
        assert(self.sectors_per_fat * self.bytes_per_sector <= 0xffff_ffff * 0xffff) by (nonlinear_arith)
            requires
                self.sectors_per_fat <= 0xffff_ffff,
                self.bytes_per_sector <= 0xffff,
        ;
        (self.sectors_per_fat as u64 * self.bytes_per_sector as u64) / 4
    }
}

} // verus!
