//! A read-only FAT32 driver over an abstract block device: allocation-table
//! lookups, cluster-chain assembly, 8.3 directory decoding and path resolution.
pub mod device;
pub mod fs;
