use fat32::fs::directory::{DirectoryEntry, EntryType};
use fat32::fs::ls::listing_target;
use fat32::device::block_device::MemoryBlockDevice;
use fat32::fs::boot_sector::BootSector;
use fat32::fs::clusters::ClusterReader;
use fat32::fs::directory::DirectoryReader;
use fat32::fs::fat::Fat;
use fat32::fs::ls::Ls;
use fat32::fs::path::{PathError, PathResolver};

fn make_boot_sector() -> BootSector {
    BootSector {
        bytes_per_sector: 512,
        sectors_per_cluster: 1,
        reserved_sectors: 1,
        fat_count: 1,
        sectors_per_fat: 1,
        root_cluster: 2,
    }
}

fn make_dir_entry(name: &str, ext: &str, attr: u8, start_cluster: u32, size: u32) -> [u8; 32] {
    let mut e = [0u8; 32];
    let mut n = [b' '; 8];
    n[..name.len()].copy_from_slice(name.as_bytes());
    e[0..8].copy_from_slice(&n);
    let mut x = [b' '; 3];
    x[..ext.len()].copy_from_slice(ext.as_bytes());
    e[8..11].copy_from_slice(&x);
    e[11] = attr;
    e[20..22].copy_from_slice(&((start_cluster >> 16) as u16).to_le_bytes());
    e[26..28].copy_from_slice(&(start_cluster as u16).to_le_bytes());
    e[28..32].copy_from_slice(&size.to_le_bytes());
    e
}

/// Cluster 2: root, holding DIR. Cluster 3: DIR, holding FILE.TXT, chained to
/// cluster 4. Cluster 4: the file data (zeros).
fn make_disk_image() -> Vec<u8> {
    let mut img = vec![0u8; 512];
    let mut fat = vec![0u8; 512];
    fat[2 * 4..2 * 4 + 4].copy_from_slice(&0x0FFF_FFFFu32.to_le_bytes());
    fat[3 * 4..3 * 4 + 4].copy_from_slice(&4u32.to_le_bytes());
    fat[4 * 4..4 * 4 + 4].copy_from_slice(&0x0FFF_FFFFu32.to_le_bytes());
    img.extend_from_slice(&fat);
    let mut root = vec![0u8; 512];
    root[0..32].copy_from_slice(&make_dir_entry("DIR", "", 0x10, 3, 0));
    img.extend_from_slice(&root);
    let mut dir = vec![0u8; 512];
    dir[0..32].copy_from_slice(&make_dir_entry("FILE", "TXT", 0x20, 4, 123));
    img.extend_from_slice(&dir);
    img.extend_from_slice(&vec![0u8; 512]);
    img
}

#[test]
fn ls_root() {
    let img = make_disk_image();
    let device = MemoryBlockDevice::new(&img);
    let boot = make_boot_sector();
    let fat = Fat::new(&device, &boot);
    let clusters = ClusterReader::new(&device, &boot, &fat);
    let dirs = DirectoryReader::new(&clusters);
    let resolver = PathResolver::new(&boot, &dirs);
    let ls = Ls::new(&resolver);

    let entries = ls.list(None, boot.root_cluster).unwrap();
    assert_eq!(entries.len(), 1);
    assert_eq!(entries[0].name, "DIR");
}

#[test]
fn ls_subdir() {
    let img = make_disk_image();
    let device = MemoryBlockDevice::new(&img);
    let boot = make_boot_sector();
    let fat = Fat::new(&device, &boot);
    let clusters = ClusterReader::new(&device, &boot, &fat);
    let dirs = DirectoryReader::new(&clusters);
    let resolver = PathResolver::new(&boot, &dirs);
    let ls = Ls::new(&resolver);

    let entries = ls.list(Some("/DIR"), boot.root_cluster).unwrap();
    assert_eq!(entries.len(), 1);
    assert_eq!(entries[0].name, "FILE.TXT");
}

#[test]
fn ls_errors() {
    let img = make_disk_image();
    let device = MemoryBlockDevice::new(&img);
    let boot = make_boot_sector();
    let fat = Fat::new(&device, &boot);
    let clusters = ClusterReader::new(&device, &boot, &fat);
    let dirs = DirectoryReader::new(&clusters);
    let resolver = PathResolver::new(&boot, &dirs);
    let ls = Ls::new(&resolver);

    assert_eq!(ls.list(Some("/DIR/FILE.TXT"), 2), Err(PathError::NotADirectory));
    assert_eq!(ls.list(Some("/NOPE"), 2), Err(PathError::NotFound));
    assert_eq!(ls.list(Some(""), 2), Err(PathError::EmptyPath));
    assert_eq!(ls.list(None, 5), Err(PathError::NotFound));
    assert_eq!(ls.list(Some("."), 3).unwrap()[0].name, "FILE.TXT");
}

#[test]
fn ls_decision_and_cwd_listing() {
    let file = DirectoryEntry { name: "A".to_string(), entry_type: EntryType::File, start_cluster: 9, size: 1 };
    assert_eq!(listing_target(Ok((9, Some(file)))), Err(PathError::NotADirectory));
    assert_eq!(listing_target(Ok((7, None))), Ok(7));
    assert_eq!(listing_target(Err(PathError::EmptyPath)), Err(PathError::EmptyPath));

    let img = make_disk_image();
    let device = MemoryBlockDevice::new(&img);
    let boot = make_boot_sector();
    let fat = Fat::new(&device, &boot);
    let clusters = ClusterReader::new(&device, &boot, &fat);
    let dirs = DirectoryReader::new(&clusters);
    let resolver = PathResolver::new(&boot, &dirs);
    let ls = Ls::new(&resolver);
    assert_eq!(ls.list(None, 3), resolver.read_dir(3));
}
