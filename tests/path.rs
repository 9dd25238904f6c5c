use fat32::device::block_device::MemoryBlockDevice;
use fat32::fs::boot_sector::BootSector;
use fat32::fs::clusters::ClusterReader;
use fat32::fs::directory::{DirectoryReader, EntryType};
use fat32::fs::fat::Fat;
use fat32::fs::path::{PathError, PathResolver};

fn make_boot_sector() -> BootSector {
    BootSector {
        bytes_per_sector: 512,
        sectors_per_cluster: 1,
        reserved_sectors: 1,
        fat_count: 1,
        sectors_per_fat: 1,
        root_cluster: 2,
    }
}

fn make_dir_entry(name: &str, ext: &str, attr: u8, start_cluster: u32, size: u32) -> [u8; 32] {
    let mut e = [0u8; 32];
    let mut n = [b' '; 8];
    n[..name.len()].copy_from_slice(name.as_bytes());
    e[0..8].copy_from_slice(&n);
    let mut x = [b' '; 3];
    x[..ext.len()].copy_from_slice(ext.as_bytes());
    e[8..11].copy_from_slice(&x);
    e[11] = attr;
    e[20..22].copy_from_slice(&((start_cluster >> 16) as u16).to_le_bytes());
    e[26..28].copy_from_slice(&(start_cluster as u16).to_le_bytes());
    e[28..32].copy_from_slice(&size.to_le_bytes());
    e
}

/// Cluster 2: root, holding DIR. Cluster 3: DIR, holding FILE.TXT, chained to
/// cluster 4. Cluster 4: the file data (zeros).
fn make_disk_image() -> Vec<u8> {
    let mut img = vec![0u8; 512];
    let mut fat = vec![0u8; 512];
    fat[2 * 4..2 * 4 + 4].copy_from_slice(&0x0FFF_FFFFu32.to_le_bytes());
    fat[3 * 4..3 * 4 + 4].copy_from_slice(&4u32.to_le_bytes());
    fat[4 * 4..4 * 4 + 4].copy_from_slice(&0x0FFF_FFFFu32.to_le_bytes());
    img.extend_from_slice(&fat);
    let mut root = vec![0u8; 512];
    root[0..32].copy_from_slice(&make_dir_entry("DIR", "", 0x10, 3, 0));
    img.extend_from_slice(&root);
    let mut dir = vec![0u8; 512];
    dir[0..32].copy_from_slice(&make_dir_entry("FILE", "TXT", 0x20, 4, 123));
    img.extend_from_slice(&dir);
    img.extend_from_slice(&vec![0u8; 512]);
    img
}

#[test]
fn resolve_absolute_path() {
    let img = make_disk_image();
    let device = MemoryBlockDevice::new(&img);
    let boot = make_boot_sector();
    let fat = Fat::new(&device, &boot);
    let clusters = ClusterReader::new(&device, &boot, &fat);
    let dirs = DirectoryReader::new(&clusters);
    let resolver = PathResolver::new(&boot, &dirs);

    let (cluster, entry) = resolver.resolve("/DIR", 2).unwrap();
    assert_eq!(cluster, 3);
    assert_eq!(entry.unwrap().entry_type, EntryType::Directory);
}

#[test]
fn resolve_file_path() {
    let img = make_disk_image();
    let device = MemoryBlockDevice::new(&img);
    let boot = make_boot_sector();
    let fat = Fat::new(&device, &boot);
    let clusters = ClusterReader::new(&device, &boot, &fat);
    let dirs = DirectoryReader::new(&clusters);
    let resolver = PathResolver::new(&boot, &dirs);

    let (_, entry) = resolver.resolve("/DIR/FILE.TXT", 2).unwrap();
    assert_eq!(entry.unwrap().entry_type, EntryType::File);
}

#[test]
fn path_not_found() {
    let img = make_disk_image();
    let device = MemoryBlockDevice::new(&img);
    let boot = make_boot_sector();
    let fat = Fat::new(&device, &boot);
    let clusters = ClusterReader::new(&device, &boot, &fat);
    let dirs = DirectoryReader::new(&clusters);
    let resolver = PathResolver::new(&boot, &dirs);

    assert_eq!(resolver.resolve("/NOPE", 2), Err(PathError::NotFound));
}

#[test]
fn resolve_file_gives_its_cluster_and_entry() {
    let img = make_disk_image();
    let device = MemoryBlockDevice::new(&img);
    let boot = make_boot_sector();
    let fat = Fat::new(&device, &boot);
    let clusters = ClusterReader::new(&device, &boot, &fat);
    let dirs = DirectoryReader::new(&clusters);
    let resolver = PathResolver::new(&boot, &dirs);

    let (cluster, entry) = resolver.resolve("/DIR/FILE.TXT", 2).unwrap();
    let entry = entry.unwrap();
    assert_eq!(cluster, 4);
    assert_eq!(entry.entry_type, EntryType::File);
    assert_eq!(entry.size, 123);
    assert_eq!(entry.name, "FILE.TXT");
}

#[test]
fn empty_path_rejected() {
    let img = make_disk_image();
    let device = MemoryBlockDevice::new(&img);
    let boot = make_boot_sector();
    let fat = Fat::new(&device, &boot);
    let clusters = ClusterReader::new(&device, &boot, &fat);
    let dirs = DirectoryReader::new(&clusters);
    let resolver = PathResolver::new(&boot, &dirs);

    assert_eq!(resolver.resolve("", 2), Err(PathError::EmptyPath));
}

#[test]
fn dot_stays_at_cwd() {
    let img = make_disk_image();
    let device = MemoryBlockDevice::new(&img);
    let boot = make_boot_sector();
    let fat = Fat::new(&device, &boot);
    let clusters = ClusterReader::new(&device, &boot, &fat);
    let dirs = DirectoryReader::new(&clusters);
    let resolver = PathResolver::new(&boot, &dirs);

    assert_eq!(resolver.resolve(".", 3), Ok((3, None)));
    assert_eq!(resolver.resolve("././/.", 77), Ok((77, None)));
    assert_eq!(resolver.resolve("/", 3), Ok((2, None)));
}

#[test]
fn segments_after_file_ignored() {
    let img = make_disk_image();
    let device = MemoryBlockDevice::new(&img);
    let boot = make_boot_sector();
    let fat = Fat::new(&device, &boot);
    let clusters = ClusterReader::new(&device, &boot, &fat);
    let dirs = DirectoryReader::new(&clusters);
    let resolver = PathResolver::new(&boot, &dirs);

    let (cluster, entry) = resolver.resolve("/DIR/FILE.TXT/IGNORED", 2).unwrap();
    assert_eq!(cluster, 4);
    assert_eq!(entry.unwrap().name, "FILE.TXT");
    let (_, entry) = resolver.resolve("FILE.TXT/IGNORED/MORE", 3).unwrap();
    assert_eq!(entry.unwrap().name, "FILE.TXT");
}

#[test]
fn relative_path_and_repeated_separators() {
    let img = make_disk_image();
    let device = MemoryBlockDevice::new(&img);
    let boot = make_boot_sector();
    let fat = Fat::new(&device, &boot);
    let clusters = ClusterReader::new(&device, &boot, &fat);
    let dirs = DirectoryReader::new(&clusters);
    let resolver = PathResolver::new(&boot, &dirs);

    let (cluster, entry) = resolver.resolve("DIR//./", 2).unwrap();
    assert_eq!(cluster, 3);
    assert_eq!(entry.unwrap().name, "DIR");
    assert_eq!(resolver.resolve("dir", 2), Err(PathError::NotFound));
    assert_eq!(resolver.resolve("DIR", 3), Err(PathError::NotFound));
}

#[test]
fn resolver_read_dir_maps_failures() {
    let mut img = make_disk_image();
    img.extend_from_slice(&[0u8; 512]);
    let device = MemoryBlockDevice::new(&img);
    let boot = make_boot_sector();
    let fat = Fat::new(&device, &boot);
    let clusters = ClusterReader::new(&device, &boot, &fat);
    let dirs = DirectoryReader::new(&clusters);
    let resolver = PathResolver::new(&boot, &dirs);

    assert_eq!(resolver.read_dir(2).unwrap().len(), 1);
    assert_eq!(resolver.read_dir(5), Err(PathError::NotFound));
}

#[test]
fn same_segments_resolve_alike() {
    let img = make_disk_image();
    let device = MemoryBlockDevice::new(&img);
    let boot = make_boot_sector();
    let fat = Fat::new(&device, &boot);
    let clusters = ClusterReader::new(&device, &boot, &fat);
    let dirs = DirectoryReader::new(&clusters);
    let resolver = PathResolver::new(&boot, &dirs);

    let a = resolver.resolve("/DIR", 2);
    assert_eq!(resolver.resolve("//DIR/./", 2), a);
    assert_eq!(resolver.resolve("/./DIR/", 3), a);
}
