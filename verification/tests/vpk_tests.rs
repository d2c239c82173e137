use screwdriver::vpk::{read_string, read_uint, read_ushort, FileInfo, VpkEntry, VPK};

#[test]
fn test_read_uint_le() {
    let bytes = vec![0x34, 0x12, 0xaa, 0x55, 0x01];
    let (v, next) = read_uint(&bytes, 0).unwrap();
    assert_eq!(v, 0x55aa_1234);
    assert_eq!(next, 4);
    assert!(read_uint(&bytes, 2).is_none());
}

#[test]
fn test_read_ushort_le() {
    let bytes = vec![0xff, 0x7f];
    let (v, next) = read_ushort(&bytes, 0).unwrap();
    assert_eq!(v, 0x7fff);
    assert_eq!(next, 2);
    assert!(read_ushort(&bytes, 1).is_none());
}

#[test]
fn test_read_string_zero_terminated() {
    let bytes = vec![b'v', b't', b'f', 0, b'x'];
    let (s, next) = read_string(&bytes, 0).unwrap();
    assert_eq!(s, b"vtf".to_vec());
    assert_eq!(next, 4);
    // an empty run terminates immediately
    let (s2, next2) = read_string(&bytes, 3).unwrap();
    assert!(s2.is_empty());
    assert_eq!(next2, 4);
    // no terminator from position 4 on
    assert!(read_string(&bytes, 4).is_none());
}

fn entry(path: &str, ext: &str, idx: u16, offset: u32, length: u32) -> VpkEntry {
    VpkEntry {
        path: String::from(path),
        extension: String::from(ext),
        info: FileInfo { archive_index: idx, offset, length, preload_data: Vec::new() },
    }
}

#[test]
fn test_get_entry_and_data_range() {
    let vpk = VPK {
        base_path: String::from("hl2/hl2_textures"),
        tree_size: 100,
        file_info: vec![
            entry("materials/brick/wall", "vtf", 3, 0, 64),
            entry("materials/brick/wall", "vmt", 0x7fff, 8, 16),
        ],
    };
    let info = vpk.get_entry("materials/brick/wall", "vmt").unwrap();
    assert_eq!(info.archive_index, 0x7fff);
    // data for a directory-resident entry follows the 28-byte header and
    // the tree
    let (start, len) = vpk.data_range_in_directory(info).unwrap();
    assert_eq!(start, 28 + 100 + 8);
    assert_eq!(len, 16);
    let info2 = vpk.get_entry("materials/brick/wall", "vtf").unwrap();
    assert!(vpk.data_range_in_directory(info2).is_none());
    assert!(vpk.get_entry("missing", "vtf").is_none());
}
