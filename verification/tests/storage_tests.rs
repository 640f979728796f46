use rust_stubs::storage::{crc, StubStorage};

#[test]
fn test_crc32() {
    let data = b"123456789";
    // Standard CRC32 algorithm for "123456789" is 0xCBF43926
    assert_eq!(crc(data), 0xCBF43926);
}

#[test]
fn crc_of_empty_and_single_bytes() {
    assert_eq!(crc(b""), 0);
    assert_eq!(crc(b"a"), 0xE8B7BE43);
    let s = StubStorage::new();
    assert_eq!(s.crc(b"123456789"), 0xCBF43926);
}

#[test]
fn test_stub_storage_subfiles() {
    let mut storage = StubStorage::new();
    assert_eq!(storage.get_subfile_count(), 0);

    let idx0 = storage.add_subfile(10);
    let idx1 = storage.add_subfile(20);

    assert_eq!(idx0, 0);
    assert_eq!(idx1, 1);
    assert_eq!(storage.get_subfile_count(), 2);

    storage.reset_subfiles();
    assert_eq!(storage.get_subfile_count(), 0);
}

#[test]
fn storage_queries() {
    let mut s = StubStorage::new();
    s.save_unique_number = 7;
    assert_eq!(s.request_message_box(), 1);
    assert_eq!(s.get_message_box_result(), 0);
    assert!(s.set_save_device());
    assert_eq!(s.get_save_unique_number(), (7, true));
    assert!(!s.get_save_disabled());
    assert_eq!(s.get_save_size(), 0);
    assert!(s.get_save_device_selected(3));
    assert_eq!(s.does_save_exist(), (false, 0));
    assert!(s.enough_space_for_min_save_game());
    assert_eq!(s.get_dlc_offers(), 0);
    let i = s.add_subfile(-3);
    assert_eq!(s.subfiles[i].region_index, -3);
    assert!(s.subfiles[i].data.is_empty());
}
