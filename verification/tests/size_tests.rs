use linux_bundle::size::total_dir_size;

#[test]
fn test_total_dir_size() {
    // Two 4-byte files under one subdirectory, with the directory metadata
    // sizes the walk reported: the total includes the directories' own sizes.
    let sizes: Vec<u64> = vec![80, 4, 60, 4];
    let total = total_dir_size(&sizes).unwrap();
    assert_eq!(total, 148);
    assert!(total >= 8);
}

#[test]
fn test_total_dir_size_files_only() {
    assert!(total_dir_size(&vec![4, 4]).unwrap() >= 8);
    assert_eq!(total_dir_size(&Vec::new()), Some(0));
}

#[test]
fn test_total_dir_size_overflow() {
    assert_eq!(total_dir_size(&vec![u64::MAX, 1]), None);
    assert_eq!(total_dir_size(&vec![u64::MAX]), Some(u64::MAX));
}
