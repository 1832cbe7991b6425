use linux_bundle::archive::create_tar_from_dir;
use linux_bundle::archive::tar_and_gzip_dir;
use linux_bundle::archive::ArchiveEntry;
use linux_bundle::archive::ArchiveError;
use linux_bundle::archive::EntryKind;

fn sample_entries() -> Vec<ArchiveEntry> {
    vec![
        ArchiveEntry {
            rel_path: "file1.txt".to_string(),
            kind: EntryKind::File,
            mode: 0o644,
            data: Vec::new(),
        },
        ArchiveEntry {
            rel_path: "subdir".to_string(),
            kind: EntryKind::Directory,
            mode: 0o755,
            data: Vec::new(),
        },
        ArchiveEntry {
            rel_path: "subdir/file2.txt".to_string(),
            kind: EntryKind::File,
            mode: 0o644,
            data: b"test".to_vec(),
        },
    ]
}

fn unpack(artifact: &[u8]) -> Vec<(String, bool, Vec<u8>)> {
    let dec = libflate::gzip::Decoder::new(artifact).unwrap();
    let mut archive = tar::Archive::new(dec);
    let mut seen: Vec<(String, bool, Vec<u8>)> = Vec::new();
    for entry in archive.entries().unwrap() {
        let mut entry = entry.unwrap();
        let path = entry.path().unwrap().to_string_lossy().into_owned();
        let is_dir = entry.header().entry_type().is_dir();
        let mut data: Vec<u8> = Vec::new();
        std::io::Read::read_to_end(&mut entry, &mut data).unwrap();
        seen.push((path, is_dir, data));
    }
    seen
}

#[test]
fn test_tar_and_gzip_dir() {
    let entries = sample_entries();
    let (dest, artifact) = tar_and_gzip_dir("tmp/foo", &entries).unwrap();
    assert_eq!(dest, "tmp/foo.tar.gz");
    assert!(artifact.len() > 0);
    let seen = unpack(&artifact);
    assert_eq!(seen.len(), 3);
    assert_eq!(seen[0].0, "file1.txt");
    assert!(!seen[0].1);
    assert_eq!(seen[0].2, b"");
    assert_eq!(seen[1].0, "subdir");
    assert!(seen[1].1);
    assert_eq!(seen[2].0, "subdir/file2.txt");
    assert!(!seen[2].1);
    assert_eq!(seen[2].2, b"test");
    assert!(seen.iter().all(|(p, _, _)| p != "foo" && !p.starts_with("foo/")));
}

#[test]
fn test_create_tar_preserves_order_and_modes() {
    let entries = sample_entries();
    let tar_bytes = create_tar_from_dir(&entries).unwrap();
    let mut archive = tar::Archive::new(tar_bytes.as_slice());
    let mut paths: Vec<String> = Vec::new();
    let mut modes: Vec<u32> = Vec::new();
    for entry in archive.entries().unwrap() {
        let entry = entry.unwrap();
        paths.push(entry.path().unwrap().to_string_lossy().into_owned());
        modes.push(entry.header().mode().unwrap());
    }
    assert_eq!(paths, vec!["file1.txt", "subdir", "subdir/file2.txt"]);
    assert_eq!(modes, vec![0o644, 0o755, 0o644]);
}

#[test]
fn test_empty_directory_archives() {
    let entries: Vec<ArchiveEntry> = Vec::new();
    let (dest, artifact) = tar_and_gzip_dir("work/empty", &entries).unwrap();
    assert_eq!(dest, "work/empty.tar.gz");
    assert_eq!(unpack(&artifact).len(), 0);
}

#[test]
fn test_rejected_entry_path_aborts() {
    let entries = vec![ArchiveEntry {
        rel_path: "../escape.txt".to_string(),
        kind: EntryKind::File,
        mode: 0o644,
        data: b"x".to_vec(),
    }];
    assert_eq!(create_tar_from_dir(&entries), Err(ArchiveError::Append));
    assert!(tar_and_gzip_dir("tmp/foo", &entries).is_err());
}

#[test]
fn test_nul_in_entry_path_aborts() {
    let entries = vec![ArchiveEntry {
        rel_path: "a\0b.txt".to_string(),
        kind: EntryKind::File,
        mode: 0o644,
        data: b"x".to_vec(),
    }];
    assert_eq!(create_tar_from_dir(&entries), Err(ArchiveError::Append));
}
