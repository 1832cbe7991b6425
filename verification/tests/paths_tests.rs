use linux_bundle::paths::extension;
use linux_bundle::paths::file_name;
use linux_bundle::paths::file_stem;
use linux_bundle::paths::is_high_density;
use linux_bundle::paths::rfind_char;
use linux_bundle::paths::strip_path_prefix;
use linux_bundle::paths::with_extension;
use linux_bundle::numtext::bytes_to_hex;
use linux_bundle::numtext::u32_to_dec;

#[test]
fn test_extension() {
    assert_eq!(extension("dir/foo.png").unwrap(), "png");
    assert_eq!(extension("dir/foo.icns").unwrap(), "icns");
    assert_eq!(extension("a.tar.gz").unwrap(), "gz");
    assert!(extension("dir/foo").is_none());
    assert!(extension(".gitignore").is_none());
    assert!(extension("dir.d/foo").is_none());
    assert_eq!(extension("foo.").unwrap(), "");
}

#[test]
fn test_file_name_and_stem() {
    assert_eq!(file_name("a/b/c.txt"), "c.txt");
    assert_eq!(file_name("c.txt"), "c.txt");
    assert_eq!(file_stem("dir/icon@2x.png"), "icon@2x");
    assert_eq!(file_stem("dir/icon"), "icon");
    assert_eq!(file_stem("dir/.hidden"), ".hidden");
}

#[test]
fn test_is_high_density() {
    assert!(is_high_density("dir/icon@2x.png"));
    assert!(is_high_density("icon@2x.jpeg"));
    assert!(!is_high_density("dir/icon.png"));
    assert!(!is_high_density("dir/2x.png"));
    assert!(!is_high_density("@2x/icon.png"));
}

#[test]
fn test_with_extension() {
    assert_eq!(with_extension("tmp/foo", "tar.gz"), "tmp/foo.tar.gz");
    assert_eq!(with_extension("tmp/foo.dir", "tar.gz"), "tmp/foo.tar.gz");
    assert_eq!(with_extension("foo", "tar.gz"), "foo.tar.gz");
}

#[test]
fn test_strip_path_prefix() {
    assert_eq!(strip_path_prefix("a/b/c", "a/b").unwrap(), "c");
    assert_eq!(strip_path_prefix("a/b", "a/b").unwrap(), "");
    assert!(strip_path_prefix("a/bc", "a/b").is_none());
    assert!(strip_path_prefix("a", "a/b").is_none());
}

#[test]
fn test_rfind_char() {
    assert_eq!(rfind_char("a/b/c", '/'), Some(3));
    assert_eq!(rfind_char("abc", '/'), None);
}

#[test]
fn test_number_rendering() {
    assert_eq!(u32_to_dec(0), "0");
    assert_eq!(u32_to_dec(32), "32");
    assert_eq!(u32_to_dec(4294967295), "4294967295");
    assert_eq!(bytes_to_hex(&[0x0f, 0xa0]), "0fa0");
    assert_eq!(bytes_to_hex(&[]), "");
}
