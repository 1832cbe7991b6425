use linux_bundle::checksum::digest_to_hex;
use linux_bundle::checksum::generate_md5sum;
use linux_bundle::checksum::md5sum_hex;

#[test]
fn test_generate_md5sum() {
    let sum = generate_md5sum(&b"test".to_vec());
    assert_eq!(sum.len(), 16);
    let mut md5_str = String::new();
    md5_str.push_str(&digest_to_hex(&sum));
    assert_eq!(md5_str, "098f6bcd4621d373cade4e832627b4f6".to_string());
}

#[test]
fn test_md5sum_is_stable_across_buffers() {
    let a = generate_md5sum(&b"test".to_vec());
    let b = generate_md5sum(&vec![b't', b'e', b's', b't']);
    assert_eq!(a, b);
    assert_eq!(md5sum_hex(&b"test".to_vec()), "098f6bcd4621d373cade4e832627b4f6");
}

#[test]
fn test_md5sum_empty() {
    assert_eq!(md5sum_hex(&Vec::new()), "d41d8cd98f00b204e9800998ecf8427e");
}
