use source_drift::digest::{compute_file_hash, is_file_utf8, same_bytes, BLOCK_LEN};

fn hex(bytes: &[u8]) -> String {
    let mut out = String::new();
    for b in bytes {
        out.push_str(&format!("{:02x}", b));
    }
    out
}

#[test]
fn digest_of_known_contents() {
    assert_eq!(hex(&compute_file_hash(b"")), "d41d8cd98f00b204e9800998ecf8427e");
    assert_eq!(hex(&compute_file_hash(b"abc")), "900150983cd24fb0d6963f7d28e17f72");
    assert_eq!(
        hex(&compute_file_hash(b"The quick brown fox jumps over the lazy dog")),
        "9e107d9d372bb6826bd81d3542a419d6"
    );
}

#[test]
fn digest_has_sixteen_bytes() {
    assert_eq!(compute_file_hash(b"abc").len(), 16);
    assert_ne!(compute_file_hash(b"abc"), b"abc".to_vec());
}

#[test]
fn digest_over_several_blocks_is_that_of_the_whole() {
    let mut content: Vec<u8> = Vec::new();
    let mut i: usize = 0;
    while i < 3 * BLOCK_LEN + 17 {
        content.push((i % 251) as u8);
        i += 1;
    }
    assert_eq!(compute_file_hash(&content), md5::compute(&content).0.to_vec());
    let exact: Vec<u8> = vec![7u8; 2 * BLOCK_LEN];
    assert_eq!(compute_file_hash(&exact), md5::compute(&exact).0.to_vec());
}

#[test]
fn digest_tells_contents_apart() {
    assert_ne!(compute_file_hash(b"abc"), compute_file_hash(b"abd"));
    assert_eq!(compute_file_hash(b"abc"), compute_file_hash(b"abc"));
}

#[test]
fn text_is_well_formed_utf8() {
    assert!(is_file_utf8(b""));
    assert!(is_file_utf8(b"plain\nlines\n"));
    assert!(is_file_utf8("héllo wörld\n".as_bytes()));
    assert!(!is_file_utf8(&[0xff, 0xfe, 0x00]));
    assert!(!is_file_utf8(&[b'a', 0xc3]));
    assert!(!is_file_utf8(&[b'o', b'k', b'\n', 0x80, b'\n']));
}

#[test]
fn equality_of_digests() {
    assert!(same_bytes(&vec![1u8, 2u8], &vec![1u8, 2u8]));
    assert!(!same_bytes(&vec![1u8, 2u8], &vec![1u8, 3u8]));
    assert!(!same_bytes(&vec![1u8], &vec![1u8, 1u8]));
}
