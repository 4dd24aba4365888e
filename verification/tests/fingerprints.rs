use std::hash::Hasher;

use cpxor::hash::{fingerprint_bytes, Fingerprinter};

#[test]
fn fingerprint_matches_seahash_streaming_hasher() {
    let mut reference = seahash::SeaHasher::new();
    reference.write(b"hello world");
    assert_eq!(fingerprint_bytes(b"hello world"), reference.finish());
}

#[test]
fn fingerprint_of_empty_stream_matches_seahash() {
    let reference = seahash::SeaHasher::new();
    assert_eq!(fingerprint_bytes(b""), reference.finish());
}

#[test]
fn chunked_feeding_matches_one_shot() {
    let mut f = Fingerprinter::new();
    let done = f.feed(b"hello ", 6);
    assert!(!done);
    let done = f.feed(b"world", 6);
    assert!(done);
    assert_eq!(f.finish(), fingerprint_bytes(b"hello world"));
}

#[test]
fn chunk_boundaries_do_not_change_the_fingerprint() {
    let data = b"a longer stream of bytes, split many different ways";
    for chunk_len in [1usize, 2, 3, 7, 8, 9, 31, 32, 33, 64] {
        let mut f = Fingerprinter::new();
        let mut offset = 0usize;
        loop {
            let end = (offset + chunk_len).min(data.len());
            let done = f.feed(&data[offset..end], chunk_len);
            offset = end;
            if done {
                break;
            }
        }
        assert_eq!(f.finish(), fingerprint_bytes(data), "chunk_len {}", chunk_len);
    }
}

#[test]
fn empty_read_ends_the_stream() {
    let mut f = Fingerprinter::new();
    let done = f.feed(b"abcd", 4);
    assert!(!done);
    let done = f.feed(b"", 4);
    assert!(done);
    assert_eq!(f.finish(), fingerprint_bytes(b"abcd"));
}

#[test]
fn short_read_ends_the_stream() {
    let mut f = Fingerprinter::new();
    let done = f.feed(b"abc", 4);
    assert!(done);
    assert_eq!(f.finish(), fingerprint_bytes(b"abc"));
}

#[test]
fn differing_contents_give_differing_fingerprints() {
    assert_ne!(fingerprint_bytes(b"hello"), fingerprint_bytes(b"world"));
    assert_ne!(fingerprint_bytes(b""), fingerprint_bytes(b"\0"));
    assert_ne!(fingerprint_bytes(b"abc"), fingerprint_bytes(b"abcd"));
}

#[test]
fn same_contents_give_the_same_fingerprint() {
    assert_eq!(fingerprint_bytes(b"same"), fingerprint_bytes(b"same"));
}
