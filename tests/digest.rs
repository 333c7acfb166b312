use confidence::digest::{DigestStream, CHUNK_SIZE};

fn digest_in_chunks(content: &[u8], chunk: usize) -> (String, usize) {
    let mut s = DigestStream::new();
    for piece in content.chunks(chunk) {
        s.absorb(piece);
    }
    s.finish()
}

#[test]
fn digest_of_known_contents() {
    let mut s = DigestStream::new();
    assert!(s.absorb(b"hi"));
    assert_eq!(s.finish(), ("c22b5f9178342609428d6f51b2c5af4c0bde6a42".to_string(), 2));

    let empty = DigestStream::new();
    assert_eq!(empty.finish(), ("da39a3ee5e6b4b0d3255bfef95601890afd80709".to_string(), 0));
}

#[test]
fn digest_is_deterministic_across_chunkings() {
    let content: Vec<u8> = (0..1000u32).map(|i| (i % 251) as u8).collect();
    let whole = digest_in_chunks(&content, content.len());
    assert_eq!(whole, digest_in_chunks(&content, 1));
    assert_eq!(whole, digest_in_chunks(&content, 7));
    assert_eq!(whole, digest_in_chunks(&content, 1000));
    assert_eq!(whole.1, 1000);
}

#[test]
fn short_chunk_ends_the_stream() {
    let mut s = DigestStream::new();
    let full = vec![0u8; CHUNK_SIZE];
    assert!(!s.absorb(&full));
    assert!(s.absorb(&full[..CHUNK_SIZE - 1]));
    assert_eq!(s.count(), 2 * CHUNK_SIZE - 1);
    assert!(s.has_room(1));
}
