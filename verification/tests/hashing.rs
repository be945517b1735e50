use stormdl::hasher::{hash_bytes, IncrementalHasher};
use stormdl::integrity::{verify_content, ContentVerifier, HashAlgorithm};
use stormdl::error::StormError;

#[test]
fn test_incremental_hasher() {
    let mut hasher = IncrementalHasher::new();
    hasher.update(b"hello ");
    hasher.update(b"world");

    let incremental_hash = hasher.finalize();
    let direct_hash = hash_bytes(b"hello world");

    assert_eq!(incremental_hash, direct_hash);
}

#[test]
fn test_reset() {
    let mut hasher = IncrementalHasher::new();
    hasher.update(b"test");
    let hash1 = hasher.finalize_reset();

    hasher.update(b"test");
    let hash2 = hasher.finalize();

    assert_eq!(hash1, hash2);
}

#[test]
fn digest_depends_on_content() {
    let a = hash_bytes(b"a");
    let b = hash_bytes(b"b");
    assert_ne!(a, b);
    assert_eq!(a.len(), 64);
    assert_eq!(b.len(), 64);
    assert_ne!(a.as_bytes(), b"a");
}

#[test]
fn verify_content_round_trip() {
    let digest = hash_bytes(b"payload");
    assert!(verify_content(b"payload", &digest).is_ok());
    match verify_content(b"other payload", &digest) {
        Err(StormError::HashMismatch { expected, actual }) => {
            assert_eq!(expected, digest);
            assert_eq!(actual, hash_bytes(b"other payload"));
        }
        other => panic!("expected a hash mismatch, got {:?}", other.is_ok()),
    }
}

#[test]
fn verifier_rejects_unimplemented_algorithms() {
    let v = ContentVerifier::new(String::from("00"), HashAlgorithm::Sha256);
    assert!(matches!(v.verify(b"x"), Err(StormError::Other(_))));
    let digest = hash_bytes(b"x");
    let ok = ContentVerifier::new(digest, HashAlgorithm::Blake3);
    assert!(ok.verify(b"x").is_ok());
    assert!(ok.verify(b"y").is_err());
}

#[test]
fn bytes_hashed_counts_input() {
    let mut hasher = IncrementalHasher::new();
    assert_eq!(hasher.bytes_hashed(), 0);
    hasher.update(b"12345");
    assert_eq!(hasher.bytes_hashed(), 5);
    hasher.reset();
    assert_eq!(hasher.bytes_hashed(), 0);
}
