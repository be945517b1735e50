//! Content verification against an expected digest.

use vstd::prelude::*;
use crate::error::StormError;
use crate::hasher::{blake3_hex_of, hash_bytes};

verus! {

#[derive(Debug, Clone, Copy, PartialEq, Eq, Structural)]
pub enum HashAlgorithm {
    Blake3,
    Sha256,
    Md5,
}

/// Whether a computed digest matches the expected one, character for
/// character.
pub fn digest_matches(actual: &String, expected: &String) -> (r: bool)
    ensures
        r == (actual@ == expected@),
{
    *actual == *expected
}

/// Checks content against an expected digest.  Only BLAKE3 is computed;
/// the other algorithms are not implemented and always report an error.
pub struct ContentVerifier {
    expected_hash: String,
    algorithm: HashAlgorithm,
}

impl ContentVerifier {
    pub closed spec fn spec_expected(self) -> Seq<char> {
        self.expected_hash@
    }

    pub closed spec fn spec_algorithm(self) -> HashAlgorithm {
        self.algorithm
    }

    pub fn new(expected_hash: String, algorithm: HashAlgorithm) -> (v: ContentVerifier)
        ensures
            v.spec_expected() == expected_hash@,
            v.spec_algorithm() == algorithm,
    {
        ContentVerifier { expected_hash, algorithm }
    }

    /// Verifies `data`: succeeds exactly when the BLAKE3 digest of the
    /// bytes equals the expected digest; a mismatch reports both digests.
    /// An unimplemented algorithm always fails.
    pub fn verify(&self, data: &[u8]) -> (r: Result<(), StormError>)
        ensures
            self.spec_algorithm() == HashAlgorithm::Blake3 ==> {
                &&& (r is Ok <==> blake3_hex_of(data@) == self.spec_expected())
                &&& (r matches Err(e) ==> e matches StormError::HashMismatch {
                    expected,
                    actual,
                } && expected@ == self.spec_expected() && actual@ == blake3_hex_of(data@))
            },
            self.spec_algorithm() != HashAlgorithm::Blake3 ==> (r matches Err(e) && e
                is Other),
    {
        match self.algorithm {
            HashAlgorithm::Blake3 => {
                let actual = hash_bytes(data);
                if digest_matches(&actual, &self.expected_hash) {
                    Ok(())
                } else {
                    Err(
                        StormError::HashMismatch {
                            expected: self.expected_hash.clone(),
                            actual,
                        },
                    )
                }
            },
            _ => Err(StormError::Other("hash algorithm not implemented".to_owned())),
        }
    }
}

/// Verifies `data` against an expected BLAKE3 digest: succeeds exactly
/// when the digests agree; a mismatch reports both.
pub fn verify_content(data: &[u8], expected_hash: &str) -> (r: Result<(), StormError>)
    ensures
        r is Ok <==> blake3_hex_of(data@) == expected_hash@,
        r matches Err(e) ==> e matches StormError::HashMismatch { expected, actual }
            && expected@ == expected_hash@ && actual@ == blake3_hex_of(data@),
{
    let expected = expected_hash.to_owned();
    let actual = hash_bytes(data);
    if digest_matches(&actual, &expected) {
        Ok(())
    } else {
        Err(StormError::HashMismatch { expected, actual })
    }
}

} // verus!
