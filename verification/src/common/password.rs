//! Password to seed.
use vstd::prelude::*;

use crate::common::sha::{sha256, sha256_digest};
use vstd::string::StringSliceAdditionalSpecFns;

verus! {

/// Hash a password string into a 32-byte seed for the ChaCha20 PRNG.
pub fn password_to_seed(password: &str) -> (seed: [u8; 32])
    ensures
        seed@ == sha256_digest(password.spec_bytes()),
{
    sha256(password.as_bytes())
}

/// The seed is a function of the password alone: equal passwords give equal
/// seeds.
pub proof fn lemma_seed_depends_only_on_password(p1: &str, p2: &str)
    requires
        p1@ == p2@,
    ensures
        sha256_digest(p1.spec_bytes()) == sha256_digest(p2.spec_bytes()),
{
}

} // verus!
