use vstd::prelude::*;

use crate::cache::STATIC_LIFETIME;

verus! {

/// The key pair algorithms a minted leaf certificate may use.
#[derive(Clone, Copy, Debug, PartialEq, Eq, Structural)]
pub enum KeyPairAlgorithm {
    Ed25519,
    EcdsaP256,
    EcdsaP384,
    RSA,
}

/// What a leaf certificate minted for a server name says: its common name,
/// its DNS subject alternative name, and its validity, in seconds since the
/// Unix epoch.
pub struct LeafSpec {
    pub common_name: String,
    pub dns_name: String,
    pub not_before: i64,
    pub not_after: i64,
    pub algorithm: KeyPairAlgorithm,
}

/// The algorithm leaves are minted with: RSA with a 3072-bit modulus.
pub fn default_algorithm() -> (r: KeyPairAlgorithm)
    ensures
        r == KeyPairAlgorithm::RSA,
{
    KeyPairAlgorithm::RSA
}

/// The leaf certificate to mint for `host` at time `now`: `CN=host`, a DNS
/// name `host`, valid from `now` for a year.
pub fn leaf_spec(host: &str, now: i64) -> (r: LeafSpec)
    requires
        now <= i64::MAX - STATIC_LIFETIME,
    ensures
        r.common_name@ == host@,
        r.dns_name@ == host@,
        r.not_before == now,
        r.not_after == now + STATIC_LIFETIME,
        r.algorithm == KeyPairAlgorithm::RSA,
{
    LeafSpec {
        common_name: host.to_owned(),
        dns_name: host.to_owned(),
        not_before: now,
        not_after: now + STATIC_LIFETIME,
        algorithm: default_algorithm(),
    }
}

} // verus!
