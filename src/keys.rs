//! The ledger's RSA signing key and the signatures it makes over token
//! identifiers.
use crate::error::LedgerError;
use vstd::prelude::*;

verus! {

#[verifier::external_type_specification]
#[verifier::external_body]
pub struct ExRsaPrivateKey(rsa::RsaPrivateKey);

#[verifier::external_type_specification]
#[verifier::external_body]
pub struct ExRsaPublicKey(rsa::RsaPublicKey);

#[verifier::external_type_specification]
#[verifier::external_body]
pub struct ExRsaError(rsa::Error);

/// Relies on `rsa::RsaPrivateKey::to_public_key`: the public half of a
/// private key.
#[verifier::external_body]
fn public_half(key: &rsa::RsaPrivateKey) -> (r: rsa::RsaPublicKey) {
    key.to_public_key()
}

/// Relies on `rsa::RsaPrivateKey::new`, fed by the operating system's random
/// source (`rand::rngs::OsRng`): a fresh two-prime key of `bits` bits, or an
/// error; nothing is promised of which.
#[verifier::external_body]
fn generate_private_key(bits: usize) -> (r: Result<rsa::RsaPrivateKey, rsa::Error>) {
    rsa::RsaPrivateKey::new(&mut rand::rngs::OsRng, bits)
}

/// Relies on `rsa::RsaPrivateKey::sign` with `rsa::Pkcs1v15Sign` over
/// SHA3-512: a PKCS#1 v1.5 signature of a 64-byte digest, or an error when the
/// key is too short for the padded digest.
#[verifier::external_body]
fn sign_pkcs1v15_sha3(key: &rsa::RsaPrivateKey, digest: &[u8; 64]) -> (r: Result<
    Vec<u8>,
    rsa::Error,
>) {
    key.sign(rsa::Pkcs1v15Sign::new::<sha3::Sha3_512>(), digest)
}

/// The ledger's signing key pair; the private half never leaves it.
pub struct KeyPair {
    private: rsa::RsaPrivateKey,
    public: rsa::RsaPublicKey,
    bits: usize,
}

impl KeyPair {
    /// The size in bits that the key pair was generated with.
    pub closed spec fn bits(&self) -> nat {
        self.bits as nat
    }

    /// Generates a fresh key pair of `bits` bits from a secure random source;
    /// a failure of generation is a `SigningError`.
    pub fn generate(bits: usize) -> (r: Result<KeyPair, LedgerError>)
        ensures
            match r {
                Ok(k) => k.bits() == bits,
                Err(e) => e == LedgerError::SigningError,
            },
    {
        match generate_private_key(bits) {
            Ok(private) => {
                let public = public_half(&private);
                Ok(KeyPair { private, public, bits })
            },
            Err(_) => Err(LedgerError::SigningError),
        }
    }

    /// The size in bits that the key pair was generated with.
    pub fn key_bits(&self) -> (r: usize)
        ensures
            r == self.bits(),
    {
        self.bits
    }

    /// The public half, with which anyone can check the signatures.
    pub fn public_key(&self) -> (r: &rsa::RsaPublicKey) {
        &self.public
    }

    /// Signs a token identifier; a failure of the signing key is a
    /// `SigningError`.
    pub fn sign(&self, digest: &[u8; 64]) -> (r: Result<Vec<u8>, LedgerError>)
        ensures
            r is Err ==> r == Err::<Vec<u8>, LedgerError>(LedgerError::SigningError),
    {
        match sign_pkcs1v15_sha3(&self.private, digest) {
            Ok(signature) => Ok(signature),
            Err(_) => Err(LedgerError::SigningError),
        }
    }
}

} // verus!
