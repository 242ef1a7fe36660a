//! A single-asset token ledger with a fixed supply cap, provenance-gated
//! minting, digest-derived token identifiers, signed mint events and
//! whole-record transfers.

pub mod pi_digits;
pub mod identifier;
pub mod error;
pub mod keys;
pub mod ledger;
pub mod laws;

pub use error::LedgerError;
pub use identifier::{derive_id, mint_text, pi_based_hash, push_decimal};
pub use keys::KeyPair;
pub use ledger::{PiCoin, PiCoinContract};
pub use pi_digits::generate_pi_digits;
