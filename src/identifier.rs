//! Deterministic token identifiers: the SHA3-512 digest of the mint
//! parameters' canonical text followed by a fixed pi-digit salt.
use crate::pi_digits::{digit_char, digit_str, generate_pi_digits, pi_text};
use sha3::Digest;
use vstd::prelude::*;
use vstd::string::StringExecFns;

verus! {

/// Number of fractional pi digits in the identifier salt.
pub const SALT_DIGITS: usize = 50;

/// The SHA3-512 digest of the UTF-8 encoding of a text.
pub uninterp spec fn sha3_512_of(text: Seq<char>) -> Seq<u8>;

/// Relies on `sha3::Sha3_512` (through `Digest::digest`): a 64-byte digest that
/// depends on the bytes of the text alone.
#[verifier::external_body]
fn sha3_512(text: &str) -> (r: [u8; 64])
    ensures
        r@ == sha3_512_of(text@),
{
    sha3::Sha3_512::digest(text.as_bytes()).into()
}

/// Decimal text of a natural number, without leading zeros.
pub open spec fn dec_text(n: nat) -> Seq<char>
    decreases n,
{
    if n < 10 {
        seq![digit_char(n)]
    } else {
        dec_text(n / 10).push(digit_char(n % 10))
    }
}

/// Appends the decimal text of `n` to `s`.
pub fn push_decimal(s: &mut String, n: u64)
    ensures
        final(s)@ == old(s)@ + dec_text(n as nat),
    decreases n,
{
    if n >= 10 {
        push_decimal(s, n / 10);
    }
    let last = digit_str((n % 10) as u8);
    s.append(last);
    assert(s@ =~= old(s)@ + dec_text(n as nat));
}

/// Canonical text of mint parameters: `owner-amount-source`.
pub open spec fn id_text(owner: Seq<char>, amount: nat, source: Seq<char>) -> Seq<char> {
    owner + seq!['-'] + dec_text(amount) + seq!['-'] + source
}

/// The identifier of the token minted to `owner` for `amount` from `source`.
pub open spec fn token_key(owner: Seq<char>, amount: nat, source: Seq<char>) -> Seq<u8> {
    sha3_512_of(id_text(owner, amount, source) + pi_text(SALT_DIGITS as nat))
}

/// The digest of `data` followed by the salt text `pi_digits`.
pub fn pi_based_hash(data: &str, pi_digits: &str) -> (r: [u8; 64])
    ensures
        r@ == sha3_512_of(data@ + pi_digits@),
{
    let mut combined = String::from_str(data);
    combined.append(pi_digits);
    sha3_512(combined.as_str())
}

/// The canonical text of mint parameters.
pub fn mint_text(owner: &str, amount: u64, source: &str) -> (r: String)
    ensures
        r@ == id_text(owner@, amount as nat, source@),
{
    let mut text = String::from_str(owner);
    text.append("-");
    push_decimal(&mut text, amount);
    text.append("-");
    text.append(source);
    proof {
        reveal_strlit("-");
        assert(text@ =~= id_text(owner@, amount as nat, source@));
    }
    text
}

/// Derives the identifier of the token minted to `owner` for `amount` from
/// `source`; equal parameters always give equal identifiers.
pub fn derive_id(owner: &str, amount: u64, source: &str) -> (r: [u8; 64])
    ensures
        r@ == token_key(owner@, amount as nat, source@),
{
    let text = mint_text(owner, amount, source);
    let salt = generate_pi_digits(SALT_DIGITS);
    pi_based_hash(text.as_str(), salt.as_str())
}

} // verus!
