use pi_coin::{derive_id, KeyPair, LedgerError, PiCoinContract};
use rsa::Pkcs1v15Sign;
use sha3::Sha3_512;

const CAP: u64 = 100_000_000_000;

fn tags() -> Vec<String> {
    vec!["mining".to_string(), "rewards".to_string(), "p2p".to_string()]
}

fn ledger(cap: u64) -> PiCoinContract {
    let keys = KeyPair::generate(768).expect("key generation");
    PiCoinContract::new(cap, 314159, tags(), keys)
}

#[test]
fn successful_mint() {
    let mut l = ledger(CAP);
    assert_eq!(l.issued(), 0);
    let coin = l.mint("A", "A", 1000, "mining").unwrap();
    assert_eq!(coin.amount, 1000);
    assert_eq!(coin.owner, "A");
    assert_eq!(coin.source, "mining");
    assert!(coin.verified);
    assert_eq!(l.issued(), 1000);
    assert_eq!(l.coin(&derive_id("A", 1000, "mining")), Some(coin));
}

#[test]
fn cap_exceeded() {
    let mut l = ledger(CAP);
    l.mint("A", "A", CAP, "mining").unwrap();
    assert_eq!(l.issued(), l.cap());
    assert_eq!(l.mint("B", "B", 1, "mining"), Err(LedgerError::SupplyExceeded));
    assert_eq!(l.issued(), CAP);
    assert_eq!(l.coin(&derive_id("B", 1, "mining")), None);
}

#[test]
fn invalid_source() {
    let mut l = ledger(CAP);
    assert_eq!(l.mint("A", "A", 10, "airdrop"), Err(LedgerError::InvalidSource));
    assert_eq!(l.issued(), 0);
    assert_eq!(l.coin(&derive_id("A", 10, "airdrop")), None);
}

#[test]
fn source_checked_before_supply() {
    let mut l = ledger(5);
    assert_eq!(l.mint("A", "A", 10, "airdrop"), Err(LedgerError::InvalidSource));
    assert_eq!(l.mint("A", "A", 10, "rewards"), Err(LedgerError::SupplyExceeded));
}

#[test]
fn mint_for_another_identity_is_refused() {
    let mut l = ledger(CAP);
    assert_eq!(l.mint("B", "A", 10, "mining"), Err(LedgerError::Unauthenticated));
    assert_eq!(l.issued(), 0);
}

#[test]
fn issued_is_sum_of_successful_mints() {
    let mut l = ledger(1500);
    l.mint("A", "A", 1000, "mining").unwrap();
    assert_eq!(l.mint("A", "A", 10, "airdrop"), Err(LedgerError::InvalidSource));
    l.mint("B", "B", 300, "p2p").unwrap();
    assert_eq!(l.mint("C", "C", 201, "rewards"), Err(LedgerError::SupplyExceeded));
    l.mint("C", "C", 200, "rewards").unwrap();
    assert_eq!(l.issued(), 1500);
    assert!(l.issued() <= l.cap());
}

#[test]
fn repeated_mint_replaces_record() {
    let mut l = ledger(CAP);
    let id = derive_id("A", 10, "p2p");
    l.mint("A", "A", 10, "p2p").unwrap();
    l.transfer("A", "A", "B", 4, &id).unwrap();
    l.mint("A", "A", 10, "p2p").unwrap();
    let coin = l.coin(&id).unwrap();
    assert_eq!(coin.amount, 10);
    assert_eq!(coin.owner, "A");
    assert_eq!(l.issued(), 20);
}

#[test]
fn short_key_cannot_sign() {
    let keys = KeyPair::generate(512).expect("key generation");
    let mut l = PiCoinContract::new(CAP, 314159, tags(), keys);
    assert_eq!(l.mint("A", "A", 1000, "mining"), Err(LedgerError::SigningError));
    assert_eq!(l.issued(), 0);
    assert_eq!(l.coin(&derive_id("A", 1000, "mining")), None);
}

#[test]
fn key_signs_identifier() {
    let keys = KeyPair::generate(768).expect("key generation");
    let sig = keys.sign(&derive_id("A", 1, "p2p")).unwrap();
    assert_eq!(sig.len(), 96);
}

#[test]
fn mint_signed_reports_signing_failure() {
    let mut l = ledger(CAP);
    assert_eq!(
        l.mint_signed("A", "A", 1000, "mining", false),
        Err(LedgerError::SigningError)
    );
    assert_eq!(l.issued(), 0);
    assert_eq!(
        l.mint_signed("A", "A", 1000, "airdrop", false),
        Err(LedgerError::InvalidSource)
    );
    let coin = l.mint_signed("A", "A", 1000, "mining", true).unwrap();
    assert_eq!(coin.amount, 1000);
    assert_eq!(l.issued(), 1000);
}

#[test]
fn mint_refusal_names_first_failed_check() {
    let l = ledger(100);
    assert_eq!(l.mint_refusal("B", "A", 10, "airdrop"), Some(LedgerError::Unauthenticated));
    assert_eq!(l.mint_refusal("A", "A", 101, "airdrop"), Some(LedgerError::InvalidSource));
    assert_eq!(l.mint_refusal("A", "A", 101, "p2p"), Some(LedgerError::SupplyExceeded));
    assert_eq!(l.mint_refusal("A", "A", 100, "p2p"), None);
}

#[test]
fn admission_advances_or_refuses() {
    let mut l = ledger(100);
    assert_eq!(l.admit_mint(60), Ok(()));
    assert_eq!(l.issued(), 60);
    assert_eq!(l.admit_mint(41), Err(LedgerError::SupplyExceeded));
    assert_eq!(l.issued(), 60);
    assert_eq!(l.admit_mint(40), Ok(()));
    assert_eq!(l.issued(), 100);
}

#[test]
fn transfer_success() {
    let mut l = ledger(CAP);
    let id = derive_id("A", 1000, "mining");
    l.mint("A", "A", 1000, "mining").unwrap();
    assert_eq!(l.transfer("A", "A", "B", 500, &id), Ok(()));
    let coin = l.coin(&id).unwrap();
    assert_eq!(coin.amount, 500);
    assert_eq!(coin.owner, "B");
    assert_eq!(coin.source, "mining");
    assert!(coin.verified);
    assert_eq!(l.issued(), 1000);
}

#[test]
fn transfer_insufficient_balance() {
    let mut l = ledger(CAP);
    let id = derive_id("A", 500, "mining");
    l.mint("A", "A", 500, "mining").unwrap();
    assert_eq!(l.transfer("A", "A", "B", 600, &id), Err(LedgerError::InsufficientBalance));
    let coin = l.coin(&id).unwrap();
    assert_eq!(coin.amount, 500);
    assert_eq!(coin.owner, "A");
}

#[test]
fn transfer_of_whole_balance_keeps_record() {
    let mut l = ledger(CAP);
    let id = derive_id("A", 500, "mining");
    l.mint("A", "A", 500, "mining").unwrap();
    assert_eq!(l.transfer("A", "A", "B", 500, &id), Ok(()));
    let coin = l.coin(&id).unwrap();
    assert_eq!(coin.amount, 0);
    assert_eq!(coin.owner, "B");
    assert_eq!(l.transfer("B", "B", "C", 0, &id), Ok(()));
    assert_eq!(l.coin(&id).unwrap().amount, 0);
}

#[test]
fn transfer_refusals() {
    let mut l = ledger(CAP);
    let id = derive_id("A", 500, "mining");
    l.mint("A", "A", 500, "mining").unwrap();
    assert_eq!(l.transfer("B", "A", "B", 1, &id), Err(LedgerError::Unauthenticated));
    assert_eq!(l.transfer("B", "B", "C", 1, &id), Err(LedgerError::NotOwner));
    let missing = derive_id("A", 501, "mining");
    assert_eq!(l.transfer("A", "A", "B", 1, &missing), Err(LedgerError::NotFound));
    assert_eq!(l.coin(&id).unwrap().owner, "A");
}

#[test]
fn quote_is_exact_product() {
    let l = ledger(CAP);
    assert_eq!(l.price(), 314159);
    assert_eq!(l.get_usd_value(1000), Ok(314_159_000));
    assert_eq!(l.get_usd_value(0), Ok(0));
    assert_eq!(l.get_usd_value(u64::MAX / 314159), Ok((u64::MAX / 314159) * 314159));
}

#[test]
fn quote_overflow_is_reported() {
    let l = ledger(CAP);
    assert_eq!(l.get_usd_value(u64::MAX / 314159 + 1), Err(LedgerError::ArithmeticOverflow));
    assert_eq!(l.get_usd_value(u64::MAX), Err(LedgerError::ArithmeticOverflow));
}

#[test]
fn anomaly_threshold() {
    assert!(!PiCoinContract::check_anomaly(1_000_000_000));
    assert!(PiCoinContract::check_anomaly(1_000_000_001));
    assert!(!PiCoinContract::check_anomaly(0));
}

#[test]
fn allowed_tags() {
    let l = ledger(CAP);
    assert!(l.is_allowed("mining"));
    assert!(l.is_allowed("rewards"));
    assert!(l.is_allowed("p2p"));
    assert!(!l.is_allowed("airdrop"));
    assert!(!l.is_allowed(""));
}

#[test]
fn init_refuses_unauthenticated_admin() {
    assert!(matches!(
        PiCoinContract::init("mallory", "admin"),
        Err(LedgerError::Unauthenticated)
    ));
}

#[test]
fn generated_key_reports_its_size() {
    let keys = KeyPair::generate(768).expect("key generation");
    assert_eq!(keys.key_bits(), 768);
}

#[test]
fn signature_checks_against_public_key() {
    let keys = KeyPair::generate(768).expect("key generation");
    let id = derive_id("A", 1, "p2p");
    let sig = keys.sign(&id).unwrap();
    let public = keys.public_key();
    assert!(public.verify(Pkcs1v15Sign::new::<Sha3_512>(), &id, &sig).is_ok());
    let other = derive_id("A", 2, "p2p");
    assert!(public.verify(Pkcs1v15Sign::new::<Sha3_512>(), &other, &sig).is_err());
    let l = PiCoinContract::new(CAP, 314159, tags(), keys);
    assert!(l.public_key().verify(Pkcs1v15Sign::new::<Sha3_512>(), &id, &sig).is_ok());
}
