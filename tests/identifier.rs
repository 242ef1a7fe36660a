use pi_coin::{derive_id, generate_pi_digits, mint_text, pi_based_hash, push_decimal};
use sha3::{Digest, Sha3_512};

fn hex(bytes: &[u8]) -> String {
    bytes.iter().map(|b| format!("{:02x}", b)).collect()
}

#[test]
fn decimal_text_of_amounts() {
    let mut s = String::from("n=");
    push_decimal(&mut s, 0);
    assert_eq!(s, "n=0");
    let mut s = String::new();
    push_decimal(&mut s, 1000);
    assert_eq!(s, "1000");
    let mut s = String::new();
    push_decimal(&mut s, u64::MAX);
    assert_eq!(s, "18446744073709551615");
}

#[test]
fn mint_text_joins_parameters() {
    assert_eq!(mint_text("alice", 1000, "mining"), "alice-1000-mining");
    assert_eq!(mint_text("", 7, ""), "-7-");
}

#[test]
fn hash_of_known_text() {
    let d = pi_based_hash("ab", "c");
    assert_eq!(
        hex(&d),
        "b751850b1a57168a5693cd924b6b096e08f621827444f70d884f5d0240d2712e10e116e9192af3c91a7ec57647e3934057340b4cf408d5a56592f8274eec53f0"
    );
}

#[test]
fn identifier_is_salted_digest_of_parameters() {
    let salt = generate_pi_digits(50);
    let text = format!("{}-{}-{}{}", "alice", 1000, "mining", salt);
    let expected: [u8; 64] = Sha3_512::digest(text.as_bytes()).into();
    assert_eq!(derive_id("alice", 1000, "mining"), expected);
}

#[test]
fn identifier_is_deterministic() {
    assert_eq!(derive_id("alice", 10, "p2p"), derive_id("alice", 10, "p2p"));
    assert_ne!(derive_id("alice", 10, "p2p"), derive_id("alice", 11, "p2p"));
    assert_ne!(derive_id("alice", 10, "p2p"), derive_id("bob", 10, "p2p"));
    assert_ne!(derive_id("alice", 10, "p2p"), derive_id("alice", 10, "mining"));
}
