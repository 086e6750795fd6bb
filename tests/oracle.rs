use morpher_oracle::codec::PriceMessage;
use morpher_oracle::oracle::{
    admit_price_input, admit_prices_input, MorpherOracle, NonceRegistry, OracleError,
};
use morpher_oracle::signature::check_signature;
use scrypto::crypto::Bls12381G1PrivateKey;

fn key(n: u64) -> Bls12381G1PrivateKey {
    Bls12381G1PrivateKey::from_u64(n).unwrap()
}

fn key_text(sk: &Bls12381G1PrivateKey) -> String {
    sk.public_key().to_string()
}

fn sign(sk: &Bls12381G1PrivateKey, message: &str) -> String {
    sk.sign_v1(message.as_bytes()).to_string()
}

fn record(nonce: u64, symbol: &str, price: u64, timestamp: u64) -> PriceMessage {
    PriceMessage { nonce, symbol: symbol.to_string(), price, timestamp }
}

fn oracle_with(sk: &Bls12381G1PrivateKey) -> MorpherOracle {
    MorpherOracle::instantiate(key_text(sk)).unwrap().0
}

#[test]
fn concrete_scenario() {
    let k1 = key(1);
    let mut oracle = oracle_with(&k1);
    let msg = "42|BTC|65000|1700000000";
    let sig = sign(&k1, msg);
    assert_eq!(
        oracle.check_price_input(msg.to_string(), sig.clone()),
        Ok(record(42, "BTC", 65000, 1700000000))
    );
    assert_eq!(
        oracle.check_price_input(msg.to_string(), sig),
        Err(OracleError::NonceReused)
    );
    let sig43 = sign(&k1, "43|BTC|65000|1700000000");
    assert_eq!(
        oracle.check_price_input("43|BTC|99999|1700000000".to_string(), sig43),
        Err(OracleError::InvalidSignature)
    );
    assert!(!oracle.is_nonce_used(43));
}

#[test]
fn signature_accepted_for_matching_key() {
    let sk = key(7);
    let pk = sk.public_key().0;
    let msg = "1|ETH|3000|1700000001";
    assert!(check_signature(msg, &sign(&sk, msg), &pk));
}

#[test]
fn signature_refused_after_bit_flips() {
    let sk = key(7);
    let pk = sk.public_key().0;
    let msg = "1|ETH|3000|1700000001";
    let sig = sign(&sk, msg);
    // message: '1' (0x31) becomes '0' (0x30)
    assert!(!check_signature("0|ETH|3000|1700000001", &sig, &pk));
    // signature: one bit of the last byte
    let mut sig_bytes = sk.sign_v1(msg.as_bytes()).0;
    sig_bytes[95] ^= 1;
    let flipped_sig = scrypto::crypto::Bls12381G2Signature(sig_bytes).to_string();
    assert!(!check_signature(msg, &flipped_sig, &pk));
    // key: one bit of the last byte
    let mut pk2 = pk;
    pk2[47] ^= 1;
    assert!(!check_signature(msg, &sig, &pk2));
}

#[test]
fn malformed_signature_text_refused() {
    let sk = key(3);
    let pk = sk.public_key().0;
    let msg = "1|ETH|3000|1700000001";
    assert!(!check_signature(msg, "zz", &pk));
    assert!(!check_signature(msg, "", &pk));
    let sig = sign(&sk, msg);
    assert!(!check_signature(msg, &sig[2..], &pk));
    assert!(check_signature(msg, &sig.to_uppercase(), &pk));
}

#[test]
fn instantiate_decodes_key() {
    let sk = key(5);
    let (oracle, _badge) = MorpherOracle::instantiate(key_text(&sk)).unwrap();
    assert_eq!(oracle.public_key(), sk.public_key().0);
    assert!(!oracle.is_nonce_used(0));
}

#[test]
fn instantiate_refuses_bad_key() {
    assert!(matches!(
        MorpherOracle::instantiate("not a key".to_string()),
        Err(OracleError::InvalidKeyEncoding)
    ));
    assert!(matches!(
        MorpherOracle::instantiate("abcd".to_string()),
        Err(OracleError::InvalidKeyEncoding)
    ));
    let text = key_text(&key(5));
    assert!(matches!(
        MorpherOracle::instantiate(text[1..].to_string()),
        Err(OracleError::InvalidKeyEncoding)
    ));
}

#[test]
fn rotation_isolation() {
    let k1 = key(1);
    let k2 = key(2);
    let (mut oracle, badge) = MorpherOracle::instantiate(key_text(&k1)).unwrap();
    let first = "10|BTC|1|2";
    assert!(oracle.check_price_input(first.to_string(), sign(&k1, first)).is_ok());
    let event = oracle.set_oracle_public_key(&badge, key_text(&k2)).unwrap();
    assert_eq!(event.new_public_key, k2.public_key().0);
    assert_eq!(oracle.public_key(), k2.public_key().0);
    let msg = "11|BTC|1|2";
    assert_eq!(
        oracle.check_price_input(msg.to_string(), sign(&k1, msg)),
        Err(OracleError::InvalidSignature)
    );
    assert_eq!(
        oracle.check_price_input(msg.to_string(), sign(&k2, msg)),
        Ok(record(11, "BTC", 1, 2))
    );
    // nonces survive the rotation
    let again = "10|BTC|1|2";
    assert_eq!(
        oracle.check_price_input(again.to_string(), sign(&k2, again)),
        Err(OracleError::NonceReused)
    );
}

#[test]
fn rotation_refuses_bad_key_and_keeps_old() {
    let k1 = key(1);
    let (mut oracle, badge) = MorpherOracle::instantiate(key_text(&k1)).unwrap();
    assert_eq!(
        oracle.set_oracle_public_key(&badge, "00ff".to_string()),
        Err(OracleError::InvalidKeyEncoding)
    );
    assert_eq!(oracle.public_key(), k1.public_key().0);
}

#[test]
fn batch_accepted_in_order() {
    let sk = key(9);
    let mut oracle = oracle_with(&sk);
    let msg = "1|BTC|65000|100,2|ETH|3000|101";
    assert_eq!(
        oracle.check_prices_input(msg.to_string(), sign(&sk, msg)),
        Ok(vec![record(1, "BTC", 65000, 100), record(2, "ETH", 3000, 101)])
    );
    assert!(oracle.is_nonce_used(1) && oracle.is_nonce_used(2));
}

#[test]
fn batch_with_bad_signature_refused_whole() {
    let sk = key(9);
    let mut oracle = oracle_with(&sk);
    let msg = "1|BTC|65000|100,2|ETH|3000|101";
    let sig = sign(&key(10), msg);
    assert_eq!(
        oracle.check_prices_input(msg.to_string(), sig),
        Err(OracleError::InvalidSignature)
    );
    assert!(!oracle.is_nonce_used(1) && !oracle.is_nonce_used(2));
    // a malformed batch under a bad signature is still a signature failure
    let junk = "x,y";
    assert_eq!(
        oracle.check_prices_input(junk.to_string(), sign(&key(10), junk)),
        Err(OracleError::InvalidSignature)
    );
}

#[test]
fn batch_signature_covers_whole_text() {
    let sk = key(9);
    let mut oracle = oracle_with(&sk);
    let part = "1|BTC|65000|100";
    assert_eq!(
        oracle.check_prices_input(format!("{},2|ETH|3000|101", part), sign(&sk, part)),
        Err(OracleError::InvalidSignature)
    );
}

#[test]
fn batch_collision_keeps_earlier_nonces() {
    let sk = key(9);
    let mut oracle = oracle_with(&sk);
    let single = "3|BTC|1|1";
    assert!(oracle.check_price_input(single.to_string(), sign(&sk, single)).is_ok());
    let batch = "1|BTC|1|1,2|BTC|1|1,3|BTC|1|1,4|BTC|1|1";
    assert_eq!(
        oracle.check_prices_input(batch.to_string(), sign(&sk, batch)),
        Err(OracleError::NonceReused)
    );
    assert!(oracle.is_nonce_used(1));
    assert!(oracle.is_nonce_used(2));
    assert!(!oracle.is_nonce_used(4));
}

#[test]
fn batch_duplicate_within_batch() {
    let sk = key(9);
    let mut oracle = oracle_with(&sk);
    let batch = "5|BTC|1|1,5|ETH|2|2";
    assert_eq!(
        oracle.check_prices_input(batch.to_string(), sign(&sk, batch)),
        Err(OracleError::NonceReused)
    );
    assert!(oracle.is_nonce_used(5));
}

#[test]
fn batch_malformed_consumes_nothing() {
    let sk = key(9);
    let mut oracle = oracle_with(&sk);
    let batch = "6|BTC|1|1,seven|ETH|2|2";
    assert_eq!(
        oracle.check_prices_input(batch.to_string(), sign(&sk, batch)),
        Err(OracleError::MalformedMessage)
    );
    assert!(!oracle.is_nonce_used(6));
}

#[test]
fn malformed_single_message() {
    let sk = key(4);
    let mut oracle = oracle_with(&sk);
    for msg in ["abc|BTC|1|2", "1|BTC|1", "1|BTC|1|2|3", "1||1|2", "", "1|BTC|-1|2"] {
        assert_eq!(
            oracle.check_price_input(msg.to_string(), sign(&sk, msg)),
            Err(OracleError::MalformedMessage),
            "{}",
            msg
        );
    }
}

#[test]
fn admit_with_given_signature_outcomes() {
    let mut nonces = NonceRegistry::new();
    assert_eq!(
        admit_price_input(&mut nonces, "8|SOL|150|9", false),
        Err(OracleError::InvalidSignature)
    );
    assert!(!nonces.contains(8));
    assert_eq!(
        admit_price_input(&mut nonces, "8|SOL|150|9", true),
        Ok(record(8, "SOL", 150, 9))
    );
    assert!(nonces.contains(8));
    assert_eq!(
        admit_price_input(&mut nonces, "8|SOL|151|10", true),
        Err(OracleError::NonceReused)
    );
    assert_eq!(
        admit_prices_input(&mut nonces, "9|A|1|1,10|B|2|2", false),
        Err(OracleError::InvalidSignature)
    );
    assert_eq!(
        admit_prices_input(&mut nonces, "9|A|1|1,10|B|2|2", true),
        Ok(vec![record(9, "A", 1, 1), record(10, "B", 2, 2)])
    );
}

#[test]
fn nonce_registry_consume() {
    let mut nonces = NonceRegistry::new();
    assert!(nonces.consume(u64::MAX));
    assert!(!nonces.consume(u64::MAX));
    assert!(nonces.contains(u64::MAX));
    assert!(nonces.consume_all(&vec![record(1, "A", 1, 1), record(2, "B", 1, 1)]));
    assert!(!nonces.consume_all(&vec![record(3, "A", 1, 1), record(1, "B", 1, 1), record(4, "C", 1, 1)]));
    assert!(nonces.contains(3));
    assert!(!nonces.contains(4));
}
