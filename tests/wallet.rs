use base64::prelude::BASE64_STANDARD;
use base64::Engine;
use coal_pool_mobile::error::CoalPoolMobileFfiError;
use coal_pool_mobile::wallet::{generate_key, get_transfer_lamports_transaction, key_from_seed};
use solana_sdk::derivation_path::DerivationPath;
use solana_sdk::pubkey::Pubkey;
use solana_sdk::signature::Keypair;
use solana_sdk::signer::SeedDerivable;

fn blockhash_text(b: u8) -> String {
    BASE64_STANDARD.encode(bincode::serialize(&solana_sdk::hash::Hash::new_from_array([b; 32])).unwrap())
}

#[test]
fn malformed_sender_is_named() {
    let to = Pubkey::new_from_array([2; 32]).to_string();
    let r = get_transfer_lamports_transaction(blockhash_text(1), "not-a-key!".to_string(), to, 5);
    match r {
        Err(CoalPoolMobileFfiError::InvalidPubkeyStr { pubkey_str }) => assert_eq!(pubkey_str, "not-a-key!"),
        _ => panic!("expected the sender to be named"),
    }
}

#[test]
fn malformed_receiver_is_named() {
    let from = Pubkey::new_from_array([2; 32]).to_string();
    let r = get_transfer_lamports_transaction(blockhash_text(1), from, "0OIl".to_string(), 5);
    match r {
        Err(CoalPoolMobileFfiError::InvalidPubkeyStr { pubkey_str }) => assert_eq!(pubkey_str, "0OIl"),
        _ => panic!("expected the receiver to be named"),
    }
}

#[test]
fn bad_blockhash_is_an_error() {
    let k = Pubkey::new_from_array([2; 32]).to_string();
    let r = get_transfer_lamports_transaction("%%%".to_string(), k.clone(), k.clone(), 5);
    assert!(matches!(r, Err(CoalPoolMobileFfiError::InvalidBlockhash)));
    let short = BASE64_STANDARD.encode([1u8; 31]);
    let r = get_transfer_lamports_transaction(short, k.clone(), k, 5);
    assert!(matches!(r, Err(CoalPoolMobileFfiError::InvalidBlockhash)));
}

#[test]
fn transfer_transaction_matches_solana_sdk() {
    let from = Pubkey::new_from_array([3; 32]);
    let to = Pubkey::new_from_array([4; 32]);
    let text = get_transfer_lamports_transaction(blockhash_text(9), from.to_string(), to.to_string(), 1234)
        .ok()
        .unwrap();
    let ix = solana_sdk::system_instruction::transfer(&from, &to, 1234);
    let mut tx = solana_sdk::transaction::Transaction::new_with_payer(&[ix], Some(&from));
    tx.message.recent_blockhash = solana_sdk::hash::Hash::new_from_array([9; 32]);
    let expected = BASE64_STANDARD.encode(bincode::serialize(&tx).unwrap());
    assert_eq!(text, expected);
}

#[test]
fn key_from_seed_matches_derivation() {
    let seed = vec![11u8; 64];
    let k = key_from_seed("some words".to_string(), &seed).ok().unwrap();
    let path = DerivationPath::from_absolute_path_str("m/44'/501'/0'/0'").unwrap();
    let expected = Keypair::from_seed_and_derivation_path(&seed, Some(path))
        .unwrap()
        .to_bytes()
        .to_vec();
    assert_eq!(k.keypair, expected);
    assert_eq!(k.word_list, "some words");
}

#[test]
fn generated_key_has_twelve_words() {
    let k = generate_key().ok().unwrap();
    assert_eq!(k.word_list.split(' ').count(), 12);
    assert_eq!(k.keypair.len(), 64);
}

#[test]
fn generated_key_derives_from_its_phrase() {
    let k = generate_key().ok().unwrap();
    let m = bip39::Mnemonic::from_phrase(&k.word_list, bip39::Language::English).unwrap();
    let seed = bip39::Seed::new(&m, "");
    let path = DerivationPath::from_absolute_path_str("m/44'/501'/0'/0'").unwrap();
    let expected = Keypair::from_seed_and_derivation_path(seed.as_bytes(), Some(path))
        .unwrap()
        .to_bytes()
        .to_vec();
    assert_eq!(k.keypair, expected);
}
