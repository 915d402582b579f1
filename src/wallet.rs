use vstd::prelude::*;
use crate::error::CoalPoolMobileFfiError;
use base64::prelude::BASE64_STANDARD;
use base64::Engine;
use bip39::{Language, Mnemonic, MnemonicType, Seed};
use solana_sdk::derivation_path::DerivationPath;
use solana_sdk::pubkey::Pubkey;
use solana_sdk::signature::Keypair;
use solana_sdk::signer::SeedDerivable;
use solana_sdk::system_instruction;
use solana_sdk::transaction::Transaction;

verus! {

/// A freshly generated recovery phrase and the keypair bytes derived from it.
pub struct GeneratedKey {
    pub word_list: String,
    pub keypair: Vec<u8>,
}

/// The keypair bytes that solana-sdk derives from a seed on the path m/44'/501'/0'/0'.
pub uninterp spec fn derived_keypair(seed: Seq<u8>) -> Option<Seq<u8>>;

/// The bytes that standard base64 text decodes to, if it is valid.
pub uninterp spec fn base64_decoded(text: Seq<char>) -> Option<Seq<u8>>;

/// Standard base64 text, with padding, of some bytes.
pub uninterp spec fn base64_encoded(bytes: Seq<u8>) -> Seq<char>;

/// The 32 key bytes that a base58 address string stands for, if it is valid.
pub uninterp spec fn base58_pubkey(text: Seq<char>) -> Option<Seq<u8>>;

/// The serialized transaction that moves `lamports` from `from` to `to`, paid
/// by `from` and bound to the recent block hash `blockhash`.
pub uninterp spec fn transfer_tx_bytes(from: Seq<u8>, to: Seq<u8>, lamports: u64, blockhash: Seq<u8>) -> Seq<u8>;

/// The seed that BIP-39 stretches from a phrase with an empty passphrase.
pub uninterp spec fn phrase_seed(phrase: Seq<char>) -> Seq<u8>;

/// The number of pieces that splitting `s` at each space gives.
pub open spec fn word_count(s: Seq<char>) -> nat
    decreases s.len(),
{
    if s.len() == 0 {
        1
    } else {
        word_count(s.drop_last()) + if s.last() == ' ' { 1nat } else { 0nat }
    }
}

/// Relies on bip39's Mnemonic::new (12 random English words joined by single
/// spaces), Mnemonic::into_phrase and Seed::new with an empty passphrase: a
/// fresh phrase and the seed of that phrase.
#[verifier::external_body]
fn fresh_mnemonic() -> (r: (String, Vec<u8>))
    ensures
        r.1@ == phrase_seed(r.0@),
        word_count(r.0@) == 12,
{
    let mnemonic = Mnemonic::new(MnemonicType::Words12, Language::English);
    let seed = Seed::new(&mnemonic, "").as_bytes().to_vec();
    (mnemonic.into_phrase(), seed)
}

/// Relies on solana-sdk's Keypair::from_seed_and_derivation_path on the path
/// m/44'/501'/0'/0' (DerivationPath::new_bip44 with account 0 and change 0),
/// and Keypair::to_bytes. Derivation on hardened indices does not fail.
#[verifier::external_body]
fn keypair_from_seed(seed: &Vec<u8>) -> (r: Option<Vec<u8>>)
    ensures
        r is Some,
        r matches Some(k) ==> k@.len() == 64,
        match r {
            Some(k) => derived_keypair(seed@) == Some(k@),
            None => derived_keypair(seed@) is None,
        },
{
    let path = DerivationPath::new_bip44(Some(0), Some(0));
    Keypair::from_seed_and_derivation_path(seed, Some(path)).ok().map(|k| k.to_bytes().to_vec())
}

/// Relies on base64's standard engine `decode`.
#[verifier::external_body]
fn base64_decode(text: &str) -> (r: Option<Vec<u8>>)
    ensures
        match r {
            Some(b) => base64_decoded(text@) == Some(b@),
            None => base64_decoded(text@) is None,
        },
{
    BASE64_STANDARD.decode(text).ok()
}

/// Relies on base64's standard engine `encode`.
#[verifier::external_body]
fn base64_encode(bytes: &Vec<u8>) -> (r: String)
    ensures
        r@ == base64_encoded(bytes@),
{
    BASE64_STANDARD.encode(bytes)
}

/// Relies on bincode::deserialize of a solana-sdk Hash: a fixed array of 32
/// bytes, read from the front, with trailing bytes allowed.
#[verifier::external_body]
fn blockhash_from_bincode(bytes: &Vec<u8>) -> (r: Option<[u8; 32]>)
    ensures
        r is Some <==> bytes@.len() >= 32,
        r matches Some(h) ==> h@ == bytes@.subrange(0, 32),
{
    bincode::deserialize::<solana_sdk::hash::Hash>(bytes).ok().map(|h| h.to_bytes())
}

/// Relies on solana-sdk's `Pubkey::from_str` (base58 text of 32 bytes) and `Pubkey::to_bytes`.
#[verifier::external_body]
fn parse_pubkey(text: &str) -> (r: Option<[u8; 32]>)
    ensures
        match r {
            Some(k) => base58_pubkey(text@) == Some(k@),
            None => base58_pubkey(text@) is None,
        },
{
    text.parse::<Pubkey>().ok().map(|k| k.to_bytes())
}

/// Relies on solana-sdk's `system_instruction::transfer` and
/// `Transaction::new_with_payer` (payer `from`), with the message's recent
/// block hash set to `blockhash`, and on `bincode::serialize` of that
/// transaction, which cannot fail for one instruction.
#[verifier::external_body]
fn transfer_transaction(from: [u8; 32], to: [u8; 32], lamports: u64, blockhash: [u8; 32]) -> (r: Vec<u8>)
    ensures
        r@ == transfer_tx_bytes(from@, to@, lamports, blockhash@),
{
    let from = Pubkey::new_from_array(from);
    let ix = system_instruction::transfer(&from, &Pubkey::new_from_array(to), lamports);
    let mut tx = Transaction::new_with_payer(&[ix], Some(&from));
    tx.message.recent_blockhash = solana_sdk::hash::Hash::new_from_array(blockhash);
    bincode::serialize(&tx).unwrap()
}

/// Pairs a phrase with the keypair derived from its seed; fails with
/// `KeyDerivation` exactly when no keypair can be derived, which does not
/// happen on this path.
pub fn key_from_seed(phrase: String, seed: &Vec<u8>) -> (r: Result<GeneratedKey, CoalPoolMobileFfiError>)
    ensures
        r is Ok,
        r matches Ok(k) ==> k.keypair@.len() == 64,
        match r {
            Ok(k) => derived_keypair(seed@) == Some(k.keypair@) && k.word_list == phrase,
            Err(e) => derived_keypair(seed@) is None && e == CoalPoolMobileFfiError::KeyDerivation,
        },
{
    match keypair_from_seed(seed) {
        Some(keypair) => Ok(GeneratedKey { word_list: phrase, keypair }),
        None => Err(CoalPoolMobileFfiError::KeyDerivation),
    }
}

/// Generates a random 12-word phrase and the keypair derived from its seed.
pub fn generate_key() -> (r: Result<GeneratedKey, CoalPoolMobileFfiError>)
    ensures
        r is Ok,
        r matches Ok(k) ==> {
            &&& derived_keypair(phrase_seed(k.word_list@)) == Some(k.keypair@)
            &&& word_count(k.word_list@) == 12
            &&& k.keypair@.len() == 64
        },
{
    let (phrase, seed) = fresh_mnemonic();
    key_from_seed(phrase, &seed)
}

/// The block hash that a base64 block reference carries, if it carries one.
pub open spec fn blockhash_of(text: Seq<char>) -> Option<Seq<u8>> {
    match base64_decoded(text) {
        Some(b) => if b.len() >= 32 { Some(b.subrange(0, 32)) } else { None },
        None => None,
    }
}

/// Builds a transfer of `amount` lamports between two base58 addresses, bound
/// to a base64 block reference, and returns the serialized transaction as
/// base64. The block reference is checked first, then the sender, then the
/// receiver; an invalid address is named in the error.
pub fn get_transfer_lamports_transaction(
    latest_blockhash_str: String,
    from_pubkey_str: String,
    to_pubkey_str: String,
    amount: u64,
) -> (r: Result<String, CoalPoolMobileFfiError>)
    ensures
        match r {
            Ok(tx) => blockhash_of(latest_blockhash_str@) matches Some(h)
                && base58_pubkey(from_pubkey_str@) matches Some(f)
                && base58_pubkey(to_pubkey_str@) matches Some(t)
                && tx@ == base64_encoded(transfer_tx_bytes(f, t, amount, h)),
            Err(e) => if blockhash_of(latest_blockhash_str@) is None {
                e == CoalPoolMobileFfiError::InvalidBlockhash
            } else if base58_pubkey(from_pubkey_str@) is None {
                e == (CoalPoolMobileFfiError::InvalidPubkeyStr { pubkey_str: from_pubkey_str })
            } else {
                base58_pubkey(to_pubkey_str@) is None
                    && e == (CoalPoolMobileFfiError::InvalidPubkeyStr { pubkey_str: to_pubkey_str })
            },
        },
{
    let decoded = match base64_decode(latest_blockhash_str.as_str()) {
        Some(b) => b,
        None => return Err(CoalPoolMobileFfiError::InvalidBlockhash),
    };
    let blockhash = match blockhash_from_bincode(&decoded) {
        Some(h) => h,
        None => return Err(CoalPoolMobileFfiError::InvalidBlockhash),
    };
    let from = match parse_pubkey(from_pubkey_str.as_str()) {
        Some(k) => k,
        None => return Err(CoalPoolMobileFfiError::InvalidPubkeyStr { pubkey_str: from_pubkey_str }),
    };
    let to = match parse_pubkey(to_pubkey_str.as_str()) {
        Some(k) => k,
        None => return Err(CoalPoolMobileFfiError::InvalidPubkeyStr { pubkey_str: to_pubkey_str }),
    };
    let tx = transfer_transaction(from, to, amount, blockhash);
    Ok(base64_encode(&tx))
}

} // verus!
