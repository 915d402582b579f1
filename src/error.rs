use vstd::prelude::*;

verus! {

/// What can go wrong at the library's edge.
pub enum CoalPoolMobileFfiError {
    /// An address string that is not a valid public key; carries that string.
    InvalidPubkeyStr { pubkey_str: String },
    /// A challenge whose length is not 32 bytes; carries the length given.
    InvalidLength { len: usize },
    /// A recent block reference that is not base64 of a serialized block hash.
    InvalidBlockhash,
    /// The keypair could not be derived from the phrase.
    KeyDerivation,
}

} // verus!
