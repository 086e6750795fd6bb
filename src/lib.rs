//! A price oracle core: signed, delimiter-encoded price attestations are
//! checked against one authorized BLS12-381 key, parsed, and admitted only
//! once per nonce.
pub mod codec;
pub mod signature;
pub mod oracle;
