//! Core of an offline, attenuable authorization token: keys and signatures,
//! the signature chain that links blocks, the third-party block handshake,
//! the public key interning table, and authorizer snapshots.

pub mod builder;
pub mod crypto;
pub mod datalog;
pub mod error;
pub mod format;
pub mod interning;
pub mod token;
