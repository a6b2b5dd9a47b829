//! Records of a private ledger.
//!
//! A record is a value, and perhaps a payload for a program, that belongs to an account. The ledger
//! holds its ciphertext and a commitment to that; whoever has the view key of the owner, or that of
//! the record itself, opens it, and the owner spends it by its serial number.

pub mod account;
pub mod amount;
pub mod bytes;
pub mod ciphertext;
pub mod element;
pub mod encoding;
pub mod error;
pub mod payload;
pub mod plaintext;
pub mod record;
pub mod schemes;
pub mod testnet2;
