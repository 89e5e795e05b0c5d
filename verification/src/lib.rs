//! Identify dust UTXOs in a wallet listing, group them by owning address,
//! and assemble one unsigned transaction per group that sweeps the group's
//! dust to a designated destination address.
//!
//! The listing itself comes from an outside wallet backend, and the finished
//! transactions leave as base64-encoded PSBT containers; everything between
//! those two edges is verified.

pub mod encode;
pub mod sweep;
pub mod utxo;

pub use sweep::DustSweeper;
pub use utxo::{AddressGroup, SweepError, TxInput, TxOutput, UnsignedTx, Utxo};
