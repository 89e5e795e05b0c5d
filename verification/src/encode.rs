//! The two outside edges of the library: resolving a destination address
//! string to the script it locks to, and serializing a finished unsigned
//! transaction into a base64-encoded PSBT container.
//!
//! Both are work of outside crates. Each call stands behind a trusted
//! wrapper whose contract names the outside result; everything around the
//! calls is verified.

use vstd::prelude::*;

use crate::utxo::UnsignedTx;
use base64::Engine;
use bitcoin::absolute::LockTime;
use bitcoin::address::NetworkUnchecked;
use bitcoin::hashes::Hash as HashFromBytes;
use bitcoin::psbt::Psbt;
use bitcoin::transaction::Version;
use bitcoin::{Address, Amount, OutPoint, ScriptBuf, Sequence, Transaction, TxIn, TxOut, Txid, Witness};

verus! {

/// The output script that an address string resolves to: `Some` exactly when
/// the string parses as an address of some network, `None` otherwise.
pub uninterp spec fn addr_script_of(s: Seq<char>) -> Option<Seq<u8>>;

/// Relies on `bitcoin::Address::from_str` and `Address::script_pubkey`:
/// whether a string parses as an address, and the output script the address
/// locks to, depend on the string alone.
#[verifier::external_body]
pub(crate) fn address_script(addr: &str) -> (r: Option<Vec<u8>>)
    ensures
        r is Some <==> addr_script_of(addr@) is Some,
        r matches Some(v) ==> Some(v@) == addr_script_of(addr@),
{
    match addr.parse::<Address<NetworkUnchecked>>() {
        Ok(a) => Some(a.assume_checked().script_pubkey().into_bytes()),
        Err(_) => None,
    }
}

/// The bytes of the PSBT container holding an unsigned transaction.
pub uninterp spec fn psbt_bytes_of(t: crate::utxo::UnsignedTxV) -> Seq<u8>;

/// Relies on `bitcoin::psbt::Psbt::from_unsigned_tx` and `Psbt::serialize`:
/// a transaction whose inputs carry empty unlocking scripts and witnesses
/// always forms a PSBT, and the serialized bytes depend on the transaction
/// fields alone.
#[verifier::external_body]
pub(crate) fn psbt_serialize(tx: &UnsignedTx) -> (r: Vec<u8>)
    ensures
        r@ == psbt_bytes_of(tx@),
{
    let input: Vec<TxIn> = tx.inputs.iter().map(|i| TxIn {
        previous_output: OutPoint { txid: Txid::from_byte_array(i.txid), vout: i.vout },
        script_sig: ScriptBuf::new(),
        sequence: Sequence(i.sequence),
        witness: Witness::new(),
    }).collect();
    let output: Vec<TxOut> = tx.outputs.iter().map(|o| TxOut {
        value: Amount::from_sat(o.value),
        script_pubkey: ScriptBuf::from_bytes(o.script_pubkey.clone()),
    }).collect();
    let version = Version(tx.version);
    let lock_time = LockTime::from_consensus(tx.lock_time);
    let t = Transaction { version, lock_time, input, output };
    Psbt::from_unsigned_tx(t).expect("inputs carry no signatures").serialize()
}

/// The text form of bytes under the standard base64 alphabet with padding.
pub uninterp spec fn base64_of(bytes: Seq<u8>) -> Seq<char>;

/// Relies on `base64::engine::general_purpose::STANDARD.encode`: the
/// standard alphabet with padding and no line wrapping, a function of the
/// input bytes alone; padding makes the output four characters for every
/// three bytes begun.
#[verifier::external_body]
pub(crate) fn base64_encode(bytes: &Vec<u8>) -> (r: String)
    ensures
        r@ == base64_of(bytes@),
        r@.len() == 4 * ((bytes@.len() + 2) / 3),
{
    base64::engine::general_purpose::STANDARD.encode(bytes)
}

} // verus!
