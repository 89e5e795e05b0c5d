//! The data the sweep works on: wallet UTXOs, the per-address groups they are
//! sorted into, the unsigned transactions built from them, and the errors a
//! sweep can report.

use vstd::prelude::*;

verus! {

/// The sequence value that signals opt-in replace-by-fee on every input:
/// one less than the maximum non-final sequence.
pub const SEQUENCE_RBF: u32 = 0xFFFF_FFFD;

/// The current standard transaction version marker.
pub const TX_VERSION: i32 = 2;

/// One unspent output as the wallet reports it: the outpoint that created it
/// (txid plus output index), its amount in the smallest currency unit, and
/// the owning address where the wallet could resolve one.
#[derive(Debug, PartialEq, Eq)]
pub struct Utxo {
    pub txid: [u8; 32],
    pub vout: u32,
    pub amount: u64,
    pub address: Option<String>,
}

/// The mathematical shape of a [`Utxo`]: byte and character sequences in
/// place of the executable containers.
pub ghost struct UtxoV {
    pub txid: Seq<u8>,
    pub vout: u32,
    pub amount: u64,
    pub address: Option<Seq<char>>,
}

impl View for Utxo {
    type V = UtxoV;

    open spec fn view(&self) -> UtxoV {
        UtxoV {
            txid: self.txid@,
            vout: self.vout,
            amount: self.amount,
            address: match self.address {
                Some(a) => Some(a@),
                None => None,
            },
        }
    }
}

impl Clone for Utxo {
    fn clone(&self) -> (r: Self)
        ensures
            r@ == self@,
    {
        Utxo {
            txid: self.txid,
            vout: self.vout,
            amount: self.amount,
            address: match &self.address {
                Some(a) => Some(a.clone()),
                None => None,
            },
        }
    }
}

/// One address bucket of the dust set: the owning address and the dust UTXOs
/// attributed to it, in their order in the source listing.
#[derive(Debug)]
pub struct AddressGroup {
    pub address: String,
    pub utxos: Vec<Utxo>,
}

pub ghost struct AddressGroupV {
    pub address: Seq<char>,
    pub utxos: Seq<UtxoV>,
}

impl View for AddressGroup {
    type V = AddressGroupV;

    open spec fn view(&self) -> AddressGroupV {
        AddressGroupV { address: self.address@, utxos: self.utxos@.map_values(|u: Utxo| u@) }
    }
}

/// One input of an unsigned transaction: the outpoint it consumes and its
/// sequence value. The unlocking script and witness are left empty until an
/// external signer fills them in, so they carry no field here.
#[derive(Debug, PartialEq, Eq)]
pub struct TxInput {
    pub txid: [u8; 32],
    pub vout: u32,
    pub sequence: u32,
}

pub ghost struct TxInputV {
    pub txid: Seq<u8>,
    pub vout: u32,
    pub sequence: u32,
}

impl View for TxInput {
    type V = TxInputV;

    open spec fn view(&self) -> TxInputV {
        TxInputV { txid: self.txid@, vout: self.vout, sequence: self.sequence }
    }
}

/// One output of an unsigned transaction: the value it pays and the script
/// that locks it.
#[derive(Debug, PartialEq, Eq)]
pub struct TxOutput {
    pub value: u64,
    pub script_pubkey: Vec<u8>,
}

pub ghost struct TxOutputV {
    pub value: u64,
    pub script_pubkey: Seq<u8>,
}

impl View for TxOutput {
    type V = TxOutputV;

    open spec fn view(&self) -> TxOutputV {
        TxOutputV { value: self.value, script_pubkey: self.script_pubkey@ }
    }
}

/// One unsigned transaction, ready to be wrapped in a PSBT container for
/// external signing.
#[derive(Debug, PartialEq, Eq)]
pub struct UnsignedTx {
    pub version: i32,
    pub lock_time: u32,
    pub inputs: Vec<TxInput>,
    pub outputs: Vec<TxOutput>,
}

pub ghost struct UnsignedTxV {
    pub version: i32,
    pub lock_time: u32,
    pub inputs: Seq<TxInputV>,
    pub outputs: Seq<TxOutputV>,
}

impl View for UnsignedTx {
    type V = UnsignedTxV;

    open spec fn view(&self) -> UnsignedTxV {
        UnsignedTxV {
            version: self.version,
            lock_time: self.lock_time,
            inputs: self.inputs@.map_values(|i: TxInput| i@),
            outputs: self.outputs@.map_values(|o: TxOutput| o@),
        }
    }
}

/// What a sweep can report instead of transactions.
///
/// `InvalidAddress`: the destination string does not parse as an address, or
/// resolves to no spendable script. `PsbtConstruction`: the transaction shape
/// is invalid for container construction (a group with zero inputs).
#[derive(Clone, Copy, Debug, PartialEq, Eq, Structural)]
pub enum SweepError {
    InvalidAddress,
    PsbtConstruction,
}

} // verus!
