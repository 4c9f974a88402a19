use vstd::prelude::*;
use crate::util::views_of;

verus! {

/// A transaction output: an amount in satoshis and the script it pays to.
#[derive(Debug)]
pub struct TxOut {
    pub value: u64,
    pub script_pubkey: Vec<u8>,
}

/// Mathematical image of a `TxOut`.
#[verifier::ext_equal]
pub ghost struct TxOutV {
    pub value: u64,
    pub script_pubkey: Seq<u8>,
}

impl View for TxOut {
    type V = TxOutV;

    open spec fn view(&self) -> TxOutV {
        TxOutV { value: self.value, script_pubkey: self.script_pubkey@ }
    }
}

/// A transaction input as it is serialized without witnesses, plus the
/// witness stack that accompanies it.
#[derive(Debug)]
pub struct TxIn {
    pub prevout_txid: [u8; 32],
    pub prevout_vout: u32,
    pub script_sig: Vec<u8>,
    pub sequence: u32,
    pub witness: Vec<Vec<u8>>,
}

/// Mathematical image of a `TxIn`, without its witness: the witness takes
/// no part in the transaction id or in a BIP-143 digest.
#[verifier::ext_equal]
pub ghost struct TxInV {
    pub prevout_txid: Seq<u8>,
    pub prevout_vout: u32,
    pub script_sig: Seq<u8>,
    pub sequence: u32,
}

impl View for TxIn {
    type V = TxInV;

    open spec fn view(&self) -> TxInV {
        TxInV {
            prevout_txid: self.prevout_txid@,
            prevout_vout: self.prevout_vout,
            script_sig: self.script_sig@,
            sequence: self.sequence,
        }
    }
}

/// A Bitcoin transaction, modelled by the fields the checkpoint engine
/// fills in.
#[derive(Debug)]
pub struct Tx {
    pub version: i32,
    pub lock_time: u32,
    pub inputs: Vec<TxIn>,
    pub outputs: Vec<TxOut>,
}

/// Mathematical image of a `Tx`, without witnesses.
#[verifier::ext_equal]
pub ghost struct TxV {
    pub version: i32,
    pub lock_time: u32,
    pub inputs: Seq<TxInV>,
    pub outputs: Seq<TxOutV>,
}

impl View for Tx {
    type V = TxV;

    open spec fn view(&self) -> TxV {
        TxV {
            version: self.version,
            lock_time: self.lock_time,
            inputs: self.inputs@.map_values(|i: TxIn| i@),
            outputs: self.outputs@.map_values(|o: TxOut| o@),
        }
    }
}

/// The witness stacks of a transaction's inputs, in input order.
pub open spec fn witnesses_of(t: &Tx) -> Seq<Seq<Seq<u8>>> {
    t.inputs@.map_values(|i: TxIn| views_of(i.witness@))
}

} // verus!
