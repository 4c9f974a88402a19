//! The boundary to the bitcoin crate: every value the checkpoint engine
//! needs from it is named by an uninterpreted function of the plain data it
//! depends on, and computed by a small trusted wrapper.

use vstd::prelude::*;
use crate::tx::{Tx, TxV, witnesses_of};
use crate::sigset::Xpub;

verus! {

#[verifier::external_type_specification]
#[verifier::external_body]
pub struct ExTransaction(bitcoin::Transaction);

/// The SHA-256 digest (32 bytes) of a byte string.
pub uninterp spec fn sha256_of(bytes: Seq<u8>) -> Seq<u8>;

/// The serialized compressed public key (33 bytes) derived from a BIP-32
/// extended public key (its 78-byte encoding) at one non-hardened child
/// index, or `None` where decoding or derivation fails.
pub uninterp spec fn derived_pubkey_of(xpub: Seq<u8>, child: u32) -> Option<Seq<u8>>;

/// Whether a 64-byte compact ECDSA signature is valid for a 32-byte message
/// under a 33-byte compressed secp256k1 public key.
pub uninterp spec fn sig_valid_of(msg: Seq<u8>, pubkey: Seq<u8>, sig: Seq<u8>) -> bool;

/// The transaction id (32 bytes): the double-SHA-256 of the transaction's
/// serialization without witnesses.
pub uninterp spec fn txid_of(t: TxV) -> Seq<u8>;

/// The length in bytes of the transaction's serialization, witnesses
/// included.
pub uninterp spec fn tx_size_of(t: TxV, witnesses: Seq<Seq<Seq<u8>>>) -> u64;

/// The BIP-143 `SIGHASH_ALL` digest (32 bytes) of a transaction at one
/// input position, for a script code and the amount the input spends.
pub uninterp spec fn sighash_of(t: TxV, index: int, script_code: Seq<u8>, value: u64) -> Seq<u8>;

/// Builds the bitcoin-crate transaction that mirrors a `Tx`, field for
/// field; the conversion shared by the wrappers below.
#[verifier::external_body]
fn raw_tx(t: &Tx) -> bitcoin::Transaction {
    let ins = t.inputs.iter().map(|i| bitcoin::TxIn {
        previous_output: bitcoin::OutPoint { txid: <bitcoin::Txid as bitcoin::hashes::Hash>::from_inner(i.prevout_txid), vout: i.prevout_vout },
        script_sig: bitcoin::Script::from(i.script_sig.clone()),
        sequence: i.sequence,
        witness: i.witness.clone(),
    });
    let outs = t.outputs.iter().map(|o| bitcoin::TxOut { value: o.value, script_pubkey: bitcoin::Script::from(o.script_pubkey.clone()) });
    bitcoin::Transaction { version: t.version, lock_time: t.lock_time, input: ins.collect(), output: outs.collect() }
}

/// Relies on bitcoin::hashes::sha256::Hash::hash: the digest of the bytes
/// alone.
#[verifier::external_body]
pub(crate) fn sha256(bytes: &Vec<u8>) -> (r: [u8; 32])
    ensures
        r@ == sha256_of(bytes@),
{
    <bitcoin::hashes::sha256::Hash as bitcoin::hashes::Hash>::into_inner(
        <bitcoin::hashes::sha256::Hash as bitcoin::hashes::Hash>::hash(bytes.as_slice()),
    )
}

/// Relies on bip32 ExtendedPubKey::decode and derive_pub: a non-hardened
/// child public key is a function of the 78 encoded bytes and the child
/// index alone, and serializes to 33 bytes. A decodable encoding whose
/// depth byte is already 255 is excluded: deriving from it would overflow
/// the child's depth byte inside the bip32 code, so callers treat such a
/// parent as underivable before coming here.
#[verifier::external_body]
pub(crate) fn derive_pubkey(xpub: &Xpub, child: u32) -> (r: Option<Vec<u8>>)
    requires
        crate::sigset::xpub_depth_ok(xpub@),
    ensures
        r is Some <==> derived_pubkey_of(xpub@, child) is Some,
        r matches Some(v) ==> derived_pubkey_of(xpub@, child) matches Some(s) && v@ == s
            && v@.len() == 33,
{
    let ext = match bitcoin::util::bip32::ExtendedPubKey::decode(xpub.bytes.as_slice()) {
        Ok(x) => x,
        Err(_) => return None,
    };
    let cn = match bitcoin::util::bip32::ChildNumber::from_normal_idx(child) {
        Ok(c) => c,
        Err(_) => return None,
    };
    let secp = bitcoin::secp256k1::Secp256k1::verification_only();
    match ext.derive_pub(&secp, &[cn]) {
        Ok(d) => Some(d.public_key.key.serialize().to_vec()),
        Err(_) => None,
    }
}

/// Relies on secp256k1 verify: whether a compact ECDSA signature is valid
/// for a message under a public key is a function of those bytes alone.
#[verifier::external_body]
pub(crate) fn verify_signature(msg: &[u8; 32], pubkey: &Vec<u8>, sig: &Vec<u8>) -> (r: bool)
    ensures
        r == sig_valid_of(msg@, pubkey@, sig@),
{
    let m = match bitcoin::secp256k1::Message::from_slice(msg.as_slice()) {
        Ok(m) => m,
        Err(_) => return false,
    };
    let p = match bitcoin::secp256k1::PublicKey::from_slice(pubkey.as_slice()) {
        Ok(p) => p,
        Err(_) => return false,
    };
    let s = match bitcoin::secp256k1::Signature::from_compact(sig.as_slice()) {
        Ok(s) => s,
        Err(_) => return false,
    };
    bitcoin::secp256k1::Secp256k1::verification_only().verify(&m, &s, &p).is_ok()
}

/// Relies on Transaction::txid: the double-SHA-256 of the serialization
/// without witnesses, a function of the remaining fields alone.
#[verifier::external_body]
pub(crate) fn tx_txid(t: &Tx) -> (r: [u8; 32])
    ensures
        r@ == txid_of(t@),
{
    <bitcoin::Txid as bitcoin::hashes::Hash>::into_inner(raw_tx(t).txid())
}

/// Relies on Transaction::get_size: the length of the serialization, a
/// function of the fields and witnesses alone.
#[verifier::external_body]
pub(crate) fn tx_size(t: &Tx) -> (r: u64)
    ensures
        r == tx_size_of(t@, witnesses_of(t)),
{
    raw_tx(t).get_size() as u64
}

/// Relies on bip143 SigHashCache::signature_hash: the BIP-143 SIGHASH_ALL
/// digest, a function of the transaction's witness-free fields, the input
/// position, the script code and the spent amount alone.
#[verifier::external_body]
pub(crate) fn tx_sighash(t: &Tx, index: usize, script_code: &Vec<u8>, value: u64) -> (r: [u8; 32])
    requires
        index < t@.inputs.len(),
    ensures
        r@ == sighash_of(t@, index as int, script_code@, value),
{
    let raw = raw_tx(t);
    let mut cache = bitcoin::util::bip143::SigHashCache::new(&raw);
    let script = bitcoin::Script::from(script_code.clone());
    <bitcoin::SigHash as bitcoin::hashes::Hash>::into_inner(
        cache.signature_hash(index, &script, value, bitcoin::SigHashType::All),
    )
}

} // verus!
