use checkpoint_queue::checkpoint::{Checkpoint, CheckpointStatus, MAX_INPUTS, MAX_OUTPUTS};
use checkpoint_queue::error::Error;
use checkpoint_queue::queue::CheckpointQueue;
use checkpoint_queue::sigset::{
    from_validator_ctx, Signatory, SignatorySet, ValidatorEntry, Xpub,
};
use checkpoint_queue::threshold::{ThresholdSig, SIG_VSIZE, WITNESS_BASE_VSIZE};
use checkpoint_queue::tx::TxOut;

fn secp() -> bitcoin::secp256k1::Secp256k1<bitcoin::secp256k1::All> {
    bitcoin::secp256k1::Secp256k1::new()
}

fn master(seed: u8) -> bitcoin::util::bip32::ExtendedPrivKey {
    bitcoin::util::bip32::ExtendedPrivKey::new_master(bitcoin::Network::Bitcoin, &[seed; 32])
        .unwrap()
}

fn xpub_of(xprv: &bitcoin::util::bip32::ExtendedPrivKey) -> Xpub {
    let ctx = secp();
    let ext = bitcoin::util::bip32::ExtendedPubKey::from_private(&ctx, xprv);
    Xpub { bytes: ext.encode().to_vec() }
}

fn child_pubkey(xprv: &bitcoin::util::bip32::ExtendedPrivKey, child: u32) -> Vec<u8> {
    let ctx = secp();
    let ext = bitcoin::util::bip32::ExtendedPubKey::from_private(&ctx, xprv);
    let cn = bitcoin::util::bip32::ChildNumber::from_normal_idx(child).unwrap();
    ext.derive_pub(&ctx, &[cn]).unwrap().public_key.key.serialize().to_vec()
}

fn small_sigset(pubkey: Vec<u8>) -> SignatorySet {
    SignatorySet {
        create_time: 0,
        index: 0,
        threshold: 1,
        possible_vp: 1,
        present_vp: 1,
        signatories: vec![Signatory { pubkey, voting_power: 1 }],
    }
}

#[test]
fn redeem_script_layout() {
    let pk = vec![2u8; 33];
    let s = small_sigset(pk.clone());
    let dest = [7u8; 20];
    let rs = s.redeem_script(&dest);
    let mut want: Vec<u8> = Vec::new();
    want.extend_from_slice(&1u64.to_le_bytes());
    want.extend_from_slice(&pk);
    want.extend_from_slice(&1u64.to_le_bytes());
    want.extend_from_slice(&dest);
    assert_eq!(rs, want);
}

#[test]
fn output_script_is_p2wsh_of_redeem_script() {
    let s = small_sigset(vec![2u8; 33]);
    let dest = [7u8; 20];
    let rs = s.redeem_script(&dest);
    let os = s.output_script(&dest);
    let digest = <bitcoin::hashes::sha256::Hash as bitcoin::hashes::Hash>::hash(&rs);
    let bytes = <bitcoin::hashes::sha256::Hash as bitcoin::hashes::Hash>::into_inner(digest);
    let mut want = vec![0u8, 32u8];
    want.extend_from_slice(&bytes);
    assert_eq!(os, want);
}

#[test]
fn collector_lifecycle() {
    let xprv = master(3);
    let pk = child_pubkey(&xprv, 0);
    let s = small_sigset(pk.clone());
    let mut ts = ThresholdSig::from_sigset(&s);
    assert!(ts.contains_key(&pk));
    assert!(ts.needs_sig(&pk));
    assert!(!ts.contains_key(&vec![3u8; 33]));
    assert!(!ts.done());
    assert_eq!(ts.to_witness(), vec![Vec::<u8>::new()]);
    assert_eq!(ts.est_vsize(), SIG_VSIZE + WITNESS_BASE_VSIZE);
    let msg = [0x55u8; 32];
    ts.set_message(msg);
    assert_eq!(ts.message(), msg);
    // A wrong signature is refused and leaves the collector unchanged.
    assert_eq!(ts.sign(&pk, &vec![0u8; 64]), Err(Error::InvalidSignature));
    assert!(!ts.done());
    // The right one is recorded and reaches the quorum.
    let ctx = secp();
    let cn = bitcoin::util::bip32::ChildNumber::from_normal_idx(0).unwrap();
    let ck = xprv.derive_priv(&ctx, &[cn]).unwrap();
    let m = bitcoin::secp256k1::Message::from_slice(&msg).unwrap();
    let sig = ctx.sign(&m, &ck.private_key.key).serialize_compact().to_vec();
    ts.sign(&pk, &sig).unwrap();
    assert!(ts.done());
    assert!(!ts.needs_sig(&pk));
    // A second submission from the same key is refused.
    assert_eq!(ts.sign(&pk, &sig), Err(Error::InvalidSignature));
    // The witness holds the null dummy, then the signature.
    assert_eq!(ts.to_witness(), vec![Vec::<u8>::new(), sig]);
}

#[test]
fn validator_ctx_roster_dedup_and_threshold() {
    let xprv = master(4);
    let e1 = ValidatorEntry { voting_power: 3, xpub: Some(xpub_of(&xprv)) };
    let e2 = ValidatorEntry { voting_power: 5, xpub: Some(xpub_of(&xprv)) };
    let e3 = ValidatorEntry { voting_power: 7, xpub: None };
    let s = from_validator_ctx(2, &vec![e1, e2, e3], 42).unwrap();
    assert_eq!(s.create_time, 42);
    assert_eq!(s.index, 2);
    // The repeated key is listed once, with the first entry's power; the
    // keyless validator counts only toward the possible power.
    assert_eq!(s.signatories.len(), 1);
    assert_eq!(s.signatories[0].pubkey, child_pubkey(&xprv, 2));
    assert_eq!(s.present_vp, 3);
    assert_eq!(s.possible_vp, 15);
    assert_eq!(s.threshold, 3 * 2 / 3 + 1);
}

#[test]
fn validator_ctx_bad_xpub_fails_derivation() {
    let e = ValidatorEntry { voting_power: 1, xpub: Some(Xpub { bytes: vec![0u8; 78] }) };
    assert_eq!(from_validator_ctx(0, &vec![e], 0).unwrap_err(), Error::Bip32Derivation);
}

#[test]
fn no_quorum_means_no_checkpoint() {
    let entries = vec![ValidatorEntry { voting_power: 5, xpub: None }];
    let mut q = CheckpointQueue::new();
    q.maybe_step(&entries, 0).unwrap();
    assert_eq!(q.all().len(), 0);
    assert!(q.building().is_err());
}

#[test]
fn queue_indexing_bounds() {
    let q = CheckpointQueue::new();
    assert_eq!(q.get(0).unwrap_err(), Error::IndexOutOfBounds);
    assert_eq!(q.building().unwrap_err(), Error::IndexOutOfBounds);
    assert_eq!(q.active_sigset().unwrap_err(), Error::IndexOutOfBounds);
    assert_eq!(q.sigset(3).unwrap_err(), Error::IndexOutOfBounds);
    let xprv = master(5);
    let mut q = CheckpointQueue::new();
    let entries = vec![ValidatorEntry { voting_power: 1, xpub: Some(xpub_of(&xprv)) }];
    q.maybe_step(&entries, 0).unwrap();
    assert!(q.get(0).is_ok());
    assert_eq!(q.get(1).unwrap_err(), Error::IndexOutOfBounds);
    assert_eq!(q.sigset(0).unwrap().index, 0);
}

#[test]
fn sign_without_signing_checkpoint_is_refused() {
    let xprv = master(6);
    let mut q = CheckpointQueue::new();
    let xpub = xpub_of(&xprv);
    assert_eq!(q.sign(&xpub, &vec![]).unwrap_err(), Error::WrongCheckpointStatus);
    assert_eq!(q.to_sign(&xpub).unwrap_err(), Error::WrongCheckpointStatus);
}

#[test]
fn input_cap_is_enforced_at_push() {
    let xprv = master(7);
    let pk = child_pubkey(&xprv, 0);
    let s = small_sigset(pk);
    let mut cp = Checkpoint::new(s.duplicate());
    for i in 0..MAX_INPUTS {
        cp.push_input([i as u8; 32], 0, &s, [1; 20], 10).unwrap();
    }
    assert_eq!(
        cp.push_input([0xaa; 32], 0, &s, [1; 20], 10).unwrap_err(),
        Error::CheckpointFull
    );
    assert_eq!(cp.inputs.len() as u64, MAX_INPUTS);
}

#[test]
fn output_cap_keeps_a_reserve_slot() {
    let xprv = master(8);
    let s = small_sigset(child_pubkey(&xprv, 0));
    let mut cp = Checkpoint::new(s);
    for _ in 0..(MAX_OUTPUTS - 1) {
        cp.push_output(TxOut { value: 1, script_pubkey: vec![0] }).unwrap();
    }
    assert_eq!(
        cp.push_output(TxOut { value: 1, script_pubkey: vec![0] }).unwrap_err(),
        Error::CheckpointFull
    );
}

#[test]
fn amount_overflow_is_rejected() {
    let xprv = master(9);
    let pk = child_pubkey(&xprv, 0);
    let s = small_sigset(pk);
    let mut cp = Checkpoint::new(s.duplicate());
    cp.push_input([1; 32], 0, &s, [1; 20], u64::MAX).unwrap();
    assert_eq!(
        cp.push_input([2; 32], 0, &s, [1; 20], 1).unwrap_err(),
        Error::Overflow
    );
}

#[test]
fn tx_assembly_is_deterministic() {
    let xprv = master(10);
    let pk = child_pubkey(&xprv, 0);
    let s = small_sigset(pk);
    let mut cp = Checkpoint::new(s.duplicate());
    cp.push_input([1; 32], 3, &s, [2; 20], 77_000).unwrap();
    cp.push_output(TxOut { value: 5, script_pubkey: vec![9, 9] }).unwrap();
    let (t1, e1) = cp.tx().unwrap();
    let (t2, e2) = cp.tx().unwrap();
    assert_eq!(e1, e2);
    assert_eq!(t1.version, t2.version);
    assert_eq!(t1.lock_time, t2.lock_time);
    assert_eq!(t1.inputs.len(), t2.inputs.len());
    for (a, b) in t1.inputs.iter().zip(t2.inputs.iter()) {
        assert_eq!(a.prevout_txid, b.prevout_txid);
        assert_eq!(a.prevout_vout, b.prevout_vout);
        assert_eq!(a.script_sig, b.script_sig);
        assert_eq!(a.sequence, b.sequence);
        assert_eq!(a.witness, b.witness);
    }
    for (a, b) in t1.outputs.iter().zip(t2.outputs.iter()) {
        assert_eq!(a.value, b.value);
        assert_eq!(a.script_pubkey, b.script_pubkey);
    }
}

#[test]
fn estimate_counts_witness_cost_and_serialized_size() {
    let xprv = master(11);
    let pk = child_pubkey(&xprv, 0);
    let s = small_sigset(pk);
    let mut cp = Checkpoint::new(s.duplicate());
    cp.push_input([1; 32], 0, &s, [2; 20], 77_000).unwrap();
    let (tx, est) = cp.tx().unwrap();
    let raw = bitcoin::Transaction {
        version: tx.version,
        lock_time: tx.lock_time,
        input: tx
            .inputs
            .iter()
            .map(|i| bitcoin::TxIn {
                previous_output: bitcoin::OutPoint {
                    txid: <bitcoin::Txid as bitcoin::hashes::Hash>::from_inner(i.prevout_txid),
                    vout: i.prevout_vout,
                },
                script_sig: bitcoin::Script::from(i.script_sig.clone()),
                sequence: i.sequence,
                witness: i.witness.clone(),
            })
            .collect(),
        output: tx
            .outputs
            .iter()
            .map(|o| bitcoin::TxOut {
                value: o.value,
                script_pubkey: bitcoin::Script::from(o.script_pubkey.clone()),
            })
            .collect(),
    };
    assert_eq!(est, SIG_VSIZE + WITNESS_BASE_VSIZE + raw.get_size() as u64);
}

#[test]
fn sigset_roster_key_is_really_derived() {
    // The roster's key must be the bip32 child of the registered xpub at
    // the checkpoint index, not the xpub bytes handed in.
    let xprv = master(12);
    let entries = vec![ValidatorEntry { voting_power: 1, xpub: Some(xpub_of(&xprv)) }];
    let s = from_validator_ctx(7, &entries, 0).unwrap();
    assert_eq!(s.signatories[0].pubkey, child_pubkey(&xprv, 7));
    assert_ne!(s.signatories[0].pubkey, xpub_of(&xprv).bytes);
}

#[test]
fn to_sign_with_undecodable_xpub_fails() {
    let xprv = master(13);
    let entries = vec![ValidatorEntry { voting_power: 1, xpub: Some(xpub_of(&xprv)) }];
    let mut q = CheckpointQueue::new();
    q.maybe_step(&entries, 0).unwrap();
    let sigset = q.active_sigset().unwrap();
    q.push_input([0x11; 32], 0, &sigset, [9; 20], 1_000_000).unwrap();
    q.maybe_step(&entries, 700).unwrap();
    let bad = Xpub { bytes: vec![0u8; 78] };
    assert_eq!(q.to_sign(&bad).unwrap_err(), Error::Bip32Derivation);
}

#[test]
fn all_lists_newest_first() {
    let xprv = master(14);
    let entries = vec![ValidatorEntry { voting_power: 1, xpub: Some(xpub_of(&xprv)) }];
    let mut q = CheckpointQueue::new();
    q.maybe_step(&entries, 0).unwrap();
    let sigset = q.active_sigset().unwrap();
    q.push_input([0x11; 32], 0, &sigset, [9; 20], 1_000_000).unwrap();
    q.maybe_step(&entries, 700).unwrap();
    let all = q.all();
    assert_eq!(all.len(), 2);
    assert_eq!(all[0].0, 1);
    assert!(matches!(all[0].1.status, CheckpointStatus::Building));
    assert_eq!(all[1].0, 0);
    assert!(matches!(all[1].1.status, CheckpointStatus::Signing));
    // Nothing is complete yet, so the completed prefix is empty.
    assert_eq!(q.completed().len(), 0);
    assert_eq!(q.completed_txs().unwrap().len(), 0);
}

#[test]
fn signer_batch_after_all_done_consumes_slots() {
    // Every input of this signer is already fully signed: a batch must
    // consume exactly one slot per such input, unused, and change
    // nothing; a shorter or longer batch is a size mismatch.
    let xprv = master(15);
    let pk = child_pubkey(&xprv, 0);
    let xpub = xpub_of(&xprv);
    let msg = [0x44u8; 32];
    let ctx = secp();
    let cn = bitcoin::util::bip32::ChildNumber::from_normal_idx(0).unwrap();
    let ck = xprv.derive_priv(&ctx, &[cn]).unwrap();
    let m = bitcoin::secp256k1::Message::from_slice(&msg).unwrap();
    let sig = ctx.sign(&m, &ck.private_key.key).serialize_compact().to_vec();
    let done_input = |tag: u8| checkpoint_queue::checkpoint::Input {
        prevout_txid: [tag; 32],
        prevout_vout: 0,
        script_pubkey: vec![],
        redeem_script: vec![0x51],
        sigset_index: 0,
        dest: [0; 20],
        amount: 1_000,
        sigs: ThresholdSig {
            threshold: 1,
            signed_power: 1,
            message: Some(msg),
            shares: vec![checkpoint_queue::threshold::Share {
                pubkey: pk.clone(),
                power: 1,
                sig: Some(sig.clone()),
            }],
        },
    };
    let mut cp = Checkpoint {
        status: CheckpointStatus::Signing,
        inputs: vec![done_input(1), done_input(2)],
        signed_inputs: 2,
        outputs: vec![TxOut { value: 100, script_pubkey: vec![0] }],
        sigset: small_sigset(pk.clone()),
    };
    // Two obsolete slots: accepted, consumed unused, nothing mutated.
    cp.sign(&xpub, &vec![vec![0u8; 64], vec![0u8; 64]]).unwrap();
    assert_eq!(cp.signed_inputs(), 2);
    assert_eq!(cp.inputs[0].sigs.shares[0].sig.as_ref().unwrap(), &sig);
    assert_eq!(cp.inputs[1].sigs.shares[0].sig.as_ref().unwrap(), &sig);
    // One slot short, one slot over: size mismatches, nothing mutated.
    assert_eq!(
        cp.sign(&xpub, &vec![vec![0u8; 64]]).unwrap_err(),
        Error::NotEnoughSignatures
    );
    assert_eq!(
        cp.sign(&xpub, &vec![vec![0u8; 64], vec![0u8; 64], vec![0u8; 64]]).unwrap_err(),
        Error::ExcessSignatures
    );
    assert_eq!(cp.signed_inputs(), 2);
}

#[test]
fn depth_255_xpub_is_refused_not_panicking() {
    // A decodable mainnet encoding whose depth byte is already 255 cannot
    // take a child; it must come back as a derivation failure everywhere a
    // signer-supplied key is accepted.
    let xprv = master(16);
    let mut bytes = xpub_of(&xprv).bytes;
    bytes[4] = 0xff;
    let bad = Xpub { bytes: bytes.clone() };
    // Roster construction refuses it.
    let e = ValidatorEntry { voting_power: 1, xpub: Some(Xpub { bytes: bytes.clone() }) };
    assert_eq!(from_validator_ctx(0, &vec![e], 0).unwrap_err(), Error::Bip32Derivation);
    // The signer-facing calls refuse it on a Signing checkpoint.
    let entries = vec![ValidatorEntry { voting_power: 1, xpub: Some(xpub_of(&xprv)) }];
    let mut q = CheckpointQueue::new();
    q.maybe_step(&entries, 0).unwrap();
    let sigset = q.active_sigset().unwrap();
    q.push_input([0x11; 32], 0, &sigset, [9; 20], 1_000_000).unwrap();
    q.maybe_step(&entries, 700).unwrap();
    assert_eq!(q.to_sign(&bad).unwrap_err(), Error::Bip32Derivation);
    assert_eq!(q.sign(&bad, &vec![]).unwrap_err(), Error::Bip32Derivation);
    assert_eq!(q.get(0).unwrap().signed_inputs(), 0);
}
