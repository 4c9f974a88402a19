use checkpoint_queue::checkpoint::{CheckpointStatus, FEE_RATE};
use checkpoint_queue::error::Error;
use checkpoint_queue::queue::CheckpointQueue;
use checkpoint_queue::sigset::{ValidatorEntry, Xpub};

fn secp() -> bitcoin::secp256k1::Secp256k1<bitcoin::secp256k1::All> {
    bitcoin::secp256k1::Secp256k1::new()
}

fn master(seed: u8) -> bitcoin::util::bip32::ExtendedPrivKey {
    bitcoin::util::bip32::ExtendedPrivKey::new_master(bitcoin::Network::Bitcoin, &[seed; 32])
        .unwrap()
}

fn xpub_of(xprv: &bitcoin::util::bip32::ExtendedPrivKey) -> Xpub {
    let ctx = secp();
    let ext = bitcoin::util::bip32::ExtendedPubKey::from_private(&ctx, xprv);
    Xpub { bytes: ext.encode().to_vec() }
}

fn one_signer_entries(xprv: &bitcoin::util::bip32::ExtendedPrivKey) -> Vec<ValidatorEntry> {
    vec![ValidatorEntry { voting_power: 1, xpub: Some(xpub_of(xprv)) }]
}

fn sign_msg(
    xprv: &bitcoin::util::bip32::ExtendedPrivKey,
    child: u32,
    msg: &[u8; 32],
) -> Vec<u8> {
    let ctx = secp();
    let cn = bitcoin::util::bip32::ChildNumber::from_normal_idx(child).unwrap();
    let ck = xprv.derive_priv(&ctx, &[cn]).unwrap();
    let m = bitcoin::secp256k1::Message::from_slice(msg).unwrap();
    ctx.sign(&m, &ck.private_key.key).serialize_compact().to_vec()
}

/// Rebuilds the bitcoin-crate transaction a library `Tx` stands for.
fn rebuild(tx: &checkpoint_queue::tx::Tx) -> bitcoin::Transaction {
    bitcoin::Transaction {
        version: tx.version,
        lock_time: tx.lock_time,
        input: tx
            .inputs
            .iter()
            .map(|i| bitcoin::TxIn {
                previous_output: bitcoin::OutPoint {
                    txid: <bitcoin::Txid as bitcoin::hashes::Hash>::from_inner(i.prevout_txid),
                    vout: i.prevout_vout,
                },
                script_sig: bitcoin::Script::from(i.script_sig.clone()),
                sequence: i.sequence,
                witness: i.witness.clone(),
            })
            .collect(),
        output: tx
            .outputs
            .iter()
            .map(|o| bitcoin::TxOut {
                value: o.value,
                script_pubkey: bitcoin::Script::from(o.script_pubkey.clone()),
            })
            .collect(),
    }
}

/// Drives a fresh queue to the end of the first settlement: a genesis
/// deposit, one signer with quorum one, signed to Complete.
fn run_s1() -> (CheckpointQueue, bitcoin::util::bip32::ExtendedPrivKey, Vec<ValidatorEntry>, u64) {
    let xprv = master(1);
    let entries = one_signer_entries(&xprv);
    let mut q = CheckpointQueue::new();
    q.maybe_step(&entries, 0).unwrap();
    assert_eq!(q.index(), 0);
    let sigset = q.active_sigset().unwrap();
    q.push_input([0x11; 32], 0, &sigset, [9; 20], 1_000_000).unwrap();
    q.maybe_step(&entries, 700).unwrap();
    assert_eq!(q.index(), 1);
    let est0 = {
        let scp = q.get(0).unwrap();
        assert!(matches!(scp.status, CheckpointStatus::Signing));
        scp.tx().unwrap().1
    };
    let xpub = xpub_of(&xprv);
    let to_sign = q.to_sign(&xpub).unwrap();
    assert_eq!(to_sign.len(), 1);
    assert_eq!(to_sign[0].1, 0);
    let sig = sign_msg(&xprv, 0, &to_sign[0].0);
    q.sign(&xpub, &vec![sig]).unwrap();
    (q, xprv, entries, est0)
}

#[test]
fn s1_genesis_single_deposit_single_signer() {
    let (q, _xprv, _entries, est0) = run_s1();
    let cp0 = q.get(0).unwrap();
    assert!(matches!(cp0.status, CheckpointStatus::Complete));
    assert_eq!(cp0.signed_inputs(), 1);
    assert_eq!(cp0.outputs[0].value, 1_000_000 - FEE_RATE * est0);
    assert_eq!(q.completed().len(), 1);
    let txs = q.completed_txs().unwrap();
    assert_eq!(txs.len(), 1);
    // The new Building checkpoint chains the reserve forward.
    let building = q.building().unwrap();
    assert_eq!(building.inputs.len(), 1);
    assert_eq!(building.inputs[0].amount, 1_000_000 - FEE_RATE * est0);
    assert_eq!(building.inputs[0].prevout_vout, 0);
}

#[test]
fn s1_sighash_matches_bip143_of_frozen_tx() {
    let xprv = master(1);
    let entries = one_signer_entries(&xprv);
    let mut q = CheckpointQueue::new();
    q.maybe_step(&entries, 0).unwrap();
    let sigset = q.active_sigset().unwrap();
    q.push_input([0x11; 32], 0, &sigset, [9; 20], 1_000_000).unwrap();
    q.maybe_step(&entries, 700).unwrap();
    let xpub = xpub_of(&xprv);
    let to_sign = q.to_sign(&xpub).unwrap();
    let scp = q.get(0).unwrap();
    let (tx, _) = scp.tx().unwrap();
    let raw = rebuild(&tx);
    let mut cache = bitcoin::util::bip143::SigHashCache::new(&raw);
    let script = bitcoin::Script::from(scp.inputs[0].redeem_script.clone());
    let want = cache.signature_hash(0, &script, scp.inputs[0].amount, bitcoin::SigHashType::All);
    let want32 = <bitcoin::SigHash as bitcoin::hashes::Hash>::into_inner(want);
    assert_eq!(to_sign[0].0, want32);
}

#[test]
fn s2_premature_tick_changes_nothing() {
    let xprv = master(1);
    let entries = one_signer_entries(&xprv);
    let mut q = CheckpointQueue::new();
    q.maybe_step(&entries, 0).unwrap();
    let sigset = q.active_sigset().unwrap();
    q.push_input([0x11; 32], 0, &sigset, [9; 20], 1_000_000).unwrap();
    q.maybe_step(&entries, 300).unwrap();
    assert_eq!(q.index(), 0);
    assert_eq!(q.all().len(), 1);
    assert!(q.signing().is_none());
    let b = q.building().unwrap();
    assert!(matches!(b.status, CheckpointStatus::Building));
    assert_eq!(b.inputs.len(), 1);
}

#[test]
fn s3_idle_tick_on_empty_queue_pushes_only_genesis() {
    // An empty queue skips the age and activity checks: one tick with a
    // viable roster freezes the genesis Building checkpoint, and nothing
    // more happens while it stays idle.
    let xprv = master(1);
    let entries = one_signer_entries(&xprv);
    let mut q = CheckpointQueue::new();
    q.maybe_step(&entries, 0).unwrap();
    assert_eq!(q.index(), 0);
    assert_eq!(q.all().len(), 1);
    assert!(q.signing().is_none());
    let b = q.building().unwrap();
    assert!(matches!(b.status, CheckpointStatus::Building));
    assert_eq!(b.inputs.len(), 0);
    assert_eq!(b.outputs.len(), 0);
    // Idle: later ticks never produce another checkpoint.
    q.maybe_step(&entries, 10_000).unwrap();
    assert_eq!(q.index(), 0);
    assert_eq!(q.all().len(), 1);
    assert!(q.signing().is_none());
}

#[test]
fn s4_chaining_second_deposit() {
    let (mut q, xprv, entries, _est0) = run_s1();
    let sigset1 = q.active_sigset().unwrap();
    q.push_input([0x22; 32], 0, &sigset1, [8; 20], 500_000).unwrap();
    q.maybe_step(&entries, 1400).unwrap();
    assert_eq!(q.index(), 2);
    // The predecessor is Signing.
    let signing = q.signing().expect("second-newest is signing");
    assert!(matches!(signing.status, CheckpointStatus::Signing));
    let (stx, _) = signing.tx().unwrap();
    let reserve1 = signing.outputs[0].value;
    let want_txid = <bitcoin::Txid as bitcoin::hashes::Hash>::into_inner(rebuild(&stx).txid());
    // The new Building checkpoint's first input spends that reserve.
    let building = q.building().unwrap();
    assert_eq!(building.inputs[0].prevout_txid, want_txid);
    assert_eq!(building.inputs[0].prevout_vout, 0);
    assert_eq!(building.inputs[0].amount, reserve1);
    let _ = xprv;
}

#[test]
fn s5_excess_signatures_rejected_whole() {
    let xprv = master(1);
    let entries = one_signer_entries(&xprv);
    let mut q = CheckpointQueue::new();
    q.maybe_step(&entries, 0).unwrap();
    let sigset = q.active_sigset().unwrap();
    q.push_input([0x11; 32], 0, &sigset, [9; 20], 1_000_000).unwrap();
    q.maybe_step(&entries, 700).unwrap();
    let xpub = xpub_of(&xprv);
    let to_sign = q.to_sign(&xpub).unwrap();
    let sig = sign_msg(&xprv, 0, &to_sign[0].0);
    let err = q.sign(&xpub, &vec![sig.clone(), sig.clone()]).unwrap_err();
    assert_eq!(err, Error::ExcessSignatures);
    // Unchanged: the input still awaits its signature.
    assert_eq!(q.get(0).unwrap().signed_inputs(), 0);
    assert_eq!(q.to_sign(&xpub).unwrap().len(), 1);
    // The same single signature still goes through.
    q.sign(&xpub, &vec![sig]).unwrap();
    assert!(matches!(q.get(0).unwrap().status, CheckpointStatus::Complete));
}

#[test]
fn s6_invalid_signature_rejected_unchanged() {
    let xprv = master(1);
    let entries = one_signer_entries(&xprv);
    let mut q = CheckpointQueue::new();
    q.maybe_step(&entries, 0).unwrap();
    let sigset = q.active_sigset().unwrap();
    q.push_input([0x11; 32], 0, &sigset, [9; 20], 1_000_000).unwrap();
    q.maybe_step(&entries, 700).unwrap();
    let xpub = xpub_of(&xprv);
    let to_sign = q.to_sign(&xpub).unwrap();
    let mut bad = sign_msg(&xprv, 0, &to_sign[0].0);
    bad[10] ^= 0xff;
    let err = q.sign(&xpub, &vec![bad]).unwrap_err();
    assert_eq!(err, Error::InvalidSignature);
    assert_eq!(q.get(0).unwrap().signed_inputs(), 0);
    assert!(matches!(q.get(0).unwrap().status, CheckpointStatus::Signing));
}

#[test]
fn not_enough_signatures_on_empty_batch() {
    let xprv = master(1);
    let entries = one_signer_entries(&xprv);
    let mut q = CheckpointQueue::new();
    q.maybe_step(&entries, 0).unwrap();
    let sigset = q.active_sigset().unwrap();
    q.push_input([0x11; 32], 0, &sigset, [9; 20], 1_000_000).unwrap();
    q.maybe_step(&entries, 700).unwrap();
    let xpub = xpub_of(&xprv);
    let err = q.sign(&xpub, &vec![]).unwrap_err();
    assert_eq!(err, Error::NotEnoughSignatures);
}

#[test]
fn fee_identity_with_withdrawal() {
    let xprv = master(1);
    let entries = one_signer_entries(&xprv);
    let mut q = CheckpointQueue::new();
    q.maybe_step(&entries, 0).unwrap();
    let sigset = q.active_sigset().unwrap();
    q.push_input([0x11; 32], 0, &sigset, [9; 20], 1_000_000).unwrap();
    q.push_output(checkpoint_queue::tx::TxOut { value: 100_000, script_pubkey: vec![1, 2, 3] })
        .unwrap();
    q.maybe_step(&entries, 700).unwrap();
    let scp = q.get(0).unwrap();
    let (tx, est) = scp.tx().unwrap();
    // in − user outputs − reserve = fee, and the reserve sits at output 0.
    let user: u64 = tx.outputs[1..].iter().map(|o| o.value).sum();
    assert_eq!(user, 100_000);
    assert_eq!(1_000_000 - user - tx.outputs[0].value, est * FEE_RATE);
}

#[test]
fn insufficient_fee_fails_tick_unchanged() {
    let xprv = master(1);
    let entries = one_signer_entries(&xprv);
    let mut q = CheckpointQueue::new();
    q.maybe_step(&entries, 0).unwrap();
    let sigset = q.active_sigset().unwrap();
    q.push_input([0x11; 32], 0, &sigset, [9; 20], 5).unwrap();
    let err = q.maybe_step(&entries, 700).unwrap_err();
    assert_eq!(err, Error::InsufficientFee);
    assert_eq!(q.index(), 0);
    assert_eq!(q.all().len(), 1);
    assert!(matches!(q.building().unwrap().status, CheckpointStatus::Building));
}

#[test]
fn signer_idempotence_on_done_inputs() {
    let (mut q, xprv, entries, _est0) = run_s1();
    // Move the completed-then-chained queue to the next Signing phase: the
    // new checkpoint's only input is the chained reserve, already owed to
    // the same signer.
    q.push_input(
        [0x22; 32],
        0,
        &q.active_sigset().unwrap(),
        [8; 20],
        500_000,
    )
    .unwrap();
    q.maybe_step(&entries, 1400).unwrap();
    let xpub = xpub_of(&xprv);
    // Sign both inputs of the now-Signing checkpoint.
    let todo = q.to_sign(&xpub).unwrap();
    assert_eq!(todo.len(), 2);
    let sigs: Vec<Vec<u8>> = todo.iter().map(|(m, idx)| sign_msg(&xprv, *idx, m)).collect();
    q.sign(&xpub, &sigs).unwrap();
    assert!(matches!(q.get(1).unwrap().status, CheckpointStatus::Complete));
    // After everything is done there is no Signing checkpoint any more, so
    // a resubmission is refused outright and mutates nothing.
    let err = q.sign(&xpub, &sigs).unwrap_err();
    assert_eq!(err, Error::WrongCheckpointStatus);
    assert_eq!(q.get(1).unwrap().signed_inputs(), 2);
}
