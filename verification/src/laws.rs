//! The library's laws: what holds of every queue between operations,
//! proved from the contracts and invariants the other modules state.

use vstd::prelude::*;
use crate::btc::{derived_pubkey_of, sig_valid_of, sighash_of, txid_of};
use crate::checkpoint::{
    CheckpointStatus, CheckpointV, InputV, cp_txv, in_sum, lemma_in_sum_congruent, out_sum,
    spec_advance, spec_est_vsize, spec_reserve0, spec_sign, spec_sign_go, FEE_RATE,
};
use crate::queue::QueueV;
use crate::threshold::{ts_contains, ts_done};
use crate::tx::TxV;

verus! {

/// Checkpoints of a row holding a status.
pub open spec fn count_status(s: Seq<CheckpointV>, st: CheckpointStatus) -> int
    decreases s.len(),
{
    if s.len() == 0 {
        0
    } else {
        count_status(s.drop_last(), st) + if s.last().status == st {
            1int
        } else {
            0int
        }
    }
}

/// A row without a status counts none of it.
proof fn lemma_count_status_zero(s: Seq<CheckpointV>, st: CheckpointStatus)
    requires
        forall|i: int| 0 <= i < s.len() ==> (#[trigger] s[i]).status != st,
    ensures
        count_status(s, st) == 0,
    decreases s.len(),
{
    if s.len() != 0 {
        lemma_count_status_zero(s.drop_last(), st);
    }
}

/// A row whose status sits in one slot at most counts it at most once.
proof fn lemma_count_status_single(s: Seq<CheckpointV>, st: CheckpointStatus, pos: int)
    requires
        forall|i: int| 0 <= i < s.len() && (#[trigger] s[i]).status == st ==> i == pos,
    ensures
        count_status(s, st) <= 1,
    decreases s.len(),
{
    if s.len() != 0 {
        if s.last().status == st {
            lemma_count_status_zero(s.drop_last(), st);
        } else {
            lemma_count_status_single(s.drop_last(), st, pos);
        }
    }
}

/// At most one checkpoint is Building and at most one is Signing, and
/// where both exist the Building one is the newer.
pub proof fn lemma_at_most_one(q: QueueV)
    requires
        q.wf(),
    ensures
        count_status(q.checkpoints, CheckpointStatus::Building) <= 1,
        count_status(q.checkpoints, CheckpointStatus::Signing) <= 1,
        forall|i: int, j: int|
            0 <= i < q.checkpoints.len() && 0 <= j < q.checkpoints.len() && (
            #[trigger] q.checkpoints[i]).status == CheckpointStatus::Building && (
            #[trigger] q.checkpoints[j]).status == CheckpointStatus::Signing ==> j < i,
{
    let s = q.checkpoints;
    assert forall|i: int|
        0 <= i < s.len() && (#[trigger] s[i]).status == CheckpointStatus::Building implies i
        == s.len() - 1 by {
        if i < s.len() - 2 {
            assert(s[i].status == CheckpointStatus::Complete);
        }
    }
    assert forall|i: int|
        0 <= i < s.len() && (#[trigger] s[i]).status == CheckpointStatus::Signing implies i
        == s.len() - 2 by {
        if i < s.len() - 2 {
            assert(s[i].status == CheckpointStatus::Complete);
        }
        if i == s.len() - 1 && s.len() > 0 {
            assert(s.last().status == CheckpointStatus::Building);
        }
    }
    lemma_count_status_single(s, CheckpointStatus::Building, s.len() - 1);
    lemma_count_status_single(s, CheckpointStatus::Signing, s.len() - 2);
}

/// Reserve conservation: every checkpoint's first input spends exactly
/// its predecessor's reserve output, output zero of the predecessor's
/// transaction.
pub proof fn lemma_reserve_chain(q: QueueV, i: int)
    requires
        q.wf(),
        0 <= i < q.checkpoints.len() - 1,
    ensures
        q.checkpoints[i + 1].inputs.len() >= 1,
        q.checkpoints[i].outputs.len() >= 1,
        q.checkpoints[i + 1].inputs[0].prevout_txid == txid_of(cp_txv(q.checkpoints[i])),
        q.checkpoints[i + 1].inputs[0].prevout_vout == 0,
        q.checkpoints[i + 1].inputs[0].amount == q.checkpoints[i].outputs[0].value,
{
}

/// Fee identity: after the Building-to-Signing transition, what the
/// inputs carry in, less what the user outputs pay and less the reserve,
/// is exactly the estimated fee, and the reserve is not negative.
pub proof fn lemma_fee_identity(c: CheckpointV)
    requires
        c.wf(),
        spec_advance(c) is Ok,
    ensures
        ({
            let f = spec_advance(c).unwrap();
            let fee = spec_est_vsize(
                CheckpointV {
                    status: CheckpointStatus::Signing,
                    outputs: seq![spec_reserve0(c)] + c.outputs,
                    ..c
                },
            ) * FEE_RATE;
            &&& f.outputs.len() == c.outputs.len() + 1
            &&& in_sum(f.inputs) - out_sum(f.outputs.drop_first()) - f.outputs[0].value == fee
            &&& f.outputs[0].value >= 0
        }),
{
    let f = spec_advance(c).unwrap();
    let mid = CheckpointV {
        status: CheckpointStatus::Signing,
        outputs: seq![spec_reserve0(c)] + c.outputs,
        ..c
    };
    let est = spec_est_vsize(mid);
    let reserve = in_sum(c.inputs) - out_sum(c.outputs) - est * FEE_RATE;
    assert(est <= u64::MAX && reserve >= 0);
    crate::checkpoint::lemma_out_sum_nonneg(c.outputs);
    crate::checkpoint::lemma_est_sum_nonneg(mid.inputs);
    assert(est * FEE_RATE >= 0) by (nonlinear_arith)
        requires
            est >= 0,
    ;
    assert(reserve <= in_sum(c.inputs));
    assert(reserve <= u64::MAX);
    assert(f.outputs == seq![
        crate::tx::TxOutV { value: reserve as u64, script_pubkey: spec_reserve0(c).script_pubkey },
    ] + c.outputs);
    assert(f.outputs[0].value == reserve);
    assert(f.inputs.len() == c.inputs.len());
    assert forall|i: int| 0 <= i < c.inputs.len() implies (#[trigger] f.inputs[i]).amount
        == c.inputs[i].amount by {}
    lemma_in_sum_congruent(f.inputs, c.inputs);
    assert(f.outputs.drop_first() =~= c.outputs);
}

/// Sighash correctness: on a frozen checkpoint, every recorded signature
/// is valid, under its signer's key, for the BIP-143 digest of the frozen
/// transaction at its input's position.
pub proof fn lemma_signed_inputs_valid(c: CheckpointV, i: int, k: int)
    requires
        c.wf(),
        c.status != CheckpointStatus::Building,
        0 <= i < c.inputs.len(),
        0 <= k < c.inputs[i].sigs.shares.len(),
        c.inputs[i].sigs.shares[k].sig is Some,
    ensures
        sig_valid_of(
            sighash_of(cp_txv(c), i, c.inputs[i].redeem_script, c.inputs[i].amount),
            c.inputs[i].sigs.shares[k].pubkey,
            c.inputs[i].sigs.shares[k].sig.unwrap(),
        ),
{
    assert(c.inputs[i].sigs.wf());
    assert(c.inputs[i].sigs.message == Option::Some(c.frozen_sighash(i)));
}

/// Inputs from `k` on whose roster lists the signer's key; each will
/// consume one slot of the signer's batch.
pub open spec fn consuming_count(inputs: Seq<InputV>, xpub: Seq<u8>, k: int) -> int
    decreases inputs.len() - k,
{
    if k < 0 || k >= inputs.len() {
        0
    } else {
        (match derived_pubkey_of(xpub, inputs[k].sigset_index) {
            Option::Some(pk) => if ts_contains(inputs[k].sigs, pk) {
                1int
            } else {
                0int
            },
            Option::None => 0int,
        }) + consuming_count(inputs, xpub, k + 1)
    }
}

proof fn lemma_sign_done_go(inputs: Seq<InputV>, xpub: Seq<u8>, sigs: Seq<Seq<u8>>, k: int, j: int, d: int)
    requires
        0 <= k <= inputs.len(),
        0 <= j,
        forall|i: int|
            0 <= i < inputs.len() ==> derived_pubkey_of(
                xpub,
                (#[trigger] inputs[i]).sigset_index,
            ) is Some,
        forall|i: int|
            0 <= i < inputs.len() ==> (ts_contains(
                (#[trigger] inputs[i]).sigs,
                derived_pubkey_of(xpub, inputs[i].sigset_index).unwrap(),
            ) ==> ts_done(inputs[i].sigs)),
    ensures
        j + consuming_count(inputs, xpub, k) == sigs.len() ==> spec_sign_go(
            inputs,
            xpub,
            sigs,
            k,
            j,
            d,
        ) == Result::<(Seq<InputV>, int, int), crate::error::Error>::Ok((inputs, sigs.len() as int, d)),
        j + consuming_count(inputs, xpub, k) != sigs.len() ==> (spec_sign_go(
            inputs,
            xpub,
            sigs,
            k,
            j,
            d,
        ) == Result::<(Seq<InputV>, int, int), crate::error::Error>::Err(
            crate::error::Error::NotEnoughSignatures,
        ) || spec_sign_go(inputs, xpub, sigs, k, j, d) == Result::<
            (Seq<InputV>, int, int),
            crate::error::Error,
        >::Err(crate::error::Error::ExcessSignatures)),
    decreases inputs.len() - k,
{
    if k < inputs.len() {
        let pk = derived_pubkey_of(xpub, inputs[k].sigset_index).unwrap();
        if ts_contains(inputs[k].sigs, pk) {
            assert(ts_done(inputs[k].sigs));
            if j < sigs.len() {
                lemma_sign_done_go(inputs, xpub, sigs, k + 1, j + 1, d);
            } else {
                lemma_consuming_nonneg(inputs, xpub, k + 1);
            }
        } else {
            lemma_sign_done_go(inputs, xpub, sigs, k + 1, j, d);
        }
    }
}

proof fn lemma_consuming_nonneg(inputs: Seq<InputV>, xpub: Seq<u8>, k: int)
    ensures
        consuming_count(inputs, xpub, k) >= 0,
    decreases inputs.len() - k,
{
    if 0 <= k < inputs.len() {
        lemma_consuming_nonneg(inputs, xpub, k + 1);
    }
}

/// Signer idempotence on done inputs: a batch submitted after every one
/// of the signer's inputs is already fully signed consumes exactly one
/// slot per such input and changes nothing, or fails as a size mismatch.
pub proof fn lemma_sign_idempotent_on_done(inputs: Seq<InputV>, xpub: Seq<u8>, sigs: Seq<Seq<u8>>)
    requires
        crate::sigset::xpub_depth_ok(xpub),
        forall|i: int|
            0 <= i < inputs.len() ==> derived_pubkey_of(
                xpub,
                (#[trigger] inputs[i]).sigset_index,
            ) is Some,
        forall|i: int|
            0 <= i < inputs.len() ==> (ts_contains(
                (#[trigger] inputs[i]).sigs,
                derived_pubkey_of(xpub, inputs[i].sigset_index).unwrap(),
            ) ==> ts_done(inputs[i].sigs)),
    ensures
        spec_sign(inputs, xpub, sigs) is Ok <==> sigs.len() == consuming_count(inputs, xpub, 0),
        spec_sign(inputs, xpub, sigs) matches Ok(p) ==> p.0 == inputs && p.2 == 0,
        spec_sign(inputs, xpub, sigs) is Err ==> spec_sign(inputs, xpub, sigs) == Result::<
            (Seq<InputV>, int, int),
            crate::error::Error,
        >::Err(crate::error::Error::NotEnoughSignatures) || spec_sign(inputs, xpub, sigs)
            == Result::<(Seq<InputV>, int, int), crate::error::Error>::Err(
            crate::error::Error::ExcessSignatures,
        ),
{
    lemma_sign_done_go(inputs, xpub, sigs, 0, 0, 0);
}

/// Determinism of transaction assembly: `tx`'s contract pins both the
/// transaction and the size estimate to functions of the checkpoint
/// alone, so any two results for one checkpoint are identical.
pub proof fn lemma_tx_deterministic(c: CheckpointV, t1: TxV, e1: u64, t2: TxV, e2: u64)
    requires
        t1 == cp_txv(c),
        e1 == spec_est_vsize(c),
        t2 == cp_txv(c),
        e2 == spec_est_vsize(c),
    ensures
        t1 == t2,
        e1 == e2,
{
}

} // verus!
