use vstd::prelude::*;
use crate::btc::txid_of;
use crate::checkpoint::{
    Checkpoint, CheckpointStatus, CheckpointV, cp_txv, count_done, null_dest, spec_advance,
    spec_new_input, spec_sign, spec_to_sign, all_keys_derive,
};
use crate::error::Error;
use crate::sigset::{
    SignatorySet, SigsetV, ValidatorEntry, ValidatorEntryV, Xpub, from_validator_ctx,
    spec_from_validator_ctx,
};
use crate::tx::Tx;
use crate::util::views_of;

verus! {

/// Seconds that must pass after a checkpoint's roster is frozen before
/// the next checkpoint may be produced.
pub const CHECKPOINT_INTERVAL: u64 = 600;

/// Whether a status may follow another in a checkpoint's life.
pub open spec fn status_le(a: CheckpointStatus, b: CheckpointStatus) -> bool {
    match (a, b) {
        (CheckpointStatus::Building, _) => true,
        (CheckpointStatus::Signing, CheckpointStatus::Building) => false,
        (CheckpointStatus::Signing, _) => true,
        (CheckpointStatus::Complete, CheckpointStatus::Complete) => true,
        (CheckpointStatus::Complete, _) => false,
    }
}

/// The ordered queue of checkpoints, oldest first, and the logical index
/// of the newest.
#[derive(Debug)]
pub struct CheckpointQueue {
    pub queue: Vec<Checkpoint>,
    pub index: u32,
}

/// Mathematical image of a `CheckpointQueue`.
#[verifier::ext_equal]
pub ghost struct QueueV {
    pub checkpoints: Seq<CheckpointV>,
    pub index: u32,
}

impl View for CheckpointQueue {
    type V = QueueV;

    open spec fn view(&self) -> QueueV {
        QueueV {
            checkpoints: self.queue@.map_values(|c: Checkpoint| c@),
            index: self.index,
        }
    }
}

/// The logical index of the queue's oldest checkpoint.
pub open spec fn start_index(q: QueueV) -> int {
    q.index + 1 - q.checkpoints.len()
}

/// How many checkpoints the fully Complete prefix holds, oldest first.
pub open spec fn completed_len(s: Seq<CheckpointV>) -> int
    decreases s.len(),
{
    if s.len() == 0 || s[0].status != CheckpointStatus::Complete {
        0
    } else {
        1 + completed_len(s.drop_first())
    }
}

/// A run of Complete checkpoints stopped by a non-Complete one, or by
/// the end, is the Complete prefix.
proof fn lemma_completed_len(s: Seq<CheckpointV>, k: int)
    requires
        0 <= k <= s.len(),
        forall|i: int| 0 <= i < k ==> (#[trigger] s[i]).status == CheckpointStatus::Complete,
        k < s.len() ==> s[k].status != CheckpointStatus::Complete,
    ensures
        completed_len(s) == k,
    decreases s.len(),
{
    if k > 0 {
        assert(s[0].status == CheckpointStatus::Complete);
        let t = s.drop_first();
        assert forall|i: int|
            0 <= i < k - 1 implies (#[trigger] t[i]).status == CheckpointStatus::Complete by {
            assert(s[i + 1].status == CheckpointStatus::Complete);
        }
        if k - 1 < t.len() {
            assert(t[k - 1] == s[k]);
        }
        lemma_completed_len(t, k - 1);
    }
}

/// Whether a Signing checkpoint exists: only ever the second-newest.
pub open spec fn has_signing(q: QueueV) -> bool {
    q.checkpoints.len() >= 2 && q.checkpoints[q.checkpoints.len() - 2].status
        == CheckpointStatus::Signing
}

impl QueueV {
    /// Well-formedness: every checkpoint is well formed; the newest is
    /// Building, the one before it is no longer Building, everything
    /// older is Complete; logical indices fit; and every checkpoint's
    /// first input spends its predecessor's reserve output.
    pub open spec fn wf(self) -> bool {
        &&& self.checkpoints.len() <= self.index + 1
        &&& self.checkpoints.len() == 0 ==> self.index == 0
        &&& forall|i: int|
            0 <= i < self.checkpoints.len() ==> (#[trigger] self.checkpoints[i]).wf()
        &&& self.checkpoints.len() > 0 ==> self.checkpoints.last().status
            == CheckpointStatus::Building
        &&& self.checkpoints.len() >= 2 ==> self.checkpoints[self.checkpoints.len() - 2].status
            != CheckpointStatus::Building
        &&& forall|i: int|
            0 <= i < self.checkpoints.len() - 2 ==> (#[trigger] self.checkpoints[i]).status
                == CheckpointStatus::Complete
        &&& forall|i: int|
            0 <= i < self.checkpoints.len() - 1 ==> {
                let older = self.checkpoints[i];
                let newer = #[trigger] self.checkpoints[i + 1];
                &&& newer.inputs.len() >= 1
                &&& older.outputs.len() >= 1
                &&& newer.inputs[0].prevout_txid == txid_of(cp_txv(older))
                &&& newer.inputs[0].prevout_vout == 0
                &&& newer.inputs[0].amount == older.outputs[0].value
            }
    }
}

/// Whether the newest checkpoint is old enough and has anything to
/// settle: a deposit beyond the chained reserve input, or a withdrawal.
pub open spec fn has_pending_work(q: QueueV, now: u64) -> bool {
    let b = q.checkpoints.last();
    &&& now >= b.sigset.create_time + CHECKPOINT_INTERVAL
    &&& ({
        ||| (if q.index == 0 {
            b.inputs.len() > 0
        } else {
            b.inputs.len() > 1
        })
        ||| b.outputs.len() > 0
    })
}

/// Whether a roster can sign at all: someone could sign, and the signers
/// with keys can reach the quorum.
pub open spec fn sigset_viable(s: SigsetV) -> bool {
    s.possible_vp > 0 && s.present_vp >= s.threshold
}

/// What one scheduler tick does. A tick waits while a Signing checkpoint
/// exists, while the newest checkpoint is too young or idle, and while no
/// viable roster can be frozen. Otherwise it pushes a fresh Building
/// checkpoint and, where a predecessor exists, advances it to Signing and
/// chains its reserve into the fresh checkpoint's first input.
pub open spec fn spec_maybe_step(
    q: QueueV,
    entries: Seq<ValidatorEntryV>,
    now: u64,
) -> Result<QueueV, Error> {
    if has_signing(q) {
        Result::Ok(q)
    } else if q.checkpoints.len() > 0 && !has_pending_work(q, now) {
        Result::Ok(q)
    } else if q.checkpoints.len() > 0 && q.index == u32::MAX {
        Result::Err(Error::Overflow)
    } else {
        let newi: u32 = if q.checkpoints.len() == 0 {
            q.index
        } else {
            (q.index + 1) as u32
        };
        match spec_from_validator_ctx(newi, entries, now) {
            Result::Err(e) => Result::Err(e),
            Result::Ok(cs) => if !sigset_viable(cs) {
                Result::Ok(q)
            } else {
                let fresh = CheckpointV {
                    status: CheckpointStatus::Building,
                    inputs: Seq::empty(),
                    signed_inputs: 0,
                    outputs: Seq::empty(),
                    sigset: cs,
                };
                if q.checkpoints.len() == 0 {
                    Result::Ok(QueueV { checkpoints: seq![fresh], index: newi })
                } else {
                    match spec_advance(q.checkpoints.last()) {
                        Result::Err(e) => Result::Err(e),
                        Result::Ok(badv) => {
                            let chained = CheckpointV {
                                inputs: seq![
                                    spec_new_input(
                                        badv.sigset,
                                        txid_of(cp_txv(badv)),
                                        0,
                                        Seq::new(20, |i: int| 0u8),
                                        badv.outputs[0].value,
                                    ),
                                ],
                                ..fresh
                            };
                            Result::Ok(
                                QueueV {
                                    checkpoints: q.checkpoints.update(
                                        q.checkpoints.len() - 1,
                                        badv,
                                    ) + seq![chained],
                                    index: newi,
                                },
                            )
                        },
                    }
                }
            },
        }
    }
}

/// What one signer's submission does to the queue: it is applied to the
/// Signing checkpoint, which advances to Complete once every input is
/// fully signed; without a Signing checkpoint the call is refused.
pub open spec fn spec_queue_sign(
    q: QueueV,
    xpub: Seq<u8>,
    sigs: Seq<Seq<u8>>,
) -> Result<QueueV, Error> {
    if !has_signing(q) {
        Result::Err(Error::WrongCheckpointStatus)
    } else {
        let pos = q.checkpoints.len() - 2;
        let scp = q.checkpoints[pos];
        match spec_sign(scp.inputs, xpub, sigs) {
            Result::Err(e) => Result::Err(e),
            Result::Ok(p) => {
                let scp2 = CheckpointV {
                    inputs: p.0,
                    signed_inputs: count_done(p.0) as u16,
                    status: if count_done(p.0) == p.0.len() {
                        CheckpointStatus::Complete
                    } else {
                        CheckpointStatus::Signing
                    },
                    ..scp
                };
                Result::Ok(QueueV { checkpoints: q.checkpoints.update(pos, scp2), ..q })
            },
        }
    }
}

impl CheckpointQueue {
    /// An empty queue.
    pub fn new() -> (r: CheckpointQueue)
        ensures
            r@.checkpoints == Seq::<CheckpointV>::empty(),
            r@.index == 0,
            r@.wf(),
    {
        let r = CheckpointQueue { queue: Vec::new(), index: 0 };
        proof {
            assert(r@.checkpoints =~= Seq::<CheckpointV>::empty());
        }
        r
    }

    /// The logical index of the newest checkpoint.
    pub fn index(&self) -> (r: u32)
        ensures
            r == self@.index,
    {
        self.index
    }

    /// The physical slot a logical index addresses.
    fn get_deque_index(&self, index: u32) -> (r: Result<u32, Error>)
        requires
            self@.wf(),
        ensures
            r matches Ok(d) ==> start_index(self@) <= index <= self@.index && d == index
                - start_index(self@) && d < self@.checkpoints.len(),
            r is Err <==> !(start_index(self@) <= index <= self@.index),
            r is Err ==> r == Result::<u32, Error>::Err(Error::IndexOutOfBounds),
    {
        if self.queue.len() == 0 {
            return Result::Err(Error::IndexOutOfBounds);
        }
        let lm1 = self.queue.len() - 1;
        proof {
            assert(lm1 <= self@.index);
        }
        let start = self.index - (lm1 as u32);
        if index > self.index || index < start {
            Result::Err(Error::IndexOutOfBounds)
        } else {
            Result::Ok(index - start)
        }
    }

    /// The checkpoint at a logical index.
    pub fn get(&self, index: u32) -> (r: Result<&Checkpoint, Error>)
        requires
            self@.wf(),
        ensures
            r matches Ok(cp) ==> start_index(self@) <= index <= self@.index && cp@
                == self@.checkpoints[index - start_index(self@)],
            r is Err <==> !(start_index(self@) <= index <= self@.index),
            r is Err ==> r == Result::<&Checkpoint, Error>::Err(Error::IndexOutOfBounds),
    {
        match self.get_deque_index(index) {
            Result::Err(e) => Result::Err(e),
            Result::Ok(d) => Result::Ok(&self.queue[d as usize]),
        }
    }

    /// Every checkpoint, newest first, with its logical index.
    pub fn all(&self) -> (r: Vec<(u32, &Checkpoint)>)
        requires
            self@.wf(),
        ensures
            r@.len() == self@.checkpoints.len(),
            forall|k: int|
                0 <= k < r@.len() ==> (#[trigger] r@[k]).0 == self@.index - k && r@[k].1@
                    == self@.checkpoints[self@.checkpoints.len() - 1 - k],
    {
        let mut out: Vec<(u32, &Checkpoint)> = Vec::new();
        let n = self.queue.len();
        let mut i: usize = 0;
        while i < n
            invariant
                n == self.queue@.len(),
                n <= self@.index + 1,
                i <= n,
                out@.len() == i,
                forall|k: int|
                    0 <= k < i ==> (#[trigger] out@[k]).0 == self@.index - k && out@[k].1@
                        == self@.checkpoints[n - 1 - k],
            decreases n - i,
        {
            let logical = self.index - (i as u32);
            out.push((logical, &self.queue[n - 1 - i]));
            i += 1;
        }
        out
    }

    /// The longest prefix of fully Complete checkpoints, oldest first.
    pub fn completed(&self) -> (r: Vec<&Checkpoint>)
        requires
            self@.wf(),
        ensures
            r@.len() == completed_len(self@.checkpoints),
            r@.len() <= self@.checkpoints.len(),
            forall|k: int|
                0 <= k < r@.len() ==> (#[trigger] r@[k])@ == self@.checkpoints[k]
                    && self@.checkpoints[k].status == CheckpointStatus::Complete,
            r@.len() < self@.checkpoints.len() ==> self@.checkpoints[r@.len() as int].status
                != CheckpointStatus::Complete,
    {
        let mut out: Vec<&Checkpoint> = Vec::new();
        let n = self.queue.len();
        let mut i: usize = 0;
        while i < n
            invariant
                n == self.queue@.len(),
                i <= n,
                out@.len() == i,
                forall|k: int| 0 <= k < i ==> (#[trigger] out@[k])@ == self@.checkpoints[k],
                forall|k: int|
                    0 <= k < i ==> (#[trigger] self@.checkpoints[k]).status
                        == CheckpointStatus::Complete,
            decreases n - i,
        {
            let cp = &self.queue[i];
            match cp.status {
                CheckpointStatus::Complete => {},
                _ => {
                    proof {
                        lemma_completed_len(self@.checkpoints, i as int);
                    }
                    return out;
                },
            }
            out.push(cp);
            proof {
                assert(out@[i as int]@ == self@.checkpoints[i as int]);
                assert(self@.checkpoints[i as int].status == CheckpointStatus::Complete);
            }
            i += 1;
        }
        proof {
            lemma_completed_len(self@.checkpoints, n as int);
        }
        out
    }

    /// The transactions of the Complete prefix, oldest first.
    pub fn completed_txs(&self) -> (r: Result<Vec<Tx>, Error>)
        requires
            self@.wf(),
        ensures
            r is Ok <==> (forall|k: int|
                0 <= k < completed_len(self@.checkpoints) ==> crate::checkpoint::spec_est_vsize(
                    #[trigger] self@.checkpoints[k],
                ) <= u64::MAX),
            r matches Ok(v) ==> v@.len() == completed_len(self@.checkpoints) && (forall|k: int|
                0 <= k < v@.len() ==> (#[trigger] v@[k])@ == cp_txv(self@.checkpoints[k])),
            r is Err ==> r == Result::<Vec<Tx>, Error>::Err(Error::Overflow),
    {
        let done = self.completed();
        let mut out: Vec<Tx> = Vec::new();
        let mut i: usize = 0;
        while i < done.len()
            invariant
                i <= done@.len(),
                done@.len() == completed_len(self@.checkpoints),
                done@.len() <= self@.checkpoints.len(),
                forall|k: int|
                    0 <= k < done@.len() ==> (#[trigger] done@[k])@ == self@.checkpoints[k],
                self@.wf(),
                out@.len() == i,
                forall|k: int|
                    0 <= k < i ==> (#[trigger] out@[k])@ == cp_txv(self@.checkpoints[k]),
                forall|k: int|
                    0 <= k < i ==> crate::checkpoint::spec_est_vsize(
                        #[trigger] self@.checkpoints[k],
                    ) <= u64::MAX,
            decreases done@.len() - i,
        {
            proof {
                assert(self@.checkpoints[i as int].wf());
            }
            match done[i].tx() {
                Result::Ok(p) => {
                    out.push(p.0);
                },
                Result::Err(e) => {
                    proof {
                        assert(crate::checkpoint::spec_est_vsize(self@.checkpoints[i as int])
                            > u64::MAX);
                    }
                    return Result::Err(Error::Overflow);
                },
            }
            i += 1;
        }
        Result::Ok(out)
    }

    /// The Signing checkpoint, if one exists: only ever the second-newest.
    pub fn signing(&self) -> (r: Option<&Checkpoint>)
        requires
            self@.wf(),
        ensures
            r is Some <==> has_signing(self@),
            r matches Some(cp) ==> cp@ == self@.checkpoints[self@.checkpoints.len() - 2],
    {
        if self.queue.len() < 2 {
            return Option::None;
        }
        let cp = &self.queue[self.queue.len() - 2];
        match cp.status {
            CheckpointStatus::Signing => Option::Some(cp),
            _ => Option::None,
        }
    }

    /// The newest checkpoint, which is always the Building one; refused
    /// on an empty queue.
    pub fn building(&self) -> (r: Result<&Checkpoint, Error>)
        requires
            self@.wf(),
        ensures
            r is Ok <==> self@.checkpoints.len() > 0,
            r matches Ok(cp) ==> cp@ == self@.checkpoints.last() && cp@.status
                == CheckpointStatus::Building,
            r is Err ==> r == Result::<&Checkpoint, Error>::Err(Error::IndexOutOfBounds),
    {
        if self.queue.len() == 0 {
            return Result::Err(Error::IndexOutOfBounds);
        }
        Result::Ok(&self.queue[self.queue.len() - 1])
    }

    /// A copy of the newest checkpoint's roster.
    pub fn active_sigset(&self) -> (r: Result<SignatorySet, Error>)
        requires
            self@.wf(),
        ensures
            r is Ok <==> self@.checkpoints.len() > 0,
            r matches Ok(s) ==> s@ == self@.checkpoints.last().sigset,
            r is Err ==> r == Result::<SignatorySet, Error>::Err(Error::IndexOutOfBounds),
    {
        match self.building() {
            Result::Err(e) => Result::Err(e),
            Result::Ok(cp) => Result::Ok(cp.sigset.duplicate()),
        }
    }

    /// A copy of the roster frozen at a logical index.
    pub fn sigset(&self, index: u32) -> (r: Result<SignatorySet, Error>)
        requires
            self@.wf(),
        ensures
            r matches Ok(s) ==> start_index(self@) <= index <= self@.index && s@
                == self@.checkpoints[index - start_index(self@)].sigset,
            r is Err <==> !(start_index(self@) <= index <= self@.index),
            r is Err ==> r == Result::<SignatorySet, Error>::Err(Error::IndexOutOfBounds),
    {
        match self.get(index) {
            Result::Err(e) => Result::Err(e),
            Result::Ok(cp) => Result::Ok(cp.sigset.duplicate()),
        }
    }

    /// What the signer holding `xpub` still has to sign on the Signing
    /// checkpoint; refused while no checkpoint is Signing.
    pub fn to_sign(&self, xpub: &Xpub) -> (r: Result<Vec<([u8; 32], u32)>, Error>)
        requires
            self@.wf(),
        ensures
            !has_signing(self@) ==> r == Result::<Vec<([u8; 32], u32)>, Error>::Err(
                Error::WrongCheckpointStatus,
            ),
            has_signing(self@) ==> {
                let scp = self@.checkpoints[self@.checkpoints.len() - 2];
                &&& (r is Ok <==> crate::sigset::xpub_depth_ok(xpub@) && all_keys_derive(
                    scp.inputs,
                    xpub@,
                ))
                &&& (r matches Ok(v) ==> {
                    let s = spec_to_sign(scp.inputs, xpub@);
                    &&& v@.len() == s.len()
                    &&& forall|k: int| 0 <= k < s.len() ==> (#[trigger] v@[k]).0@ == s[k].0
                        && v@[k].1 == s[k].1
                })
                &&& (r is Err ==> r == Result::<Vec<([u8; 32], u32)>, Error>::Err(
                    Error::Bip32Derivation,
                ))
            },
    {
        match self.signing() {
            Option::None => Result::Err(Error::WrongCheckpointStatus),
            Option::Some(cp) => cp.to_sign(xpub),
        }
    }

    /// Appends a deposit input to the Building checkpoint; see
    /// `Checkpoint::push_input`.
    pub fn push_input(
        &mut self,
        prevout_txid: [u8; 32],
        prevout_vout: u32,
        sigset: &SignatorySet,
        dest: [u8; 20],
        amount: u64,
    ) -> (r: Result<(), Error>)
        requires
            old(self)@.wf(),
            sigset@.wf(),
        ensures
            old(self)@.checkpoints.len() == 0 ==> r == Result::<(), Error>::Err(
                Error::IndexOutOfBounds,
            ) && final(self)@ == old(self)@,
            old(self)@.checkpoints.len() > 0 ==> {
                let b = old(self)@.checkpoints.last();
                &&& (r is Ok <==> b.inputs.len() < crate::checkpoint::MAX_INPUTS
                    && crate::checkpoint::in_sum(b.inputs) + amount <= u64::MAX)
                &&& (r matches Ok(u) ==> final(self)@ == (QueueV {
                    checkpoints: old(self)@.checkpoints.update(
                        old(self)@.checkpoints.len() - 1,
                        CheckpointV {
                            inputs: b.inputs + seq![
                                spec_new_input(sigset@, prevout_txid@, prevout_vout, dest@, amount),
                            ],
                            ..b
                        },
                    ),
                    ..old(self)@
                }) && final(self)@.wf())
                &&& (r is Err ==> final(self)@ == old(self)@)
            },
    {
        let n = self.queue.len();
        if n == 0 {
            return Result::Err(Error::IndexOutOfBounds);
        }
        let ghost q0 = self@;
        let cp = &mut self.queue[n - 1];
        let r = cp.push_input(prevout_txid, prevout_vout, sigset, dest, amount);
        proof {
            if r is Err {
                assert(self@.checkpoints =~~= q0.checkpoints);
                assert(self@ =~~= q0);
            } else {
                assert(self@.checkpoints =~~= q0.checkpoints.update(
                    q0.checkpoints.len() - 1,
                    self@.checkpoints.last(),
                ));
                assert forall|i: int| 0 <= i < self@.checkpoints.len() implies (
                    #[trigger] self@.checkpoints[i]).wf() by {
                    assert(q0.checkpoints[i].wf());
                }
                if q0.checkpoints.len() >= 2 {
                    let i = q0.checkpoints.len() - 2;
                    assert(q0.checkpoints[i + 1].inputs.len() >= 1);
                    assert(q0.checkpoints.last() == q0.checkpoints[i + 1]);
                }
                assert(self@.wf());
            }
        }
        r
    }

    /// Appends a withdrawal output to the Building checkpoint; see
    /// `Checkpoint::push_output`.
    pub fn push_output(&mut self, output: crate::tx::TxOut) -> (r: Result<(), Error>)
        requires
            old(self)@.wf(),
        ensures
            old(self)@.checkpoints.len() == 0 ==> r == Result::<(), Error>::Err(
                Error::IndexOutOfBounds,
            ) && final(self)@ == old(self)@,
            old(self)@.checkpoints.len() > 0 ==> {
                let b = old(self)@.checkpoints.last();
                &&& (r is Ok <==> b.outputs.len() + 2 <= crate::checkpoint::MAX_OUTPUTS
                    && crate::checkpoint::out_sum(b.outputs) + output.value <= u64::MAX)
                &&& (r matches Ok(u) ==> final(self)@ == (QueueV {
                    checkpoints: old(self)@.checkpoints.update(
                        old(self)@.checkpoints.len() - 1,
                        CheckpointV { outputs: b.outputs + seq![output@], ..b },
                    ),
                    ..old(self)@
                }) && final(self)@.wf())
                &&& (r is Err ==> final(self)@ == old(self)@)
            },
    {
        let n = self.queue.len();
        if n == 0 {
            return Result::Err(Error::IndexOutOfBounds);
        }
        let ghost q0 = self@;
        let ghost ov = output@;
        let cp = &mut self.queue[n - 1];
        let r = cp.push_output(output);
        proof {
            if r is Err {
                assert(self@.checkpoints =~~= q0.checkpoints);
                assert(self@ =~~= q0);
            } else {
                assert(self@.checkpoints =~~= q0.checkpoints.update(
                    q0.checkpoints.len() - 1,
                    self@.checkpoints.last(),
                ));
                assert forall|i: int| 0 <= i < self@.checkpoints.len() implies (
                    #[trigger] self@.checkpoints[i]).wf() by {
                    assert(q0.checkpoints[i].wf());
                }
                if q0.checkpoints.len() >= 2 {
                    let i = q0.checkpoints.len() - 2;
                    assert(q0.checkpoints[i + 1].inputs.len() >= 1);
                    assert(q0.checkpoints.last() == q0.checkpoints[i + 1]);
                }
                assert(self@.wf());
            }
        }
        r
    }

    /// Applies one signer's batch to the Signing checkpoint; once every
    /// input is fully signed the checkpoint advances to Complete. All or
    /// nothing: a refused batch leaves the queue unchanged.
    pub fn sign(&mut self, xpub: &Xpub, sigs: &Vec<Vec<u8>>) -> (r: Result<(), Error>)
        requires
            old(self)@.wf(),
        ensures
            r is Ok <==> spec_queue_sign(old(self)@, xpub@, views_of(sigs@)) is Ok,
            r matches Ok(u) ==> spec_queue_sign(old(self)@, xpub@, views_of(sigs@)) matches Ok(q2)
                && final(self)@ == q2 && final(self)@.wf(),
            r matches Err(e) ==> spec_queue_sign(old(self)@, xpub@, views_of(sigs@))
                == Result::<QueueV, Error>::Err(e) && final(self)@ == old(self)@,
            final(self)@.checkpoints.len() == old(self)@.checkpoints.len() && forall|i: int|
                0 <= i < old(self)@.checkpoints.len() ==> status_le(
                    (#[trigger] old(self)@.checkpoints[i]).status,
                    final(self)@.checkpoints[i].status,
                ),
    {
        let n = self.queue.len();
        if n < 2 {
            return Result::Err(Error::WrongCheckpointStatus);
        }
        let pos = n - 2;
        let second_signing = match self.queue[pos].status {
            CheckpointStatus::Signing => true,
            _ => false,
        };
        if !second_signing {
            return Result::Err(Error::WrongCheckpointStatus);
        }
        let ghost q0 = self@;
        let ghost scp = self@.checkpoints[pos as int];
        let cp = &mut self.queue[pos];
        let res = cp.sign(xpub, sigs);
        let r: Result<(), Error>;
        match res {
            Result::Err(e) => {
                r = Result::Err(e);
            },
            Result::Ok(u) => {
                if cp.done() {
                    cp.advance_signing();
                }
                r = Result::Ok(());
            },
        }
        proof {
            if r is Err {
                assert(self@.checkpoints =~~= q0.checkpoints);
                assert(self@ =~~= q0);
            } else {
                let p = spec_sign(scp.inputs, xpub@, views_of(sigs@)).unwrap();
                let scp2 = CheckpointV {
                    inputs: p.0,
                    signed_inputs: count_done(p.0) as u16,
                    status: if count_done(p.0) == p.0.len() {
                        CheckpointStatus::Complete
                    } else {
                        CheckpointStatus::Signing
                    },
                    ..scp
                };
                assert(self@.checkpoints[pos as int] =~~= scp2);
                assert(self@.checkpoints =~~= q0.checkpoints.update(pos as int, scp2));
                assert(self@ =~~= (QueueV {
                    checkpoints: q0.checkpoints.update(pos as int, scp2),
                    ..q0
                }));
                assert forall|i: int| 0 <= i < self@.checkpoints.len() implies (
                    #[trigger] self@.checkpoints[i]).wf() by {
                    assert(q0.checkpoints[i].wf());
                }
                assert(cp_txv(scp2) == cp_txv(scp));
                assert forall|i: int| 0 <= i < self@.checkpoints.len() - 1 implies {
                    let older = self@.checkpoints[i];
                    let newer = #[trigger] self@.checkpoints[i + 1];
                    &&& newer.inputs.len() >= 1
                    &&& older.outputs.len() >= 1
                    &&& newer.inputs[0].prevout_txid == txid_of(cp_txv(older))
                    &&& newer.inputs[0].prevout_vout == 0
                    &&& newer.inputs[0].amount == older.outputs[0].value
                } by {
                    assert(q0.checkpoints[i + 1].inputs.len() >= 1);
                    assert(q0.checkpoints[i].outputs.len() >= 1);
                    if i + 1 == pos {
                        assert(cp_txv(scp2).inputs[0] == cp_txv(scp).inputs[0]);
                        assert(scp2.inputs[0].prevout_txid == scp.inputs[0].prevout_txid);
                        assert(scp2.inputs[0].prevout_vout == scp.inputs[0].prevout_vout);
                    }
                    if i == pos {
                        assert(txid_of(cp_txv(scp2)) == txid_of(cp_txv(scp)));
                    }
                }
                assert(self@.wf());
            }
        }
        r
    }

    /// One scheduler tick; see `spec_maybe_step`. Pure in the queue, the
    /// validator context and the clock reading, and all or nothing: a
    /// failed tick leaves the queue unchanged.
    pub fn maybe_step(&mut self, entries: &Vec<ValidatorEntry>, now: u64) -> (r: Result<
        (),
        Error,
    >)
        requires
            old(self)@.wf(),
        ensures
            ({
                let ev = entries@.map_values(|e: ValidatorEntry| e@);
                &&& (r matches Ok(u) ==> spec_maybe_step(old(self)@, ev, now) matches Ok(q2)
                    && final(self)@ == q2 && final(self)@.wf())
                &&& (r matches Err(e) ==> spec_maybe_step(old(self)@, ev, now)
                    == Result::<QueueV, Error>::Err(e) && final(self)@ == old(self)@)
            }),
            final(self)@.checkpoints.len() >= old(self)@.checkpoints.len() && forall|i: int|
                0 <= i < old(self)@.checkpoints.len() ==> status_le(
                    (#[trigger] old(self)@.checkpoints[i]).status,
                    final(self)@.checkpoints[i].status,
                ),
    {
        let ghost q0 = self@;
        let ghost ev = entries@.map_values(|e: ValidatorEntry| e@);
        let n = self.queue.len();
        // A Signing checkpoint first collects its signatures.
        if n >= 2 {
            let second_signing = match self.queue[n - 2].status {
                CheckpointStatus::Signing => true,
                _ => false,
            };
            if second_signing {
                return Result::Ok(());
            }
        }
        // A young or idle Building checkpoint waits.
        if n > 0 {
            let b = &self.queue[n - 1];
            let ct = b.create_time();
            if now < ct || now - ct < CHECKPOINT_INTERVAL {
                return Result::Ok(());
            }
            let pending_deposit = if self.index == 0 {
                b.inputs.len() > 0
            } else {
                b.inputs.len() > 1
            };
            let pending_withdrawal = b.outputs.len() > 0;
            if !pending_deposit && !pending_withdrawal {
                return Result::Ok(());
            }
        }
        let newi: u32;
        if n == 0 {
            newi = self.index;
        } else {
            if self.index == u32::MAX {
                return Result::Err(Error::Overflow);
            }
            newi = self.index + 1;
        }
        // Freeze the next roster; without a viable one, wait.
        let cs = match from_validator_ctx(newi, entries, now) {
            Result::Err(e) => {
                return Result::Err(e);
            },
            Result::Ok(cs) => cs,
        };
        if cs.possible_vp() == 0 || !cs.has_quorum() {
            return Result::Ok(());
        }
        if n == 0 {
            self.index = newi;
            self.queue.push(Checkpoint::new(cs));
            proof {
                assert(self@.checkpoints =~= q0.checkpoints + seq![self@.checkpoints.last()]);
                assert(spec_maybe_step(q0, ev, now) matches Ok(q2) && self@ =~~= q2);
                assert(self@.wf());
            }
            return Result::Ok(());
        }
        // Advance the predecessor and chain its reserve forward.
        let pred_sigset = self.queue[n - 1].sigset.duplicate();
        let ghost b0 = q0.checkpoints.last();
        let txid: [u8; 32];
        {
            let cp = &mut self.queue[n - 1];
            let adv = cp.advance_building();
            match adv {
                Result::Err(e) => {
                    proof {
                        assert(self@.checkpoints =~~= q0.checkpoints);
                        assert(self@ =~~= q0);
                    }
                    return Result::Err(e);
                },
                Result::Ok(t) => {
                    txid = t;
                },
            }
        }
        let ghost badv = spec_advance(b0).unwrap();
        proof {
            assert(self@.checkpoints =~~= q0.checkpoints.update(q0.checkpoints.len() - 1, badv));
            assert(badv.outputs.len() >= 1);
        }
        let reserve = self.queue[n - 1].outputs[0].value;
        let mut fresh = Checkpoint::new(cs);
        let pr = fresh.push_input(txid, 0, &pred_sigset, null_dest(), reserve);
        proof {
            assert(crate::checkpoint::in_sum(Seq::<crate::checkpoint::InputV>::empty()) == 0);
            assert(pr is Ok);
        }
        if pr.is_err() {
            proof {
                assert(false);
            }
            return Result::Err(Error::Overflow);
        }
        self.index = newi;
        self.queue.push(fresh);
        proof {
            let q2 = spec_maybe_step(q0, ev, now).unwrap();
            assert(self@.checkpoints =~~= q0.checkpoints.update(q0.checkpoints.len() - 1, badv)
                + seq![self@.checkpoints.last()]);
            assert(self@.checkpoints.last() =~~= q2.checkpoints.last());
            assert(self@ =~~= q2);
            // Well-formedness of the stepped queue.
            let m = self@.checkpoints.len();
            assert(m == q0.checkpoints.len() + 1);
            assert forall|i: int| 0 <= i < m implies (#[trigger] self@.checkpoints[i]).wf() by {
                if i < m - 2 {
                    assert(q0.checkpoints[i].wf());
                } else if i == m - 2 {
                    assert(self@.checkpoints[i] == badv);
                }
            }
            assert forall|i: int| 0 <= i < m - 2 implies (#[trigger] self@.checkpoints[i]).status
                == CheckpointStatus::Complete by {
                if i < m - 3 {
                    assert(q0.checkpoints[i].status == CheckpointStatus::Complete);
                } else {
                    assert(q0.checkpoints[i].status != CheckpointStatus::Building ==> q0.checkpoints[
                        i
                    ].status == CheckpointStatus::Complete || q0.checkpoints[i].status
                        == CheckpointStatus::Signing);
                }
            }
            assert forall|i: int| 0 <= i < m - 1 implies {
                let older = self@.checkpoints[i];
                let newer = #[trigger] self@.checkpoints[i + 1];
                &&& newer.inputs.len() >= 1
                &&& older.outputs.len() >= 1
                &&& newer.inputs[0].prevout_txid == txid_of(cp_txv(older))
                &&& newer.inputs[0].prevout_vout == 0
                &&& newer.inputs[0].amount == older.outputs[0].value
            } by {
                if i + 1 < m - 1 {
                    assert(q0.checkpoints[i + 1].inputs.len() >= 1);
                    assert(q0.checkpoints[i].outputs.len() >= 1);
                    if i + 1 == m - 2 {
                        assert(badv.inputs[0].prevout_txid == b0.inputs[0].prevout_txid);
                        assert(badv.inputs[0].prevout_vout == b0.inputs[0].prevout_vout);
                        assert(badv.inputs[0].amount == b0.inputs[0].amount);
                    }
                }
            }
            assert(self@.wf());
        }
        Result::Ok(())
    }
}

} // verus!
