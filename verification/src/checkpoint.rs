use vstd::prelude::*;
use crate::btc::{derive_pubkey, derived_pubkey_of, sig_valid_of, sighash_of, tx_size_of, tx_size, tx_sighash};
use crate::error::Error;
use crate::sigset::{SignatorySet, SigsetV, Xpub, spec_output_script, spec_redeem_script};
use crate::threshold::{
    ThresholdSig, ThresholdSigV, spec_from_sigset, spec_record, spec_witness, ts_contains,
    ts_done, ts_est_vsize, ts_needs_sig, ts_signed_by,
};
use crate::tx::{Tx, TxIn, TxInV, TxOut, TxOutV, TxV, witnesses_of};
use crate::util::{clone_bytes, views_of};

verus! {

/// Inputs a checkpoint may carry at most.
pub const MAX_INPUTS: u64 = 50;

/// Outputs a checkpoint may carry at most, the reserve output included.
pub const MAX_OUTPUTS: u64 = 200;

/// Satoshis of fee per estimated virtual byte.
pub const FEE_RATE: u64 = 10;


/// The all-zero destination the reserve output is bound to.
pub fn null_dest() -> (r: [u8; 20])
    ensures
        r@ == Seq::new(20, |i: int| 0u8),
{
    let r = [0u8; 20];
    proof {
        assert(r@ =~= Seq::new(20, |i: int| 0u8));
    }
    r
}

/// Phase of a checkpoint's lifecycle; it only ever moves forward.
#[derive(Clone, Copy, Debug, PartialEq, Eq, Structural)]
pub enum CheckpointStatus {
    Building,
    Signing,
    Complete,
}

impl Default for CheckpointStatus {
    /// A checkpoint starts out Building.
    fn default() -> (r: Self)
        ensures
            r == CheckpointStatus::Building,
    {
        CheckpointStatus::Building
    }
}

/// One spendable Bitcoin output a checkpoint will consume: where it is,
/// what scripts redeem it, which account it credits, how much it carries,
/// and the collector of the threshold signatures that will spend it.
#[derive(Debug)]
pub struct Input {
    pub prevout_txid: [u8; 32],
    pub prevout_vout: u32,
    pub script_pubkey: Vec<u8>,
    pub redeem_script: Vec<u8>,
    pub sigset_index: u32,
    pub dest: [u8; 20],
    pub amount: u64,
    pub sigs: ThresholdSig,
}

/// Mathematical image of an `Input`.
#[verifier::ext_equal]
pub ghost struct InputV {
    pub prevout_txid: Seq<u8>,
    pub prevout_vout: u32,
    pub script_pubkey: Seq<u8>,
    pub redeem_script: Seq<u8>,
    pub sigset_index: u32,
    pub dest: Seq<u8>,
    pub amount: u64,
    pub sigs: ThresholdSigV,
}

impl View for Input {
    type V = InputV;

    open spec fn view(&self) -> InputV {
        InputV {
            prevout_txid: self.prevout_txid@,
            prevout_vout: self.prevout_vout,
            script_pubkey: self.script_pubkey@,
            redeem_script: self.redeem_script@,
            sigset_index: self.sigset_index,
            dest: self.dest@,
            amount: self.amount,
            sigs: self.sigs@,
        }
    }
}

/// The witness-free transaction input an `Input` becomes.
pub open spec fn spec_txin(i: InputV) -> TxInV {
    TxInV {
        prevout_txid: i.prevout_txid,
        prevout_vout: i.prevout_vout,
        script_sig: Seq::empty(),
        sequence: 0xffffffffu32,
    }
}

/// The witness stack an `Input` carries: the collector's stack, and the
/// redeem script once the quorum is reached.
pub open spec fn spec_input_witness(i: InputV) -> Seq<Seq<u8>> {
    spec_witness(i.sigs) + if ts_done(i.sigs) {
        seq![i.redeem_script]
    } else {
        Seq::empty()
    }
}

/// The fresh input a deposit to `dest`, spending `(txid, vout)` of value
/// `amount`, adds under a signatory set.
pub open spec fn spec_new_input(
    s: SigsetV,
    txid: Seq<u8>,
    vout: u32,
    dest: Seq<u8>,
    amount: u64,
) -> InputV {
    InputV {
        prevout_txid: txid,
        prevout_vout: vout,
        script_pubkey: spec_output_script(s, dest),
        redeem_script: spec_redeem_script(s, dest),
        sigset_index: s.index,
        dest: dest,
        amount: amount,
        sigs: spec_from_sigset(s),
    }
}

impl Input {
    /// The transaction input this becomes, with its current witness.
    pub fn to_txin(&self) -> (r: TxIn)
        ensures
            r@ == spec_txin(self@),
            views_of(r.witness@) == spec_input_witness(self@),
    {
        let mut witness = self.sigs.to_witness();
        if self.sigs.done() {
            witness.push(clone_bytes(&self.redeem_script));
            proof {
                assert(views_of(witness@) =~~= spec_input_witness(self@));
            }
        } else {
            proof {
                assert(views_of(witness@) =~~= spec_input_witness(self@));
            }
        }
        TxIn {
            prevout_txid: self.prevout_txid,
            prevout_vout: self.prevout_vout,
            script_sig: Vec::new(),
            sequence: 0xffffffffu32,
            witness,
        }
    }
}

/// Inputs that are fully signed.
pub open spec fn count_done(inputs: Seq<InputV>) -> int
    decreases inputs.len(),
{
    if inputs.len() == 0 {
        0
    } else {
        count_done(inputs.drop_last()) + if ts_done(inputs.last().sigs) {
            1int
        } else {
            0int
        }
    }
}

/// Total value the inputs carry in.
pub open spec fn in_sum(inputs: Seq<InputV>) -> int
    decreases inputs.len(),
{
    if inputs.len() == 0 {
        0
    } else {
        in_sum(inputs.drop_last()) + inputs.last().amount
    }
}

/// Total value the outputs pay out.
pub open spec fn out_sum(outputs: Seq<TxOutV>) -> int
    decreases outputs.len(),
{
    if outputs.len() == 0 {
        0
    } else {
        out_sum(outputs.drop_last()) + outputs.last().value
    }
}

/// Total worst-case witness virtual size over the inputs.
pub open spec fn est_sum(inputs: Seq<InputV>) -> int
    decreases inputs.len(),
{
    if inputs.len() == 0 {
        0
    } else {
        est_sum(inputs.drop_last()) + ts_est_vsize(inputs.last().sigs)
    }
}

/// A batch of deposits and withdrawals on its way into one Bitcoin
/// transaction: its phase, its inputs and outputs, how many inputs are
/// fully signed, and the roster frozen for it.
#[derive(Debug)]
pub struct Checkpoint {
    pub status: CheckpointStatus,
    pub inputs: Vec<Input>,
    pub signed_inputs: u16,
    pub outputs: Vec<TxOut>,
    pub sigset: SignatorySet,
}

/// Mathematical image of a `Checkpoint`.
#[verifier::ext_equal]
pub ghost struct CheckpointV {
    pub status: CheckpointStatus,
    pub inputs: Seq<InputV>,
    pub signed_inputs: u16,
    pub outputs: Seq<TxOutV>,
    pub sigset: SigsetV,
}

impl View for Checkpoint {
    type V = CheckpointV;

    open spec fn view(&self) -> CheckpointV {
        CheckpointV {
            status: self.status,
            inputs: self.inputs@.map_values(|i: Input| i@),
            signed_inputs: self.signed_inputs,
            outputs: self.outputs@.map_values(|o: TxOut| o@),
            sigset: self.sigset@,
        }
    }
}

/// The witness-free transaction a checkpoint stands for.
pub open spec fn cp_txv(c: CheckpointV) -> TxV {
    TxV {
        version: 1,
        lock_time: 0,
        inputs: c.inputs.map_values(|i: InputV| spec_txin(i)),
        outputs: c.outputs,
    }
}

/// The witness stacks a checkpoint's transaction carries right now.
pub open spec fn cp_wits(c: CheckpointV) -> Seq<Seq<Seq<u8>>> {
    c.inputs.map_values(|i: InputV| spec_input_witness(i))
}

/// Estimated virtual size of the checkpoint's transaction: each input's
/// worst-case witness cost plus the serialized size.
pub open spec fn spec_est_vsize(c: CheckpointV) -> int {
    est_sum(c.inputs) + tx_size_of(cp_txv(c), cp_wits(c))
}

impl CheckpointV {
    /// The sighash input `i` is signed over once the body is frozen.
    pub open spec fn frozen_sighash(self, i: int) -> Seq<u8> {
        sighash_of(cp_txv(self), i, self.inputs[i].redeem_script, self.inputs[i].amount)
    }

    /// Well-formedness: the roster and every collector are coherent, the
    /// caps and sums hold, the signed counter counts the done inputs, and
    /// a frozen checkpoint's collectors hold exactly the frozen sighashes.
    pub open spec fn wf(self) -> bool {
        &&& self.sigset.wf()
        &&& self.inputs.len() <= MAX_INPUTS
        &&& forall|i: int| 0 <= i < self.inputs.len() ==> (#[trigger] self.inputs[i]).sigs.wf()
        &&& self.signed_inputs == count_done(self.inputs)
        &&& in_sum(self.inputs) <= u64::MAX
        &&& out_sum(self.outputs) <= u64::MAX
        &&& self.status == CheckpointStatus::Building ==> {
            &&& self.outputs.len() + 1 <= MAX_OUTPUTS
            &&& forall|i: int|
                0 <= i < self.inputs.len() ==> (#[trigger] self.inputs[i]).sigs.message is None
        }
        &&& self.status != CheckpointStatus::Building ==> {
            &&& 1 <= self.outputs.len() <= MAX_OUTPUTS
            &&& forall|i: int|
                0 <= i < self.inputs.len() ==> (#[trigger] self.inputs[i]).sigs.message
                    == Option::Some(self.frozen_sighash(i))
        }
    }
}

/// Sums only grow along a prefix of the inputs.
proof fn lemma_in_sum_mono(s: Seq<InputV>, k: int)
    requires
        0 <= k <= s.len(),
    ensures
        in_sum(s.take(k)) <= in_sum(s),
        0 <= in_sum(s.take(k)),
    decreases s.len() - k,
{
    lemma_in_sum_nonneg(s.take(k));
    if k < s.len() {
        assert(s.take(k + 1).drop_last() =~= s.take(k));
        lemma_in_sum_mono(s, k + 1);
    } else {
        assert(s.take(k) =~= s);
    }
}

/// Input sums are never negative.
pub proof fn lemma_in_sum_nonneg(s: Seq<InputV>)
    ensures
        0 <= in_sum(s),
    decreases s.len(),
{
    if s.len() != 0 {
        lemma_in_sum_nonneg(s.drop_last());
    }
}

/// Sums only grow along a prefix of the outputs.
proof fn lemma_out_sum_mono(s: Seq<TxOutV>, k: int)
    requires
        0 <= k <= s.len(),
    ensures
        out_sum(s.take(k)) <= out_sum(s),
        0 <= out_sum(s.take(k)),
    decreases s.len() - k,
{
    lemma_out_sum_nonneg(s.take(k));
    if k < s.len() {
        assert(s.take(k + 1).drop_last() =~= s.take(k));
        lemma_out_sum_mono(s, k + 1);
    } else {
        assert(s.take(k) =~= s);
    }
}

/// Output sums are never negative.
pub proof fn lemma_out_sum_nonneg(s: Seq<TxOutV>)
    ensures
        0 <= out_sum(s),
    decreases s.len(),
{
    if s.len() != 0 {
        lemma_out_sum_nonneg(s.drop_last());
    }
}

/// Witness estimates are never negative, and grow along a prefix.
proof fn lemma_est_sum_mono(s: Seq<InputV>, k: int)
    requires
        0 <= k <= s.len(),
    ensures
        est_sum(s.take(k)) <= est_sum(s),
        0 <= est_sum(s.take(k)),
    decreases s.len() - k,
{
    lemma_est_sum_nonneg(s.take(k));
    if k < s.len() {
        assert(s.take(k + 1).drop_last() =~= s.take(k));
        lemma_est_sum_mono(s, k + 1);
    } else {
        assert(s.take(k) =~= s);
    }
}

/// Witness estimates are never negative.
pub proof fn lemma_est_sum_nonneg(s: Seq<InputV>)
    ensures
        0 <= est_sum(s),
    decreases s.len(),
{
    if s.len() != 0 {
        lemma_est_sum_nonneg(s.drop_last());
    }
}

/// Total value carried by a vector of inputs.
fn sum_input_amounts(inputs: &Vec<Input>) -> (r: u64)
    requires
        in_sum(inputs@.map_values(|i: Input| i@)) <= u64::MAX,
    ensures
        r == in_sum(inputs@.map_values(|i: Input| i@)),
{
    let ghost iv = inputs@.map_values(|i: Input| i@);
    let mut sum: u64 = 0;
    let mut i: usize = 0;
    while i < inputs.len()
        invariant
            i <= inputs@.len(),
            iv == inputs@.map_values(|x: Input| x@),
            iv.len() == inputs@.len(),
            in_sum(iv) <= u64::MAX,
            sum == in_sum(iv.take(i as int)),
        decreases inputs@.len() - i,
    {
        proof {
            assert(iv.take(i + 1 as int).drop_last() =~= iv.take(i as int));
            assert(iv.take(i + 1 as int).last() == iv[i as int]);
            lemma_in_sum_mono(iv, i + 1 as int);
        }
        sum = sum + inputs[i].amount;
        i += 1;
    }
    proof {
        assert(iv.take(iv.len() as int) =~= iv);
    }
    sum
}

/// Total value paid by a vector of outputs.
fn sum_output_values(outputs: &Vec<TxOut>) -> (r: u64)
    requires
        out_sum(outputs@.map_values(|o: TxOut| o@)) <= u64::MAX,
    ensures
        r == out_sum(outputs@.map_values(|o: TxOut| o@)),
{
    let ghost ov = outputs@.map_values(|o: TxOut| o@);
    let mut sum: u64 = 0;
    let mut i: usize = 0;
    while i < outputs.len()
        invariant
            i <= outputs@.len(),
            ov == outputs@.map_values(|x: TxOut| x@),
            ov.len() == outputs@.len(),
            out_sum(ov) <= u64::MAX,
            sum == out_sum(ov.take(i as int)),
        decreases outputs@.len() - i,
    {
        proof {
            assert(ov.take(i + 1 as int).drop_last() =~= ov.take(i as int));
            assert(ov.take(i + 1 as int).last() == ov[i as int]);
            lemma_out_sum_mono(ov, i + 1 as int);
        }
        sum = sum + outputs[i].value;
        i += 1;
    }
    proof {
        assert(ov.take(ov.len() as int) =~= ov);
    }
    sum
}

/// The transaction over given inputs and outputs, and its estimated
/// virtual size.
pub open spec fn seq_txv(iv: Seq<InputV>, ov: Seq<TxOutV>) -> TxV {
    TxV {
        version: 1,
        lock_time: 0,
        inputs: iv.map_values(|i: InputV| spec_txin(i)),
        outputs: ov,
    }
}

/// The witness stacks over given inputs.
pub open spec fn seq_wits(iv: Seq<InputV>) -> Seq<Seq<Seq<u8>>> {
    iv.map_values(|i: InputV| spec_input_witness(i))
}

/// Estimated virtual size over given inputs and outputs.
pub open spec fn seq_est(iv: Seq<InputV>, ov: Seq<TxOutV>) -> int {
    est_sum(iv) + tx_size_of(seq_txv(iv, ov), seq_wits(iv))
}

/// Assembles the version-1, lock-time-0 transaction over the inputs and
/// outputs in order, and estimates its virtual size; fails only where the
/// estimate no longer fits a word.
pub fn build_tx(inputs: &Vec<Input>, outputs: &Vec<TxOut>) -> (r: Result<(Tx, u64), Error>)
    requires
        forall|i: int|
            0 <= i < inputs@.len() ==> (#[trigger] inputs@[i]@).sigs.shares.len()
                <= crate::sigset::MAX_SIGNATORIES,
    ensures
        ({
            let iv = inputs@.map_values(|i: Input| i@);
            let ov = outputs@.map_values(|o: TxOut| o@);
            &&& r is Ok <==> seq_est(iv, ov) <= u64::MAX
            &&& r matches Ok(p) ==> p.0@ == seq_txv(iv, ov) && witnesses_of(&p.0) == seq_wits(iv)
                && p.1 == seq_est(iv, ov)
            &&& r is Err ==> r == Result::<(Tx, u64), Error>::Err(Error::Overflow)
        }),
{
    let ghost iv = inputs@.map_values(|i: Input| i@);
    let ghost ov = outputs@.map_values(|o: TxOut| o@);
    let mut txins: Vec<TxIn> = Vec::new();
    let mut wsum: u64 = 0;
    let mut i: usize = 0;
    while i < inputs.len()
        invariant
            i <= inputs@.len(),
            iv == inputs@.map_values(|x: Input| x@),
            iv.len() == inputs@.len(),
            forall|k: int|
                0 <= k < iv.len() ==> (#[trigger] iv[k]).sigs.shares.len()
                    <= crate::sigset::MAX_SIGNATORIES,
            txins@.len() == i,
            forall|k: int|
                0 <= k < i ==> (#[trigger] txins@[k])@ == spec_txin(iv[k]) && views_of(
                    txins@[k].witness@,
                ) == spec_input_witness(iv[k]),
            wsum == est_sum(iv.take(i as int)),
        decreases inputs@.len() - i,
    {
        proof {
            assert(iv.take(i + 1 as int).drop_last() =~= iv.take(i as int));
            assert(iv.take(i + 1 as int).last() == iv[i as int]);
            lemma_est_sum_nonneg(iv.take(i as int));
        }
        let input = &inputs[i];
        let txin = input.to_txin();
        let e = input.sigs.est_vsize();
        if wsum > u64::MAX - e {
            proof {
                lemma_est_sum_mono(iv, i + 1 as int);
                assert(seq_est(iv, ov) > u64::MAX);
            }
            return Result::Err(Error::Overflow);
        }
        wsum = wsum + e;
        txins.push(txin);
        i += 1;
    }
    proof {
        assert(iv.take(iv.len() as int) =~= iv);
    }
    let mut outs: Vec<TxOut> = Vec::new();
    let mut j: usize = 0;
    while j < outputs.len()
        invariant
            j <= outputs@.len(),
            ov == outputs@.map_values(|x: TxOut| x@),
            ov.len() == outputs@.len(),
            outs@.len() == j,
            forall|k: int| 0 <= k < j ==> (#[trigger] outs@[k])@ == ov[k],
        decreases outputs@.len() - j,
    {
        let o = &outputs[j];
        outs.push(TxOut { value: o.value, script_pubkey: clone_bytes(&o.script_pubkey) });
        j += 1;
    }
    let tx = Tx { version: 1, lock_time: 0, inputs: txins, outputs: outs };
    proof {
        assert(tx@ =~~= seq_txv(iv, ov));
        assert(witnesses_of(&tx) =~~= seq_wits(iv));
    }
    let size = tx_size(&tx);
    if wsum > u64::MAX - size {
        return Result::Err(Error::Overflow);
    }
    Result::Ok((tx, wsum + size))
}


/// The reserve output as it is first inserted: zero value, paying the
/// checkpoint's roster at the null destination.
pub open spec fn spec_reserve0(c: CheckpointV) -> TxOutV {
    TxOutV {
        value: 0,
        script_pubkey: spec_output_script(c.sigset, Seq::new(20, |i: int| 0u8)),
    }
}

/// What the Building-to-Signing transition yields: the reserve output at
/// the front, the fee taken from the carried value, and every collector
/// fixed to its BIP-143 sighash. Fails with `InsufficientFee` where the
/// fee exceeds the carried value, with `Overflow` where the size estimate
/// no longer fits a word.
pub open spec fn spec_advance(c: CheckpointV) -> Result<CheckpointV, Error> {
    let mid = CheckpointV {
        status: CheckpointStatus::Signing,
        outputs: seq![spec_reserve0(c)] + c.outputs,
        ..c
    };
    let est = spec_est_vsize(mid);
    let fee = est * FEE_RATE;
    let reserve = in_sum(c.inputs) - out_sum(c.outputs) - fee;
    if est > u64::MAX {
        Result::Err(Error::Overflow)
    } else if reserve < 0 {
        Result::Err(Error::InsufficientFee)
    } else {
        let frozen = CheckpointV {
            outputs: seq![
                TxOutV { value: reserve as u64, script_pubkey: spec_reserve0(c).script_pubkey },
            ] + c.outputs,
            ..mid
        };
        Result::Ok(
            CheckpointV {
                inputs: Seq::new(
                    c.inputs.len(),
                    |i: int| InputV {
                        sigs: ThresholdSigV {
                            message: Option::Some(frozen.frozen_sighash(i)),
                            ..c.inputs[i].sigs
                        },
                        ..c.inputs[i]
                    },
                ),
                ..frozen
            },
        )
    }
}

/// Two input rows of equal length, done input for done input, count the
/// same number of done inputs.
proof fn lemma_count_done_congruent(a: Seq<InputV>, b: Seq<InputV>)
    requires
        a.len() == b.len(),
        forall|i: int| 0 <= i < a.len() ==> ts_done(a[i].sigs) == ts_done(b[i].sigs),
    ensures
        count_done(a) == count_done(b),
    decreases a.len(),
{
    if a.len() != 0 {
        lemma_count_done_congruent(a.drop_last(), b.drop_last());
    }
}

/// Two input rows of equal length, amount for amount, carry the same
/// value in.
pub proof fn lemma_in_sum_congruent(a: Seq<InputV>, b: Seq<InputV>)
    requires
        a.len() == b.len(),
        forall|i: int| 0 <= i < a.len() ==> a[i].amount == b[i].amount,
    ensures
        in_sum(a) == in_sum(b),
    decreases a.len(),
{
    if a.len() != 0 {
        lemma_in_sum_congruent(a.drop_last(), b.drop_last());
    }
}

/// An output put at the front adds its value to the total.
proof fn lemma_out_sum_front(x: TxOutV, s: Seq<TxOutV>)
    ensures
        out_sum(seq![x] + s) == x.value + out_sum(s),
    decreases s.len(),
{
    if s.len() == 0 {
        assert((seq![x] + s) =~= seq![x]);
        assert((seq![x]).drop_last() =~= Seq::<TxOutV>::empty());
        assert(out_sum(Seq::<TxOutV>::empty()) == 0);
        assert(out_sum(seq![x]) == out_sum((seq![x]).drop_last()) + x.value);
    } else {
        assert((seq![x] + s).drop_last() =~= seq![x] + s.drop_last());
        assert((seq![x] + s).last() == s.last());
        lemma_out_sum_front(x, s.drop_last());
    }
}


/// Whether the signer's key derives at every input's roster index.
pub open spec fn all_keys_derive(inputs: Seq<InputV>, xpub: Seq<u8>) -> bool {
    forall|i: int|
        0 <= i < inputs.len() ==> derived_pubkey_of(
            xpub,
            (#[trigger] inputs[i]).sigset_index,
        ) is Some
}

/// What a signer is asked to sign: for each input, in order, whose roster
/// lists the signer's derived key without a signature from it yet, the
/// input's sighash and roster index.
pub open spec fn spec_to_sign(inputs: Seq<InputV>, xpub: Seq<u8>) -> Seq<(Seq<u8>, u32)>
    decreases inputs.len(),
{
    if inputs.len() == 0 {
        Seq::empty()
    } else {
        spec_to_sign(inputs.drop_last(), xpub) + ({
            let inp = inputs.last();
            match derived_pubkey_of(xpub, inp.sigset_index) {
                Option::None => Seq::empty(),
                Option::Some(pk) => if ts_needs_sig(inp.sigs, pk) {
                    seq![(inp.sigs.message.unwrap(), inp.sigset_index)]
                } else {
                    Seq::empty()
                },
            }
        })
    }
}

/// One signer's batched submission, walked input by input from position
/// `k` with `j` signatures consumed and `d` inputs newly completed: an
/// input whose roster does not list the signer's key is passed over; one
/// already complete consumes a slot unused; any other consumes its slot
/// into the collector, which must accept it. The batch must end exactly
/// when the slots do.
pub open spec fn spec_sign_go(
    inputs: Seq<InputV>,
    xpub: Seq<u8>,
    sigs: Seq<Seq<u8>>,
    k: int,
    j: int,
    d: int,
) -> Result<(Seq<InputV>, int, int), Error>
    decreases inputs.len() - k,
{
    if k < 0 || k >= inputs.len() {
        if j == sigs.len() {
            Result::Ok((inputs, j, d))
        } else {
            Result::Err(Error::ExcessSignatures)
        }
    } else {
        let inp = inputs[k];
        match derived_pubkey_of(xpub, inp.sigset_index) {
            Option::None => Result::Err(Error::Bip32Derivation),
            Option::Some(pk) => if !ts_contains(inp.sigs, pk) {
                spec_sign_go(inputs, xpub, sigs, k + 1, j, d)
            } else if ts_done(inp.sigs) {
                if j >= sigs.len() {
                    Result::Err(Error::NotEnoughSignatures)
                } else {
                    spec_sign_go(inputs, xpub, sigs, k + 1, j + 1, d)
                }
            } else if j >= sigs.len() {
                Result::Err(Error::NotEnoughSignatures)
            } else if ts_signed_by(inp.sigs, pk) || !sig_valid_of(
                inp.sigs.message.unwrap(),
                pk,
                sigs[j],
            ) {
                Result::Err(Error::InvalidSignature)
            } else {
                let inp2 = InputV { sigs: spec_record(inp.sigs, pk, sigs[j]), ..inp };
                let d2 = if ts_done(inp2.sigs) {
                    d + 1
                } else {
                    d
                };
                spec_sign_go(inputs.update(k, inp2), xpub, sigs, k + 1, j + 1, d2)
            },
        }
    }
}

/// What one signer's whole batch does to the inputs. A key whose depth
/// byte leaves no room to derive is refused outright.
pub open spec fn spec_sign(inputs: Seq<InputV>, xpub: Seq<u8>, sigs: Seq<Seq<u8>>) -> Result<
    (Seq<InputV>, int, int),
    Error,
> {
    if !crate::sigset::xpub_depth_ok(xpub) {
        Result::Err(Error::Bip32Derivation)
    } else {
        spec_sign_go(inputs, xpub, sigs, 0, 0, 0)
    }
}

/// No input row counts more done inputs than it has inputs.
proof fn lemma_count_done_le_len(s: Seq<InputV>)
    ensures
        0 <= count_done(s) <= s.len(),
    decreases s.len(),
{
    if s.len() != 0 {
        lemma_count_done_le_len(s.drop_last());
    }
}

/// Replacing one input changes the done count exactly by the change at
/// that slot.
proof fn lemma_count_done_update(s: Seq<InputV>, m: int, x: InputV)
    requires
        0 <= m < s.len(),
    ensures
        count_done(s.update(m, x)) == count_done(s) - (if ts_done(s[m].sigs) {
            1int
        } else {
            0int
        }) + (if ts_done(x.sigs) {
            1int
        } else {
            0int
        }),
    decreases s.len(),
{
    let s2 = s.update(m, x);
    if m == s.len() - 1 {
        assert(s2.drop_last() =~= s.drop_last());
    } else {
        assert(s2.drop_last() =~= s.drop_last().update(m, x));
        assert(s2.last() == s.last());
        lemma_count_done_update(s.drop_last(), m, x);
    }
}

/// What one signer's action on one input is, decided ahead of mutation.
enum SignAction {
    Skip,
    Consume,
    Apply { pk: Vec<u8>, sig_idx: usize },
}

impl Checkpoint {
    /// A fresh Building checkpoint frozen to a signatory set.
    pub fn new(sigset: SignatorySet) -> (r: Checkpoint)
        requires
            sigset@.wf(),
        ensures
            r@ == (CheckpointV {
                status: CheckpointStatus::Building,
                inputs: Seq::empty(),
                signed_inputs: 0,
                outputs: Seq::empty(),
                sigset: sigset@,
            }),
            r@.wf(),
    {
        let r = Checkpoint {
            status: CheckpointStatus::Building,
            inputs: Vec::new(),
            signed_inputs: 0,
            outputs: Vec::new(),
            sigset,
        };
        proof {
            assert(r@ =~~= (CheckpointV {
                status: CheckpointStatus::Building,
                inputs: Seq::empty(),
                signed_inputs: 0,
                outputs: Seq::empty(),
                sigset: r@.sigset,
            }));
        }
        r
    }

    /// When the checkpoint's roster was frozen.
    pub fn create_time(&self) -> (r: u64)
        ensures
            r == self@.sigset.create_time,
    {
        self.sigset.create_time()
    }

    /// How many of the inputs are fully signed.
    pub fn signed_inputs(&self) -> (r: u16)
        ensures
            r == self@.signed_inputs,
    {
        self.signed_inputs
    }

    /// Whether every input is fully signed.
    pub fn done(&self) -> (r: bool)
        ensures
            r == (self@.signed_inputs == self@.inputs.len()),
    {
        self.signed_inputs as usize == self.inputs.len()
    }

    /// The checkpoint's transaction and estimated virtual size.
    pub fn tx(&self) -> (r: Result<(Tx, u64), Error>)
        requires
            self@.wf(),
        ensures
            r is Ok <==> spec_est_vsize(self@) <= u64::MAX,
            r matches Ok(p) ==> p.0@ == cp_txv(self@) && witnesses_of(&p.0) == cp_wits(self@)
                && p.1 == spec_est_vsize(self@),
            r is Err ==> r == Result::<(Tx, u64), Error>::Err(Error::Overflow),
    {
        proof {
            assert(seq_txv(self@.inputs, self@.outputs) =~~= cp_txv(self@));
            assert(seq_wits(self@.inputs) =~~= cp_wits(self@));
            assert forall|i: int| 0 <= i < self.inputs@.len() implies (
                #[trigger] self.inputs@[i]@).sigs.shares.len() <= crate::sigset::MAX_SIGNATORIES by {
                assert(self@.inputs[i] == self.inputs@[i]@);
                assert(self@.inputs[i].sigs.wf());
            }
        }
        build_tx(&self.inputs, &self.outputs)
    }

    /// Appends a deposit input bound to `dest`, spending `(txid, vout)` of
    /// value `amount`, with a fresh collector awaiting `sigset`; rejected
    /// when the input cap is reached or the carried value no longer fits.
    pub fn push_input(
        &mut self,
        prevout_txid: [u8; 32],
        prevout_vout: u32,
        sigset: &SignatorySet,
        dest: [u8; 20],
        amount: u64,
    ) -> (r: Result<(), Error>)
        requires
            old(self)@.wf(),
            old(self)@.status == CheckpointStatus::Building,
            sigset@.wf(),
        ensures
            r is Ok <==> old(self)@.inputs.len() < MAX_INPUTS && in_sum(old(self)@.inputs)
                + amount <= u64::MAX,
            r matches Ok(u) ==> final(self)@ == (CheckpointV {
                inputs: old(self)@.inputs + seq![
                    spec_new_input(sigset@, prevout_txid@, prevout_vout, dest@, amount),
                ],
                ..old(self)@
            }) && final(self)@.wf(),
            r is Err ==> *final(self) == *old(self),
            r == Result::<(), Error>::Err(Error::CheckpointFull) <==> old(self)@.inputs.len()
                == MAX_INPUTS,
            r == Result::<(), Error>::Err(Error::Overflow) <==> old(self)@.inputs.len()
                < MAX_INPUTS && in_sum(old(self)@.inputs) + amount > u64::MAX,
    {
        if self.inputs.len() >= MAX_INPUTS as usize {
            return Result::Err(Error::CheckpointFull);
        }
        let cur = sum_input_amounts(&self.inputs);
        if cur > u64::MAX - amount {
            return Result::Err(Error::Overflow);
        }
        let script_pubkey = sigset.output_script(&dest);
        let redeem_script = sigset.redeem_script(&dest);
        let sigs = ThresholdSig::from_sigset(sigset);
        let input = Input {
            prevout_txid,
            prevout_vout,
            script_pubkey,
            redeem_script,
            sigset_index: sigset.index,
            dest,
            amount,
            sigs,
        };
        proof {
            assert(input@ =~~= spec_new_input(sigset@, prevout_txid@, prevout_vout, dest@, amount));
        }
        self.inputs.push(input);
        proof {
            let niv = self@.inputs;
            let oiv = old(self)@.inputs;
            assert(niv.drop_last() =~= oiv);
            assert(niv =~~= oiv + seq![
                spec_new_input(sigset@, prevout_txid@, prevout_vout, dest@, amount),
            ]);
            assert(self@ =~~= (CheckpointV {
                inputs: oiv + seq![
                    spec_new_input(sigset@, prevout_txid@, prevout_vout, dest@, amount),
                ],
                ..old(self)@
            }));
            assert(count_done(niv) == count_done(oiv));
            assert(in_sum(niv) == in_sum(oiv) + amount);
        }
        Result::Ok(())
    }

    /// Appends a withdrawal output; rejected when the output cap (which
    /// keeps one slot for the reserve) is reached or the paid value no
    /// longer fits.
    pub fn push_output(&mut self, output: TxOut) -> (r: Result<(), Error>)
        requires
            old(self)@.wf(),
            old(self)@.status == CheckpointStatus::Building,
        ensures
            r is Ok <==> old(self)@.outputs.len() + 2 <= MAX_OUTPUTS && out_sum(old(self)@.outputs)
                + output.value <= u64::MAX,
            r matches Ok(u) ==> final(self)@ == (CheckpointV {
                outputs: old(self)@.outputs + seq![output@],
                ..old(self)@
            }) && final(self)@.wf(),
            r is Err ==> *final(self) == *old(self),
            r == Result::<(), Error>::Err(Error::CheckpointFull) <==> old(self)@.outputs.len() + 2
                > MAX_OUTPUTS,
            r == Result::<(), Error>::Err(Error::Overflow) <==> old(self)@.outputs.len() + 2
                <= MAX_OUTPUTS && out_sum(old(self)@.outputs) + output.value > u64::MAX,
    {
        if self.outputs.len() + 2 > MAX_OUTPUTS as usize {
            return Result::Err(Error::CheckpointFull);
        }
        let cur = sum_output_values(&self.outputs);
        if cur > u64::MAX - output.value {
            return Result::Err(Error::Overflow);
        }
        let ghost oov = self@.outputs;
        let ghost newv = output@;
        self.outputs.push(output);
        proof {
            assert(self@.outputs.drop_last() =~= oov);
            assert(self@.outputs =~~= oov + seq![newv]);
            assert(self@ =~~= (CheckpointV { outputs: oov + seq![newv], ..old(self)@ }));
            assert(out_sum(self@.outputs) == out_sum(oov) + newv.value);
        }
        Result::Ok(())
    }


    /// The Building-to-Signing transition: inserts the reserve output,
    /// takes the fee from the carried value, writes the remainder into
    /// the reserve, and fixes every collector's sighash; atomic, and
    /// rejected whole where the fee cannot be paid. Returns the frozen
    /// transaction's id.
    pub fn advance_building(&mut self) -> (r: Result<[u8; 32], Error>)
        requires
            old(self)@.wf(),
            old(self)@.status == CheckpointStatus::Building,
        ensures
            r matches Ok(txid) ==> spec_advance(old(self)@) matches Ok(f) && final(self)@ == f
                && final(self)@.wf() && txid@ == crate::btc::txid_of(cp_txv(f)),
            r matches Err(e) ==> spec_advance(old(self)@) == Result::<CheckpointV, Error>::Err(e)
                && *final(self) == *old(self),
    {
        let ghost c = self@;
        let ghost mid = CheckpointV {
            status: CheckpointStatus::Signing,
            outputs: seq![spec_reserve0(c)] + c.outputs,
            ..c
        };
        let nd = null_dest();
        let rscript = self.sigset.output_script(&nd);
        let rscript2 = clone_bytes(&rscript);
        // The candidate output row: the reserve placeholder, then the
        // checkpoint's outputs.
        let mut outs_mid: Vec<TxOut> = Vec::new();
        outs_mid.push(TxOut { value: 0, script_pubkey: rscript });
        let mut j: usize = 0;
        while j < self.outputs.len()
            invariant
                j <= self.outputs@.len(),
                outs_mid@.len() == j + 1,
                outs_mid@[0]@ == spec_reserve0(self@),
                forall|k: int| 1 <= k < j + 1 ==> (#[trigger] outs_mid@[k])@ == self@.outputs[k - 1],
            decreases self.outputs@.len() - j,
        {
            let o = &self.outputs[j];
            outs_mid.push(TxOut { value: o.value, script_pubkey: clone_bytes(&o.script_pubkey) });
            j += 1;
        }
        proof {
            assert(outs_mid@.map_values(|o: TxOut| o@) =~~= mid.outputs);
            assert forall|i: int| 0 <= i < self.inputs@.len() implies (
                #[trigger] self.inputs@[i]@).sigs.shares.len()
                <= crate::sigset::MAX_SIGNATORIES by {
                assert(self@.inputs[i] == self.inputs@[i]@);
                assert(self@.inputs[i].sigs.wf());
            }
            assert(seq_txv(self@.inputs, mid.outputs) =~~= cp_txv(mid));
            assert(seq_wits(self@.inputs) =~~= cp_wits(mid));
        }
        let built = build_tx(&self.inputs, &outs_mid);
        let mut tx: Tx;
        let est: u64;
        match built {
            Result::Err(e) => {
                proof {
                    assert(spec_est_vsize(mid) > u64::MAX);
                }
                return Result::Err(Error::Overflow);
            },
            Result::Ok(p) => {
                tx = p.0;
                est = p.1;
            },
        }
        proof {
            assert(est == spec_est_vsize(mid));
        }
        let in_amount = sum_input_amounts(&self.inputs);
        let out_amount = sum_output_values(&self.outputs);
        let fee128: u128 = (est as u128) * (FEE_RATE as u128);
        if (out_amount as u128) + fee128 > (in_amount as u128) {
            proof {
                assert(in_sum(c.inputs) - out_sum(c.outputs) - spec_est_vsize(mid) * FEE_RATE < 0);
            }
            return Result::Err(Error::InsufficientFee);
        }
        let fee: u64 = fee128 as u64;
        let reserve: u64 = in_amount - out_amount - fee;
        let ghost rv = TxOutV { value: reserve, script_pubkey: spec_reserve0(c).script_pubkey };
        let ghost frozen = CheckpointV {
            status: CheckpointStatus::Signing,
            outputs: seq![rv] + c.outputs,
            ..c
        };
        proof {
            assert(reserve == in_sum(c.inputs) - out_sum(c.outputs) - spec_est_vsize(mid)
                * FEE_RATE);
            assert(spec_advance(c) is Ok);
        }
        let ghost f = spec_advance(c).unwrap();
        proof {
            assert(f =~~= (CheckpointV {
                inputs: Seq::new(
                    c.inputs.len(),
                    |i: int| InputV {
                        sigs: ThresholdSigV {
                            message: Option::Some(frozen.frozen_sighash(i)),
                            ..c.inputs[i].sigs
                        },
                        ..c.inputs[i]
                    },
                ),
                ..frozen
            }));
            assert(cp_txv(f) =~~= cp_txv(frozen));
        }
        // Commit: status, the reserve output with its final value, and
        // every input's sighash.
        self.status = CheckpointStatus::Signing;
        self.outputs.insert(0, TxOut { value: reserve, script_pubkey: rscript2 });
        proof {
            assert(tx@.outputs == outs_mid@.map_values(|o: TxOut| o@));
            assert(tx@.outputs == mid.outputs);
            assert(mid.outputs[0] == spec_reserve0(c));
            assert(tx.outputs@[0]@ == spec_reserve0(c));
            assert(tx.outputs@.len() >= 1);
        }
        let ghost pre_exec = tx.outputs@;
        let first = tx.outputs.remove(0);
        tx.outputs.insert(0, TxOut { value: reserve, script_pubkey: first.script_pubkey });
        proof {
            assert(tx.outputs@.len() == pre_exec.len());
            assert(tx.outputs@[0]@ == rv);
            assert(forall|k: int| 1 <= k < pre_exec.len() ==> tx.outputs@[k] == pre_exec[k]);
            assert(f.outputs.len() == pre_exec.len());
            assert forall|k: int| 0 <= k < pre_exec.len() implies tx@.outputs[k] == f.outputs[k] by {
                if k == 0 {
                    assert(tx@.outputs[0] == tx.outputs@[0]@);
                } else {
                    assert(tx@.outputs[k] == tx.outputs@[k]@);
                    assert(pre_exec[k]@ == mid.outputs[k]);
                    assert(mid.outputs[k] == c.outputs[k - 1]);
                }
            }
        }
        proof {
            assert(tx@.version == 1 && tx@.lock_time == 0);
            assert(tx@.inputs =~~= cp_txv(f).inputs);
            assert(first@ == spec_reserve0(c));
            assert(tx@.outputs =~~= cp_txv(f).outputs);
            assert(tx@ =~~= cp_txv(f));
            assert(self@.outputs =~~= f.outputs);
        }
        let n = self.inputs.len();
        let mut i: usize = 0;
        while i < n
            invariant
                n == self.inputs@.len(),
                i <= n,
                c.wf(),
                c.status == CheckpointStatus::Building,
                c.inputs.len() == n,
                f.inputs.len() == n,
                tx@ == cp_txv(f),
                tx@.inputs.len() == n,
                forall|k: int|
                    0 <= k < n ==> (#[trigger] f.inputs[k]).sigs.message == Option::Some(
                        crate::btc::sighash_of(
                            tx@,
                            k,
                            c.inputs[k].redeem_script,
                            c.inputs[k].amount,
                        ),
                    ),
                forall|k: int|
                    0 <= k < n ==> #[trigger] f.inputs[k] == (InputV {
                        sigs: ThresholdSigV {
                            message: f.inputs[k].sigs.message,
                            ..c.inputs[k].sigs
                        },
                        ..c.inputs[k]
                    }),
                self@.outputs == f.outputs,
                self@.signed_inputs == f.signed_inputs,
                self@.sigset == f.sigset,
                self@.status == f.status,
                forall|k: int| 0 <= k < i ==> self@.inputs[k] == f.inputs[k],
                forall|k: int| i <= k < n ==> self@.inputs[k] == c.inputs[k],
            decreases n - i,
        {
            proof {
                assert(c.inputs[i as int].sigs.wf());
                assert(c.inputs[i as int].sigs.message is None);
            }
            let h = tx_sighash(&tx, i, &self.inputs[i].redeem_script, self.inputs[i].amount);
            let inp = &mut self.inputs[i];
            inp.sigs.set_message(h);
            proof {
                assert(self@.inputs[i as int] =~~= f.inputs[i as int]);
            }
            i += 1;
        }
        proof {
            assert(self@ =~~= f);
            lemma_count_done_congruent(f.inputs, c.inputs);
            lemma_in_sum_congruent(f.inputs, c.inputs);
            lemma_out_sum_front(rv, c.outputs);
            assert(out_sum(f.outputs) <= u64::MAX);
            assert forall|k: int| 0 <= k < f.inputs.len() implies (
                #[trigger] f.inputs[k]).sigs.wf() by {
                assert(c.inputs[k].sigs.wf());
                assert(c.inputs[k].sigs.message is None);
                assert(f.inputs[k].sigs.shares == c.inputs[k].sigs.shares);
            }
            assert forall|k: int| 0 <= k < f.inputs.len() implies (
                #[trigger] f.inputs[k]).sigs.message == Option::Some(f.frozen_sighash(k)) by {
                assert(f.inputs[k].redeem_script == c.inputs[k].redeem_script);
                assert(f.inputs[k].amount == c.inputs[k].amount);
            }
            assert(f.wf());
        }
        let txid = crate::btc::tx_txid(&tx);
        Result::Ok(txid)
    }


    /// What the signer holding `xpub` still has to sign: for each input
    /// whose roster lists the signer's derived key without its signature,
    /// the sighash to sign and the roster index to derive with.
    pub fn to_sign(&self, xpub: &Xpub) -> (r: Result<Vec<([u8; 32], u32)>, Error>)
        requires
            self@.wf(),
            self@.status == CheckpointStatus::Signing,
        ensures
            r is Ok <==> crate::sigset::xpub_depth_ok(xpub@) && all_keys_derive(
                self@.inputs,
                xpub@,
            ),
            r matches Ok(v) ==> {
                let s = spec_to_sign(self@.inputs, xpub@);
                &&& v@.len() == s.len()
                &&& forall|k: int| 0 <= k < s.len() ==> (#[trigger] v@[k]).0@ == s[k].0
                    && v@[k].1 == s[k].1
            },
            r is Err ==> r == Result::<Vec<([u8; 32], u32)>, Error>::Err(Error::Bip32Derivation),
    {
        if !crate::sigset::xpub_depth_is_ok(xpub) {
            return Result::Err(Error::Bip32Derivation);
        }
        let ghost iv = self@.inputs;
        let mut out: Vec<([u8; 32], u32)> = Vec::new();
        let mut i: usize = 0;
        let n = self.inputs.len();
        while i < n
            invariant
                n == self.inputs@.len(),
                i <= n,
                iv == self@.inputs,
                self@.wf(),
                self@.status == CheckpointStatus::Signing,
                crate::sigset::xpub_depth_ok(xpub@),
                forall|k: int|
                    0 <= k < i ==> derived_pubkey_of(xpub@, (#[trigger] iv[k]).sigset_index)
                        is Some,
                ({
                    let s = spec_to_sign(iv.take(i as int), xpub@);
                    &&& out@.len() == s.len()
                    &&& forall|k: int| 0 <= k < s.len() ==> (#[trigger] out@[k]).0@ == s[k].0
                        && out@[k].1 == s[k].1
                }),
            decreases n - i,
        {
            proof {
                assert(iv.take(i + 1 as int).drop_last() =~= iv.take(i as int));
                assert(iv.take(i + 1 as int).last() == iv[i as int]);
                assert(self@.inputs[i as int].sigs.wf());
            }
            let inp = &self.inputs[i];
            let pk = match derive_pubkey(xpub, inp.sigset_index) {
                Option::Some(pk) => pk,
                Option::None => {
                    return Result::Err(Error::Bip32Derivation);
                },
            };
            if inp.sigs.needs_sig(&pk) {
                let msg = inp.sigs.message();
                out.push((msg, inp.sigset_index));
            }
            i += 1;
        }
        proof {
            assert(iv.take(n as int) =~= iv);
        }
        Result::Ok(out)
    }

    /// Applies the batch a signer submitted: their signatures in the
    /// order `to_sign` lists, with one slot consumed unused for each of
    /// their inputs already complete. All of it is applied, or none: any
    /// rejected signature, a batch that runs short, or one that runs
    /// over, fails the whole call and leaves the checkpoint unchanged.
    pub fn sign(&mut self, xpub: &Xpub, sigs: &Vec<Vec<u8>>) -> (r: Result<(), Error>)
        requires
            old(self)@.wf(),
            old(self)@.status == CheckpointStatus::Signing,
        ensures
            r is Ok <==> spec_sign(old(self)@.inputs, xpub@, views_of(sigs@)) is Ok,
            r matches Ok(u) ==> spec_sign(old(self)@.inputs, xpub@, views_of(sigs@)) matches Ok(
                p,
            ) && final(self)@ == (CheckpointV {
                inputs: p.0,
                signed_inputs: count_done(p.0) as u16,
                ..old(self)@
            }) && final(self)@.wf() && cp_txv(final(self)@) == cp_txv(old(self)@)
                && final(self)@.inputs.len() == old(self)@.inputs.len() && (forall|k: int|
                0 <= k < old(self)@.inputs.len() ==> (#[trigger] final(self)@.inputs[k]).amount
                    == old(self)@.inputs[k].amount),
            r matches Err(e) ==> spec_sign(old(self)@.inputs, xpub@, views_of(sigs@))
                == Result::<(Seq<InputV>, int, int), Error>::Err(e) && *final(self) == *old(self),
    {
        if !crate::sigset::xpub_depth_is_ok(xpub) {
            return Result::Err(Error::Bip32Derivation);
        }
        let ghost c = self@;
        let ghost sv = views_of(sigs@);
        let n = self.inputs.len();
        // First pass: decide every action and outcome without touching
        // anything.
        let mut plan: Vec<SignAction> = Vec::new();
        let mut j: usize = 0;
        let ghost mut gs = c.inputs;
        let ghost mut d: int = 0;
        let mut i: usize = 0;
        while i < n
            invariant
                n == self.inputs@.len(),
                i <= n,
                j <= sigs@.len(),
                c == self@,
                c.wf(),
                c.status == CheckpointStatus::Signing,
                crate::sigset::xpub_depth_ok(xpub@),
                sv == views_of(sigs@),
                sv.len() == sigs@.len(),
                c.inputs.len() == n,
                gs.len() == n,
                plan@.len() == i,
                spec_sign_go(c.inputs, xpub@, sv, 0, 0, 0) == spec_sign_go(
                    gs,
                    xpub@,
                    sv,
                    i as int,
                    j as int,
                    d,
                ),
                forall|k: int| i <= k < n ==> gs[k] == c.inputs[k],
                forall|k: int|
                    0 <= k < i && !((#[trigger] plan@[k]) matches SignAction::Apply { .. })
                        ==> gs[k] == c.inputs[k],
                forall|k: int|
                    0 <= k < i ==> ((#[trigger] plan@[k]) matches SignAction::Apply {
                        pk,
                        sig_idx,
                    } ==> {
                        &&& sig_idx < sv.len()
                        &&& derived_pubkey_of(xpub@, c.inputs[k].sigset_index)
                            == Option::Some(pk@)
                        &&& ts_contains(c.inputs[k].sigs, pk@)
                        &&& !ts_signed_by(c.inputs[k].sigs, pk@)
                        &&& !ts_done(c.inputs[k].sigs)
                        &&& sig_valid_of(c.inputs[k].sigs.message.unwrap(), pk@, sv[sig_idx as int])
                        &&& gs[k] == (InputV {
                            sigs: spec_record(c.inputs[k].sigs, pk@, sv[sig_idx as int]),
                            ..c.inputs[k]
                        })
                    }),
            decreases n - i,
        {
            proof {
                assert(self@.inputs[i as int].sigs.wf());
                assert(gs[i as int] == c.inputs[i as int]);
            }
            let inp = &self.inputs[i];
            let pk = match derive_pubkey(xpub, inp.sigset_index) {
                Option::Some(pk) => pk,
                Option::None => {
                    return Result::Err(Error::Bip32Derivation);
                },
            };
            if !inp.sigs.contains_key(&pk) {
                plan.push(SignAction::Skip);
            } else if inp.sigs.done() {
                if j >= sigs.len() {
                    return Result::Err(Error::NotEnoughSignatures);
                }
                plan.push(SignAction::Consume);
                j += 1;
            } else {
                if j >= sigs.len() {
                    return Result::Err(Error::NotEnoughSignatures);
                }
                if !inp.sigs.needs_sig(&pk) {
                    proof {
                        assert(ts_signed_by(c.inputs[i as int].sigs, pk@));
                    }
                    return Result::Err(Error::InvalidSignature);
                }
                proof {
                    assert(!ts_signed_by(c.inputs[i as int].sigs, pk@));
                }
                let msg = inp.sigs.message();
                if !crate::btc::verify_signature(&msg, &pk, &sigs[j]) {
                    return Result::Err(Error::InvalidSignature);
                }
                proof {
                    let inp2 = InputV {
                        sigs: spec_record(c.inputs[i as int].sigs, pk@, sv[j as int]),
                        ..c.inputs[i as int]
                    };
                    gs = gs.update(i as int, inp2);
                    if ts_done(inp2.sigs) {
                        d = d + 1;
                    }
                }
                plan.push(SignAction::Apply { pk, sig_idx: j });
                j += 1;
            }
            i += 1;
        }
        if j != sigs.len() {
            return Result::Err(Error::ExcessSignatures);
        }
        proof {
            assert(spec_sign(c.inputs, xpub@, sv) == Result::<(Seq<InputV>, int, int), Error>::Ok(
                (gs, j as int, d),
            ));
        }
        // Second pass: every action was accepted; apply them.
        let mut m: usize = 0;
        while m < n
            invariant
                n == self.inputs@.len(),
                m <= n,
                c.wf(),
                c.status == CheckpointStatus::Signing,
                c.inputs.len() == n,
                gs.len() == n,
                plan@.len() == n,
                sv.len() == sigs@.len(),
                sv == views_of(sigs@),
                self@.status == c.status,
                self@.outputs == c.outputs,
                self@.sigset == c.sigset,
                self@.signed_inputs == count_done(self@.inputs),
                forall|k: int| m <= k < n ==> self@.inputs[k] == c.inputs[k],
                forall|k: int| 0 <= k < m ==> self@.inputs[k] == gs[k],
                forall|k: int| 0 <= k < m ==> (#[trigger] self@.inputs[k]).sigs.wf(),
                forall|k: int| m <= k < n ==> gs[k] == c.inputs[k]
                    || ((#[trigger] plan@[k]) matches SignAction::Apply { .. }),
                forall|k: int|
                    0 <= k < n ==> ((#[trigger] plan@[k]) matches SignAction::Apply {
                        pk,
                        sig_idx,
                    } ==> {
                        &&& sig_idx < sv.len()
                        &&& ts_contains(c.inputs[k].sigs, pk@)
                        &&& !ts_signed_by(c.inputs[k].sigs, pk@)
                        &&& !ts_done(c.inputs[k].sigs)
                        &&& sig_valid_of(c.inputs[k].sigs.message.unwrap(), pk@, sv[sig_idx as int])
                        &&& gs[k] == (InputV {
                            sigs: spec_record(c.inputs[k].sigs, pk@, sv[sig_idx as int]),
                            ..c.inputs[k]
                        })
                    }),
            decreases n - m,
        {
            let ghost pre = self@.inputs;
            let apply: bool;
            match &plan[m] {
                SignAction::Apply { .. } => {
                    apply = true;
                },
                _ => {
                    apply = false;
                },
            }
            if apply {
                let mut inp = self.inputs.remove(m);
                proof {
                    assert(pre[m as int] == c.inputs[m as int]);
                    assert(inp@.sigs.wf());
                    lemma_count_done_le_len(pre);
                }
                let act = &plan[m];
                match act {
                    SignAction::Apply { pk, sig_idx } => {
                        let res = inp.sigs.sign(pk, &sigs[*sig_idx]);
                        proof {
                            assert(res is Ok);
                        }
                        if res.is_err() {
                            proof {
                                assert(false);
                            }
                            return Result::Err(Error::InvalidSignature);
                        }
                        let newly_done = inp.sigs.done();
                        self.inputs.insert(m, inp);
                        proof {
                            assert(self@.inputs =~~= pre.update(m as int, gs[m as int]));
                            lemma_count_done_update(pre, m as int, gs[m as int]);
                            lemma_count_done_le_len(self@.inputs);
                        }
                        if newly_done {
                            self.signed_inputs = self.signed_inputs + 1;
                        }
                    },
                    _ => {
                        proof {
                            assert(false);
                        }
                        return Result::Err(Error::InvalidSignature);
                    },
                }
            } else {
                proof {
                    assert(self@.inputs[m as int] == gs[m as int]);
                    assert(c.inputs[m as int].sigs.wf());
                }
            }
            m += 1;
        }
        proof {
            assert(self@.inputs =~~= gs);
            assert forall|k: int| 0 <= k < n implies {
                let g = #[trigger] gs[k];
                let o = c.inputs[k];
                &&& g.amount == o.amount
                &&& g.prevout_txid == o.prevout_txid
                &&& g.prevout_vout == o.prevout_vout
                &&& g.script_pubkey == o.script_pubkey
                &&& g.redeem_script == o.redeem_script
                &&& g.sigset_index == o.sigset_index
                &&& g.dest == o.dest
            } by {
                match plan@[k] {
                    SignAction::Apply { pk, sig_idx } => {},
                    _ => {
                        assert(gs[k] == c.inputs[k]);
                    },
                }
            }
            lemma_in_sum_congruent(gs, c.inputs);
            assert(cp_txv(self@) =~~= cp_txv(c));
            assert forall|k: int| 0 <= k < n implies (#[trigger] gs[k]).sigs.message == c.inputs[
                k
            ].sigs.message by {
                match plan@[k] {
                    SignAction::Apply { pk, sig_idx } => {
                        assert(gs[k].sigs == spec_record(
                            c.inputs[k].sigs,
                            pk@,
                            sv[sig_idx as int],
                        ));
                    },
                    _ => {},
                }
            }
            assert forall|k: int| 0 <= k < n implies (#[trigger] self@.inputs[k]).sigs.message
                == Option::Some(self@.frozen_sighash(k)) by {
                assert(c.inputs[k].sigs.message == Option::Some(c.frozen_sighash(k)));
                assert(self@.frozen_sighash(k) == c.frozen_sighash(k));
            }
            assert(self@ =~~= (CheckpointV {
                inputs: gs,
                signed_inputs: count_done(gs) as u16,
                ..c
            }));
            assert(self@.wf());
        }
        Result::Ok(())
    }

    /// Freezes the signatures forever: Signing becomes Complete.
    pub fn advance_signing(&mut self)
        requires
            old(self)@.wf(),
            old(self)@.status == CheckpointStatus::Signing,
        ensures
            final(self)@ == (CheckpointV { status: CheckpointStatus::Complete, ..old(self)@ }),
            final(self)@.wf(),
    {
        self.status = CheckpointStatus::Complete;
        proof {
            assert(self@ =~~= (CheckpointV {
                status: CheckpointStatus::Complete,
                ..old(self)@
            }));
            assert(cp_txv(self@) =~~= cp_txv(old(self)@));
            assert(forall|i: int|
                0 <= i < self@.inputs.len() ==> self@.frozen_sighash(i) == old(
                    self,
                )@.frozen_sighash(i));
        }
    }
}

} // verus!
