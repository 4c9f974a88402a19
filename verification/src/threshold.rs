use vstd::prelude::*;
use crate::btc::{sig_valid_of, verify_signature};
use crate::error::Error;
use crate::sigset::{SignatorySet, SigsetV, MAX_SIGNATORIES};
use crate::util::{bytes_eq, clone_bytes, views_of};

verus! {

/// Worst-case virtual-size contribution of one witness signature.
pub const SIG_VSIZE: u64 = 19;

/// Worst-case virtual-size contribution of the rest of an input's witness.
pub const WITNESS_BASE_VSIZE: u64 = 10;

/// One signer's slot in a collector: their key, their power, and the
/// signature they supplied, if any.
#[derive(Debug)]
pub struct Share {
    pub pubkey: Vec<u8>,
    pub power: u64,
    pub sig: Option<Vec<u8>>,
}

/// Mathematical image of a `Share`.
#[verifier::ext_equal]
pub ghost struct ShareV {
    pub pubkey: Seq<u8>,
    pub power: u64,
    pub sig: Option<Seq<u8>>,
}

impl View for Share {
    type V = ShareV;

    open spec fn view(&self) -> ShareV {
        ShareV {
            pubkey: self.pubkey@,
            power: self.power,
            sig: match self.sig {
                Option::Some(ref s) => Option::Some(s@),
                Option::None => Option::None,
            },
        }
    }
}

/// Collects threshold signatures over one fixed 32-byte message from the
/// signers of one signatory set.
#[derive(Debug)]
pub struct ThresholdSig {
    pub threshold: u64,
    pub signed_power: u64,
    pub message: Option<[u8; 32]>,
    pub shares: Vec<Share>,
}

/// Mathematical image of a `ThresholdSig`.
#[verifier::ext_equal]
pub ghost struct ThresholdSigV {
    pub threshold: u64,
    pub signed_power: u64,
    pub message: Option<Seq<u8>>,
    pub shares: Seq<ShareV>,
}

impl View for ThresholdSig {
    type V = ThresholdSigV;

    open spec fn view(&self) -> ThresholdSigV {
        ThresholdSigV {
            threshold: self.threshold,
            signed_power: self.signed_power,
            message: match self.message {
                Option::Some(m) => Option::Some(m@),
                Option::None => Option::None,
            },
            shares: self.shares@.map_values(|s: Share| s@),
        }
    }
}

/// Power of the shares that have signed.
pub open spec fn signed_sum(s: Seq<ShareV>) -> int
    decreases s.len(),
{
    if s.len() == 0 {
        0
    } else {
        signed_sum(s.drop_last()) + if s.last().sig is Some {
            s.last().power as int
        } else {
            0
        }
    }
}

/// Power of all shares.
pub open spec fn sum_powers(s: Seq<ShareV>) -> int
    decreases s.len(),
{
    if s.len() == 0 {
        0
    } else {
        sum_powers(s.drop_last()) + s.last().power
    }
}

/// Whether a key holds a slot in the collector.
pub open spec fn ts_contains(t: ThresholdSigV, pk: Seq<u8>) -> bool {
    exists|i: int| 0 <= i < t.shares.len() && t.shares[i].pubkey == pk
}

/// Whether a key has already supplied a signature.
pub open spec fn ts_signed_by(t: ThresholdSigV, pk: Seq<u8>) -> bool {
    exists|i: int| 0 <= i < t.shares.len() && t.shares[i].pubkey == pk && t.shares[i].sig is Some
}

/// Whether a key holds a slot and has not yet signed.
pub open spec fn ts_needs_sig(t: ThresholdSigV, pk: Seq<u8>) -> bool {
    exists|i: int| 0 <= i < t.shares.len() && t.shares[i].pubkey == pk && t.shares[i].sig is None
}

/// Whether the signed power has reached the quorum.
pub open spec fn ts_done(t: ThresholdSigV) -> bool {
    t.signed_power >= t.threshold
}

impl ThresholdSigV {
    /// Well-formedness: the counter is the signed shares' power, the total
    /// power fits a word, no key holds two slots, and every recorded
    /// signature is valid for the fixed message.
    pub open spec fn wf(self) -> bool {
        &&& self.shares.len() <= MAX_SIGNATORIES
        &&& self.signed_power == signed_sum(self.shares)
        &&& sum_powers(self.shares) <= u64::MAX
        &&& self.threshold >= 1
        &&& forall|i: int, j: int|
            0 <= i < j < self.shares.len() ==> self.shares[i].pubkey != self.shares[j].pubkey
        &&& forall|i: int|
            0 <= i < self.shares.len() && self.shares[i].sig is Some ==> self.message is Some
                && sig_valid_of(self.message.unwrap(), self.shares[i].pubkey, self.shares[i].sig.unwrap())
    }
}

/// The collector a signatory set starts with: one empty slot per signer,
/// the set's quorum, and no message yet.
pub open spec fn spec_from_sigset(s: SigsetV) -> ThresholdSigV {
    ThresholdSigV {
        threshold: s.threshold,
        signed_power: 0,
        message: Option::None,
        shares: s.signatories.map_values(
            |g: crate::sigset::SignatoryV| ShareV { pubkey: g.pubkey, power: g.voting_power, sig: Option::None },
        ),
    }
}

/// The collector after a key's signature is recorded in its slot.
pub open spec fn spec_record(t: ThresholdSigV, pk: Seq<u8>, sig: Seq<u8>) -> ThresholdSigV {
    let i = choose|i: int| 0 <= i < t.shares.len() && t.shares[i].pubkey == pk;
    ThresholdSigV {
        threshold: t.threshold,
        signed_power: (t.signed_power + t.shares[i].power) as u64,
        message: t.message,
        shares: t.shares.update(
            i,
            ShareV { pubkey: t.shares[i].pubkey, power: t.shares[i].power, sig: Option::Some(sig) },
        ),
    }
}

/// The witness stack: the null dummy, then each recorded signature in
/// roster order.
pub open spec fn witness_sigs(s: Seq<ShareV>) -> Seq<Seq<u8>>
    decreases s.len(),
{
    if s.len() == 0 {
        Seq::empty()
    } else {
        witness_sigs(s.drop_last()) + if s.last().sig is Some {
            seq![s.last().sig.unwrap()]
        } else {
            Seq::empty()
        }
    }
}

/// The witness stack of a collector.
pub open spec fn spec_witness(t: ThresholdSigV) -> Seq<Seq<u8>> {
    seq![Seq::<u8>::empty()] + witness_sigs(t.shares)
}

/// Worst-case virtual size of the witness this collector will produce.
pub open spec fn ts_est_vsize(t: ThresholdSigV) -> int {
    t.shares.len() * SIG_VSIZE + WITNESS_BASE_VSIZE
}

/// Signed power never exceeds total power.
pub proof fn lemma_signed_le_sum(s: Seq<ShareV>)
    ensures
        signed_sum(s) <= sum_powers(s),
        0 <= sum_powers(s),
        0 <= signed_sum(s),
    decreases s.len(),
{
    if s.len() != 0 {
        lemma_signed_le_sum(s.drop_last());
    }
}

/// Recording a signature in an unsigned slot adds that slot's power to the
/// signed power and leaves the total power unchanged.
pub proof fn lemma_sums_update(s: Seq<ShareV>, i: int, sig: Seq<u8>)
    requires
        0 <= i < s.len(),
        s[i].sig is None,
    ensures
        signed_sum(
            s.update(i, ShareV { pubkey: s[i].pubkey, power: s[i].power, sig: Option::Some(sig) }),
        ) == signed_sum(s) + s[i].power,
        sum_powers(
            s.update(i, ShareV { pubkey: s[i].pubkey, power: s[i].power, sig: Option::Some(sig) }),
        ) == sum_powers(s),
    decreases s.len(),
{
    let s2 = s.update(i, ShareV { pubkey: s[i].pubkey, power: s[i].power, sig: Option::Some(sig) });
    if i == s.len() - 1 {
        assert(s2.drop_last() =~= s.drop_last());
    } else {
        assert(s2.drop_last() =~= s.drop_last().update(
            i,
            ShareV { pubkey: s[i].pubkey, power: s[i].power, sig: Option::Some(sig) },
        ));
        lemma_sums_update(s.drop_last(), i, sig);
    }
}

/// A roster whose slots are all empty has no signed power.
proof fn lemma_signed_sum_empty(s: Seq<ShareV>)
    requires
        forall|i: int| 0 <= i < s.len() ==> s[i].sig is None,
    ensures
        signed_sum(s) == 0,
    decreases s.len(),
{
    if s.len() != 0 {
        lemma_signed_sum_empty(s.drop_last());
    }
}

/// The fresh shares of a roster carry the roster's power.
proof fn lemma_fresh_powers(g: Seq<crate::sigset::SignatoryV>)
    ensures
        sum_powers(
            g.map_values(
                |x: crate::sigset::SignatoryV| ShareV {
                    pubkey: x.pubkey,
                    power: x.voting_power,
                    sig: Option::None,
                },
            ),
        ) == crate::sigset::sum_vp(g),
    decreases g.len(),
{
    let m = g.map_values(
        |x: crate::sigset::SignatoryV| ShareV {
            pubkey: x.pubkey,
            power: x.voting_power,
            sig: Option::None,
        },
    );
    if g.len() != 0 {
        lemma_fresh_powers(g.drop_last());
        assert(m.drop_last() =~= g.drop_last().map_values(
            |x: crate::sigset::SignatoryV| ShareV {
                pubkey: x.pubkey,
                power: x.voting_power,
                sig: Option::None,
            },
        ));
    }
}


/// The slot a key holds, if any.
fn find_slot(shares: &Vec<Share>, pk: &Vec<u8>) -> (r: Option<usize>)
    ensures
        r matches Some(i) ==> i < shares@.len() && shares@[i as int]@.pubkey == pk@,
        r is None ==> forall|k: int| 0 <= k < shares@.len() ==> shares@[k]@.pubkey != pk@,
{
    let mut i: usize = 0;
    while i < shares.len()
        invariant
            i <= shares@.len(),
            forall|k: int| 0 <= k < i ==> shares@[k]@.pubkey != pk@,
        decreases shares@.len() - i,
    {
        if bytes_eq(&shares[i].pubkey, pk) {
            return Option::Some(i);
        }
        i += 1;
    }
    Option::None
}

impl ThresholdSig {
    /// A collector awaiting the given signatory set.
    pub fn from_sigset(s: &SignatorySet) -> (r: ThresholdSig)
        requires
            s@.wf(),
        ensures
            r@ == spec_from_sigset(s@),
            r@.wf(),
            r@.message is None,
    {
        let mut shares: Vec<Share> = Vec::new();
        let mut i: usize = 0;
        while i < s.signatories.len()
            invariant
                i <= s.signatories@.len(),
                shares@.len() == i,
                forall|k: int|
                    0 <= k < i ==> shares@[k]@ == (ShareV {
                        pubkey: s.signatories@[k]@.pubkey,
                        power: s.signatories@[k]@.voting_power,
                        sig: Option::None,
                    }),
            decreases s.signatories@.len() - i,
        {
            let g = &s.signatories[i];
            let pkc = clone_bytes(&g.pubkey);
            shares.push(Share { pubkey: pkc, power: g.voting_power, sig: Option::None });
            proof {
                assert(shares@[i as int]@ =~~= (ShareV {
                    pubkey: s.signatories@[i as int]@.pubkey,
                    power: s.signatories@[i as int]@.voting_power,
                    sig: Option::None,
                }));
            }
            i += 1;
        }
        let r = ThresholdSig {
            threshold: s.threshold,
            signed_power: 0,
            message: Option::None,
            shares,
        };
        proof {
            assert(r@.shares =~~= spec_from_sigset(s@).shares);
            assert(r@ =~~= spec_from_sigset(s@));
            lemma_signed_sum_empty(r@.shares);
            lemma_fresh_powers(s@.signatories);
            assert(sum_powers(r@.shares) == crate::sigset::sum_vp(s@.signatories));
        }
        r
    }

    /// Fixes the 32-byte message the signatures are collected over.
    pub fn set_message(&mut self, msg: [u8; 32])
        requires
            old(self)@.message is None,
        ensures
            final(self)@ == (ThresholdSigV { message: Option::Some(msg@), ..old(self)@ }),
            old(self)@.wf() ==> final(self)@.wf(),
    {
        self.message = Option::Some(msg);
    }

    /// The fixed message.
    pub fn message(&self) -> (r: [u8; 32])
        requires
            self@.message is Some,
        ensures
            r@ == self@.message.unwrap(),
    {
        self.message.unwrap()
    }

    /// Whether a key holds a slot here.
    pub fn contains_key(&self, pk: &Vec<u8>) -> (r: bool)
        ensures
            r == ts_contains(self@, pk@),
    {
        let mut i: usize = 0;
        while i < self.shares.len()
            invariant
                i <= self.shares@.len(),
                forall|k: int| 0 <= k < i ==> self@.shares[k].pubkey != pk@,
            decreases self.shares@.len() - i,
        {
            if bytes_eq(&self.shares[i].pubkey, pk) {
                proof {
                    assert(self@.shares[i as int].pubkey == pk@);
                }
                return true;
            }
            i += 1;
        }
        false
    }

    /// Whether a key holds a slot and has not yet signed.
    pub fn needs_sig(&self, pk: &Vec<u8>) -> (r: bool)
        ensures
            r == ts_needs_sig(self@, pk@),
    {
        let mut i: usize = 0;
        while i < self.shares.len()
            invariant
                i <= self.shares@.len(),
                forall|k: int|
                    0 <= k < i ==> !(self@.shares[k].pubkey == pk@ && self@.shares[k].sig is None),
            decreases self.shares@.len() - i,
        {
            if bytes_eq(&self.shares[i].pubkey, pk) && self.shares[i].sig.is_none() {
                proof {
                    assert(self@.shares[i as int].pubkey == pk@ && self@.shares[i as int].sig
                        is None);
                }
                return true;
            }
            i += 1;
        }
        false
    }

    /// Whether the signed power has reached the quorum.
    pub fn done(&self) -> (r: bool)
        ensures
            r == ts_done(self@),
    {
        self.signed_power >= self.threshold
    }

    /// Records one signer's signature: the key must hold a slot, must not
    /// have signed yet, and the signature must verify under the fixed
    /// message; anything else is rejected and nothing changes.
    pub fn sign(&mut self, pk: &Vec<u8>, sig: &Vec<u8>) -> (r: Result<(), Error>)
        requires
            old(self)@.wf(),
            old(self)@.message is Some,
        ensures
            r is Ok <==> ts_contains(old(self)@, pk@) && !ts_signed_by(old(self)@, pk@)
                && sig_valid_of(old(self)@.message.unwrap(), pk@, sig@),
            r is Ok ==> final(self)@ == spec_record(old(self)@, pk@, sig@) && final(self)@.wf(),
            r is Err ==> *final(self) == *old(self) && r == Result::<(), Error>::Err(
                Error::InvalidSignature,
            ),
    {
        let msg = self.message.unwrap();
        let slot = find_slot(&self.shares, pk);
        let i: usize;
        match slot {
            Option::Some(j) => {
                i = j;
            },
            Option::None => {
                return Result::Err(Error::InvalidSignature);
            },
        }
        proof {
            assert(self@.shares[i as int].pubkey == pk@);
        }
        if self.shares[i].sig.is_some() {
            proof {
                assert(ts_signed_by(self@, pk@));
            }
            return Result::Err(Error::InvalidSignature);
        }
        if !verify_signature(&msg, pk, sig) {
            return Result::Err(Error::InvalidSignature);
        }
        proof {
            assert(self@.shares[i as int].sig is None);
            assert(forall|k: int|
                0 <= k < self@.shares.len() && k != i ==> self@.shares[k].pubkey != pk@);
            assert(!ts_signed_by(old(self)@, pk@));
            lemma_signed_le_sum(self@.shares);
            lemma_sums_update(self@.shares, i as int, sig@);
            lemma_signed_le_sum(
                self@.shares.update(
                    i as int,
                    ShareV {
                        pubkey: self@.shares[i as int].pubkey,
                        power: self@.shares[i as int].power,
                        sig: Option::Some(sig@),
                    },
                ),
            );
        }
        let power = self.shares[i].power;
        let sh = &mut self.shares[i];
        sh.sig = Option::Some(clone_bytes(sig));
        self.signed_power = self.signed_power + power;
        proof {
            let iv = choose|j: int|
                0 <= j < old(self)@.shares.len() && old(self)@.shares[j].pubkey == pk@;
            assert(iv == i as int);
            assert(self@.shares =~~= spec_record(old(self)@, pk@, sig@).shares);
            assert(self@ =~~= spec_record(old(self)@, pk@, sig@));
        }
                Result::Ok(())
    }

    /// The witness stack so far: the null dummy, then each recorded
    /// signature in roster order.
    pub fn to_witness(&self) -> (r: Vec<Vec<u8>>)
        ensures
            views_of(r@) == spec_witness(self@),
    {
        let mut out: Vec<Vec<u8>> = Vec::new();
        out.push(Vec::new());
        let mut i: usize = 0;
        while i < self.shares.len()
            invariant
                i <= self.shares@.len(),
                views_of(out@) == seq![Seq::<u8>::empty()] + witness_sigs(
                    self@.shares.take(i as int),
                ),
            decreases self.shares@.len() - i,
        {
            proof {
                assert(self@.shares.take(i + 1 as int).drop_last() =~= self@.shares.take(i as int));
                assert(self@.shares.take(i + 1 as int).last() == self@.shares[i as int]);
            }
            match self.shares[i].sig {
                Option::Some(ref s) => {
                    let ghost pre_out = out@;
                    let c = clone_bytes(s);
                    out.push(c);
                    proof {
                        assert(self@.shares[i as int].sig == Option::Some(s@));
                        assert(views_of(out@) =~~= views_of(pre_out) + seq![s@]);
                        assert(witness_sigs(self@.shares.take(i + 1 as int)) =~~= witness_sigs(
                            self@.shares.take(i as int),
                        ) + seq![self@.shares[i as int].sig.unwrap()]);
                        assert(views_of(out@) =~~= seq![Seq::<u8>::empty()] + witness_sigs(
                            self@.shares.take(i + 1 as int),
                        ));
                    }
                },
                Option::None => {
                    proof {
                        assert(views_of(out@) =~~= seq![Seq::<u8>::empty()] + witness_sigs(
                            self@.shares.take(i + 1 as int),
                        ));
                    }
                },
            }
            i += 1;
        }
        proof {
            assert(self@.shares.take(self.shares@.len() as int) =~= self@.shares);
            assert(views_of(out@) =~~= spec_witness(self@));
        }
        out
    }

    /// Worst-case virtual size of this input's witness.
    pub fn est_vsize(&self) -> (r: u64)
        requires
            self@.shares.len() <= MAX_SIGNATORIES,
        ensures
            r == ts_est_vsize(self@),
    {
        let l = self.shares.len() as u64;
        proof {
            assert(l * SIG_VSIZE + WITNESS_BASE_VSIZE <= u64::MAX) by (nonlinear_arith)
                requires
                    l <= MAX_SIGNATORIES,
            ;
        }
        l * SIG_VSIZE + WITNESS_BASE_VSIZE
    }
}

} // verus!
