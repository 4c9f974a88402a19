use vstd::prelude::*;
use crate::btc::{derived_pubkey_of, derive_pubkey, sha256, sha256_of};
use crate::error::Error;
use crate::util::{bytes_eq, clone_bytes};

verus! {

/// Largest roster a signatory set may carry; keeps witness-size estimates
/// within a machine word.
pub const MAX_SIGNATORIES: u64 = 1024;

/// A BIP-32 extended public key, held as its 78-byte binary encoding.
#[derive(Debug)]
pub struct Xpub {
    pub bytes: Vec<u8>,
}

impl View for Xpub {
    type V = Seq<u8>;

    open spec fn view(&self) -> Seq<u8> {
        self.bytes@
    }
}

/// Whether a 78-byte extended-key encoding has room for one more
/// derivation level: a depth-255 parent cannot take a child without
/// overflowing the child's depth byte.
pub open spec fn xpub_depth_ok(x: Seq<u8>) -> bool {
    x.len() == 78 ==> x[4] != 255
}

/// Tests `xpub_depth_ok` on a held key.
pub fn xpub_depth_is_ok(x: &Xpub) -> (r: bool)
    ensures
        r == xpub_depth_ok(x@),
{
    x.bytes.len() != 78 || x.bytes[4] != 255
}

/// One eligible signer: a derived public key and its voting power.
#[derive(Debug)]
pub struct Signatory {
    pub pubkey: Vec<u8>,
    pub voting_power: u64,
}

/// Mathematical image of a `Signatory`.
#[verifier::ext_equal]
pub ghost struct SignatoryV {
    pub pubkey: Seq<u8>,
    pub voting_power: u64,
}

impl View for Signatory {
    type V = SignatoryV;

    open spec fn view(&self) -> SignatoryV {
        SignatoryV { pubkey: self.pubkey@, voting_power: self.voting_power }
    }
}

/// A frozen roster of signers for one checkpoint index: who may sign, how
/// much power each carries, and the power at which a quorum is reached.
#[derive(Debug)]
pub struct SignatorySet {
    pub create_time: u64,
    pub index: u32,
    pub threshold: u64,
    pub possible_vp: u64,
    pub present_vp: u64,
    pub signatories: Vec<Signatory>,
}

/// Mathematical image of a `SignatorySet`.
#[verifier::ext_equal]
pub ghost struct SigsetV {
    pub create_time: u64,
    pub index: u32,
    pub threshold: u64,
    pub possible_vp: u64,
    pub present_vp: u64,
    pub signatories: Seq<SignatoryV>,
}

impl View for SignatorySet {
    type V = SigsetV;

    open spec fn view(&self) -> SigsetV {
        SigsetV {
            create_time: self.create_time,
            index: self.index,
            threshold: self.threshold,
            possible_vp: self.possible_vp,
            present_vp: self.present_vp,
            signatories: self.signatories@.map_values(|s: Signatory| s@),
        }
    }
}

/// Total voting power of a roster.
pub open spec fn sum_vp(s: Seq<SignatoryV>) -> int
    decreases s.len(),
{
    if s.len() == 0 {
        0
    } else {
        sum_vp(s.drop_last()) + s.last().voting_power
    }
}

/// Whether a roster already lists a public key.
pub open spec fn roster_has_key(s: Seq<SignatoryV>, pk: Seq<u8>) -> bool {
    exists|i: int| 0 <= i < s.len() && s[i].pubkey == pk
}

impl SigsetV {
    /// Well-formedness: the recorded sums are the roster's, a quorum is a
    /// positive amount of power, and no key is listed twice.
    pub open spec fn wf(self) -> bool {
        &&& self.signatories.len() <= MAX_SIGNATORIES
        &&& self.present_vp == sum_vp(self.signatories)
        &&& self.present_vp <= self.possible_vp
        &&& self.threshold >= 1
        &&& forall|i: int, j: int|
            0 <= i < j < self.signatories.len() ==> self.signatories[i].pubkey
                != self.signatories[j].pubkey
    }
}

/// The eight bytes of a 64-bit integer, least significant first.
pub open spec fn u64_le(n: u64) -> Seq<u8> {
    seq![
        (n & 0xff) as u8,
        ((n >> 8) & 0xff) as u8,
        ((n >> 16) & 0xff) as u8,
        ((n >> 24) & 0xff) as u8,
        ((n >> 32) & 0xff) as u8,
        ((n >> 40) & 0xff) as u8,
        ((n >> 48) & 0xff) as u8,
        ((n >> 56) & 0xff) as u8,
    ]
}

/// Appends the eight little-endian bytes of `n`.
pub fn push_u64_le(out: &mut Vec<u8>, n: u64)
    ensures
        final(out)@ == old(out)@ + u64_le(n),
{
    proof {
        assert((n & 0xff) < 256 && ((n >> 8) & 0xff) < 256 && ((n >> 16) & 0xff) < 256
            && ((n >> 24) & 0xff) < 256 && ((n >> 32) & 0xff) < 256 && ((n >> 40) & 0xff) < 256
            && ((n >> 48) & 0xff) < 256 && ((n >> 56) & 0xff) < 256) by (bit_vector);
    }
    out.push((n & 0xff) as u8);
    out.push(((n >> 8) & 0xff) as u8);
    out.push(((n >> 16) & 0xff) as u8);
    out.push(((n >> 24) & 0xff) as u8);
    out.push(((n >> 32) & 0xff) as u8);
    out.push(((n >> 40) & 0xff) as u8);
    out.push(((n >> 48) & 0xff) as u8);
    out.push(((n >> 56) & 0xff) as u8);
    proof {
        assert(out@ =~= old(out)@ + u64_le(n));
    }
}

/// The roster's wire form: each signatory's key followed by its power.
pub open spec fn roster_bytes(s: Seq<SignatoryV>) -> Seq<u8>
    decreases s.len(),
{
    if s.len() == 0 {
        Seq::empty()
    } else {
        roster_bytes(s.drop_last()) + s.last().pubkey + u64_le(s.last().voting_power)
    }
}

/// The script a checkpoint's inputs are redeemed with: the quorum power,
/// the roster, and the destination the deposit is bound to.
pub open spec fn spec_redeem_script(s: SigsetV, dest: Seq<u8>) -> Seq<u8> {
    u64_le(s.threshold) + roster_bytes(s.signatories) + dest
}

/// The pay-to-witness-script output form of the redeem script: a version
/// byte, a length byte, and the script's SHA-256 digest.
pub open spec fn spec_output_script(s: SigsetV, dest: Seq<u8>) -> Seq<u8> {
    seq![0u8, 32u8] + sha256_of(spec_redeem_script(s, dest))
}

impl SignatorySet {
    /// The creation time the roster was frozen with.
    pub fn create_time(&self) -> (r: u64)
        ensures
            r == self@.create_time,
    {
        self.create_time
    }

    /// Total power of every eligible validator, keys supplied or not.
    pub fn possible_vp(&self) -> (r: u64)
        ensures
            r == self@.possible_vp,
    {
        self.possible_vp
    }

    /// Whether the signers with supplied keys can reach a quorum at all.
    pub fn has_quorum(&self) -> (r: bool)
        ensures
            r == (self@.present_vp >= self@.threshold),
    {
        self.present_vp >= self.threshold
    }

    /// An owned copy with the same mathematical value.
    pub fn duplicate(&self) -> (r: SignatorySet)
        ensures
            r@ == self@,
    {
        let mut sigs: Vec<Signatory> = Vec::new();
        let mut i: usize = 0;
        while i < self.signatories.len()
            invariant
                i <= self.signatories@.len(),
                sigs@.len() == i,
                forall|k: int| 0 <= k < i ==> sigs@[k]@ == self.signatories@[k]@,
            decreases self.signatories@.len() - i,
        {
            let s = &self.signatories[i];
            sigs.push(Signatory { pubkey: clone_bytes(&s.pubkey), voting_power: s.voting_power });
            i += 1;
        }
        let r = SignatorySet {
            create_time: self.create_time,
            index: self.index,
            threshold: self.threshold,
            possible_vp: self.possible_vp,
            present_vp: self.present_vp,
            signatories: sigs,
        };
        proof {
            assert(r@.signatories =~= self@.signatories);
        }
        r
    }

    /// The redeem script binding this roster to a destination.
    pub fn redeem_script(&self, dest: &[u8; 20]) -> (r: Vec<u8>)
        ensures
            r@ == spec_redeem_script(self@, dest@),
    {
        let mut out: Vec<u8> = Vec::new();
        push_u64_le(&mut out, self.threshold);
        let mut i: usize = 0;
        while i < self.signatories.len()
            invariant
                i <= self.signatories@.len(),
                out@ == u64_le(self.threshold) + roster_bytes(
                    self@.signatories.take(i as int),
                ),
            decreases self.signatories@.len() - i,
        {
            let s = &self.signatories[i];
            let mut pk = clone_bytes(&s.pubkey);
            out.append(&mut pk);
            push_u64_le(&mut out, s.voting_power);
            proof {
                assert(self@.signatories.take(i + 1 as int).drop_last() =~= self@.signatories.take(
                    i as int,
                ));
                assert(self@.signatories.take(i + 1 as int).last() == self@.signatories[i as int]);
            }
            i += 1;
        }
        let mut k: usize = 0;
        while k < 20
        invariant
                k <= 20,
                out@ == u64_le(self.threshold) + roster_bytes(
                    self@.signatories.take(self.signatories@.len() as int),
                ) + dest@.take(k as int),
            decreases 20 - k,
        {
            out.push(dest[k]);
            proof {
                assert(dest@.take(k + 1 as int) =~= dest@.take(k as int) + seq![dest@[k as int]]);
            }
            k += 1;
        }
        proof {
            assert(self@.signatories.take(self.signatories@.len() as int) =~= self@.signatories);
            assert(dest@.take(20) =~= dest@);
            assert(out@ =~= spec_redeem_script(self@, dest@));
        }
        out
    }

    /// The output script paying to this roster for a destination.
    pub fn output_script(&self, dest: &[u8; 20]) -> (r: Vec<u8>)
        ensures
            r@ == spec_output_script(self@, dest@),
    {
        let rs = self.redeem_script(dest);
        let h = sha256(&rs);
        let mut out: Vec<u8> = Vec::new();
        out.push(0u8);
        out.push(32u8);
        let mut k: usize = 0;
        while k < 32
            invariant
                k <= 32,
                h@ == sha256_of(spec_redeem_script(self@, dest@)),
                out@ == seq![0u8, 32u8] + h@.take(k as int),
            decreases 32 - k,
        {
            out.push(h[k]);
            proof {
                assert(h@.take(k + 1 as int) =~= h@.take(k as int) + seq![h@[k as int]]);
            }
            k += 1;
        }
        proof {
            assert(h@.take(32) =~= h@);
            assert(out@ =~= spec_output_script(self@, dest@));
        }
        out
    }
}


/// One entry of the validator context: its voting power, and the extended
/// key it registered, if any.
#[derive(Debug)]
pub struct ValidatorEntry {
    pub voting_power: u64,
    pub xpub: Option<Xpub>,
}

/// Mathematical image of a `ValidatorEntry`.
#[verifier::ext_equal]
pub ghost struct ValidatorEntryV {
    pub voting_power: u64,
    pub xpub: Option<Seq<u8>>,
}

impl View for ValidatorEntry {
    type V = ValidatorEntryV;

    open spec fn view(&self) -> ValidatorEntryV {
        ValidatorEntryV {
            voting_power: self.voting_power,
            xpub: match self.xpub {
                Option::Some(ref x) => Option::Some(x@),
                Option::None => Option::None,
            },
        }
    }
}

/// Total power of every validator, keys supplied or not.
pub open spec fn spec_possible_vp(entries: Seq<ValidatorEntryV>) -> int
    decreases entries.len(),
{
    if entries.len() == 0 {
        0
    } else {
        spec_possible_vp(entries.drop_last()) + entries.last().voting_power
    }
}

/// The roster derived from the validator context at a checkpoint index:
/// entries without a key are left out, each remaining key is derived at
/// the index, and a key that repeats an earlier one is left out. `None`
/// where some registered key fails to derive.
pub open spec fn spec_roster(entries: Seq<ValidatorEntryV>, index: u32) -> Option<Seq<SignatoryV>>
    decreases entries.len(),
{
    if entries.len() == 0 {
        Option::Some(Seq::empty())
    } else {
        match spec_roster(entries.drop_last(), index) {
            Option::None => Option::None,
            Option::Some(acc) => match entries.last().xpub {
                Option::None => Option::Some(acc),
                Option::Some(x) => if !xpub_depth_ok(x) {
                    Option::None
                } else {
                    match derived_pubkey_of(x, index) {
                        Option::None => Option::None,
                        Option::Some(pk) => if roster_has_key(acc, pk) {
                            Option::Some(acc)
                        } else {
                            Option::Some(
                                acc + seq![
                                    SignatoryV {
                                        pubkey: pk,
                                        voting_power: entries.last().voting_power,
                                    },
                                ],
                            )
                        },
                    }
                },
            },
        }
    }
}

/// A quorum: strictly more than two thirds of the present power.
pub open spec fn quorum_of(present: int) -> int {
    present * 2 / 3 + 1
}

/// What freezing a signatory set from the validator context yields.
pub open spec fn spec_from_validator_ctx(
    index: u32,
    entries: Seq<ValidatorEntryV>,
    now: u64,
) -> Result<SigsetV, Error> {
    match spec_roster(entries, index) {
        Option::None => Result::Err(Error::Bip32Derivation),
        Option::Some(roster) => if spec_possible_vp(entries) > u64::MAX || sum_vp(roster)
            > u64::MAX || roster.len() > MAX_SIGNATORIES {
            Result::Err(Error::Overflow)
        } else {
            Result::Ok(
                SigsetV {
                    create_time: now,
                    index: index,
                    threshold: quorum_of(sum_vp(roster)) as u64,
                    possible_vp: spec_possible_vp(entries) as u64,
                    present_vp: sum_vp(roster) as u64,
                    signatories: roster,
                },
            )
        },
    }
}

/// A roster's power never exceeds the context's possible power.
proof fn lemma_roster_vp_le(entries: Seq<ValidatorEntryV>, index: u32)
    requires
        spec_roster(entries, index) is Some,
    ensures
        sum_vp(spec_roster(entries, index).unwrap()) <= spec_possible_vp(entries),
    decreases entries.len(),
{
    if entries.len() != 0 {
        lemma_roster_vp_le(entries.drop_last(), index);
        let acc = spec_roster(entries.drop_last(), index).unwrap();
        let r = spec_roster(entries, index).unwrap();
        if r != acc {
            assert(r.drop_last() =~= acc);
        }
    }
}

/// A roster lists no key twice.
proof fn lemma_roster_distinct(entries: Seq<ValidatorEntryV>, index: u32)
    requires
        spec_roster(entries, index) is Some,
    ensures
        forall|i: int, j: int|
            0 <= i < j < spec_roster(entries, index).unwrap().len()
                ==> spec_roster(entries, index).unwrap()[i].pubkey != spec_roster(
                entries,
                index,
            ).unwrap()[j].pubkey,
    decreases entries.len(),
{
    if entries.len() != 0 {
        lemma_roster_distinct(entries.drop_last(), index);
        let acc = spec_roster(entries.drop_last(), index).unwrap();
        let r = spec_roster(entries, index).unwrap();
        if r != acc {
            assert(r.drop_last() =~= acc);
            assert(forall|i: int| 0 <= i < acc.len() ==> r[i] == acc[i]);
            assert(!roster_has_key(acc, r.last().pubkey));
        }
    }
}

/// Freezes the signatory set for one checkpoint index from the validator
/// context, derived at that index and stamped with the current time.
pub fn from_validator_ctx(index: u32, entries: &Vec<ValidatorEntry>, now: u64) -> (r: Result<
    SignatorySet,
    Error,
>)
    ensures
        r matches Ok(s) ==> spec_from_validator_ctx(index, entries@.map_values(|e: ValidatorEntry| e@), now)
            matches Ok(sv) && s@ == sv && s@.wf(),
        r matches Err(e) ==> spec_from_validator_ctx(index, entries@.map_values(|e: ValidatorEntry| e@), now)
            == Result::<SigsetV, Error>::Err(e),
{
    let ghost eview = entries@.map_values(|e: ValidatorEntry| e@);
    let mut roster: Vec<Signatory> = Vec::new();
    let mut i: usize = 0;
    while i < entries.len()
        invariant
            i <= entries@.len(),
            eview == entries@.map_values(|e: ValidatorEntry| e@),
            eview.len() == entries@.len(),
            spec_roster(eview.take(i as int), index) == Option::Some(
                roster@.map_values(|s: Signatory| s@),
            ),
        decreases entries@.len() - i,
    {
        let ghost pre = roster@.map_values(|s: Signatory| s@);
        proof {
            assert(eview.take(i + 1 as int).drop_last() =~= eview.take(i as int));
            assert(eview.take(i + 1 as int).last() == eview[i as int]);
        }
        let e = &entries[i];
        match e.xpub {
            Option::None => {},
            Option::Some(ref x) => {
                if !xpub_depth_is_ok(x) {
                    proof {
                        assert(spec_roster(eview.take(i + 1 as int), index) is None);
                        lemma_roster_none_extends(eview, index, i + 1 as int);
                    }
                    return Result::Err(Error::Bip32Derivation);
                }
                match derive_pubkey(x, index) {
                    Option::None => {
                        proof {
                            assert(spec_roster(eview.take(i + 1 as int), index) is None);
                            lemma_roster_none_extends(eview, index, i + 1 as int);
                        }
                        return Result::Err(Error::Bip32Derivation);
                    },
                    Option::Some(pk) => {
                        let mut seen = false;
                        let mut k: usize = 0;
                        while k < roster.len()
                            invariant
                                k <= roster@.len(),
                                pre == roster@.map_values(|s: Signatory| s@),
                                seen == exists|m: int|
                                    0 <= m < k && pre[m].pubkey == pk@,
                            decreases roster@.len() - k,
                        {
                            if bytes_eq(&roster[k].pubkey, &pk) {
                                seen = true;
                                proof {
                                    assert(pre[k as int].pubkey == pk@);
                                }
                            }
                            k += 1;
                        }
                        proof {
                            assert(seen == roster_has_key(pre, pk@));
                        }
                        if !seen {
                            roster.push(Signatory { pubkey: pk, voting_power: e.voting_power });
                            proof {
                                assert(roster@.map_values(|s: Signatory| s@) =~= pre + seq![
                                    SignatoryV {
                                        pubkey: pk@,
                                        voting_power: eview[i as int].voting_power,
                                    },
                                ]);
                            }
                        }
                    },
                }
            },
        }
        i += 1;
    }
    proof {
        assert(eview.take(eview.len() as int) =~= eview);
    }
    let ghost rosterv = roster@.map_values(|s: Signatory| s@);
    // Sum the context's total power.
    let mut possible: u64 = 0;
    let mut i2: usize = 0;
    while i2 < entries.len()
        invariant
            i2 <= entries@.len(),
            eview == entries@.map_values(|e: ValidatorEntry| e@),
            eview.len() == entries@.len(),
            spec_roster(eview, index) == Option::Some(rosterv),
            possible == spec_possible_vp(eview.take(i2 as int)),
        decreases entries@.len() - i2,
    {
        proof {
            assert(eview.take(i2 + 1 as int).drop_last() =~= eview.take(i2 as int));
            assert(eview.take(i2 + 1 as int).last() == eview[i2 as int]);
        }
        let vp = entries[i2].voting_power;
        if possible > u64::MAX - vp {
            proof {
                lemma_possible_vp_mono(eview, i2 + 1 as int);
            }
            return Result::Err(Error::Overflow);
        }
        possible = possible + vp;
        i2 += 1;
    }
    proof {
        assert(eview.take(eview.len() as int) =~= eview);
    }
    // Sum the roster's present power.
    let mut present: u64 = 0;
    let mut i3: usize = 0;
    while i3 < roster.len()
        invariant
            i3 <= roster@.len(),
            rosterv == roster@.map_values(|s: Signatory| s@),
            rosterv.len() == roster@.len(),
            spec_roster(eview, index) == Option::Some(rosterv),
            eview == entries@.map_values(|e: ValidatorEntry| e@),
            possible <= u64::MAX,
            spec_possible_vp(eview) == possible,
            present == sum_vp(rosterv.take(i3 as int)),
        decreases roster@.len() - i3,
    {
        proof {
            assert(rosterv.take(i3 + 1 as int).drop_last() =~= rosterv.take(i3 as int));
            assert(rosterv.take(i3 + 1 as int).last() == rosterv[i3 as int]);
        }
        let vp = roster[i3].voting_power;
        if present > u64::MAX - vp {
            proof {
                lemma_sum_vp_mono(rosterv, i3 + 1 as int);
            }
            return Result::Err(Error::Overflow);
        }
        present = present + vp;
        i3 += 1;
    }
    proof {
        assert(rosterv.take(rosterv.len() as int) =~= rosterv);
    }
    if roster.len() > MAX_SIGNATORIES as usize {
        return Result::Err(Error::Overflow);
    }
    let threshold128: u128 = (present as u128) * 2 / 3 + 1;
    proof {
        assert((present as int) * 2 / 3 + 1 <= u64::MAX) by (nonlinear_arith)
            requires
                present <= u64::MAX,
        ;
    }
    let threshold: u64 = threshold128 as u64;
    let r = SignatorySet {
        create_time: now,
        index: index,
        threshold: threshold,
        possible_vp: possible,
        present_vp: present,
        signatories: roster,
    };
    proof {
        lemma_roster_vp_le(eview, index);
        lemma_roster_distinct(eview, index);
        assert(r@.signatories =~= rosterv);
    }
    Result::Ok(r)
}

/// Once some prefix of the context fails to derive, the whole context
/// fails to derive.
proof fn lemma_roster_none_extends(entries: Seq<ValidatorEntryV>, index: u32, k: int)
    requires
        0 <= k <= entries.len(),
        spec_roster(entries.take(k), index) is None,
    ensures
        spec_roster(entries, index) is None,
    decreases entries.len() - k,
{
    if k < entries.len() {
        assert(entries.take(k + 1).drop_last() =~= entries.take(k));
        lemma_roster_none_extends(entries, index, k + 1);
    } else {
        assert(entries.take(k) =~= entries);
    }
}

/// Possible power only grows with the context.
proof fn lemma_possible_vp_mono(entries: Seq<ValidatorEntryV>, k: int)
    requires
        0 <= k <= entries.len(),
    ensures
        spec_possible_vp(entries.take(k)) <= spec_possible_vp(entries),
    decreases entries.len() - k,
{
    if k < entries.len() {
        assert(entries.take(k + 1).drop_last() =~= entries.take(k));
        lemma_possible_vp_mono(entries, k + 1);
    } else {
        assert(entries.take(k) =~= entries);
    }
}

/// A roster's power only grows with the roster.
proof fn lemma_sum_vp_mono(s: Seq<SignatoryV>, k: int)
    requires
        0 <= k <= s.len(),
    ensures
        sum_vp(s.take(k)) <= sum_vp(s),
    decreases s.len() - k,
{
    if k < s.len() {
        assert(s.take(k + 1).drop_last() =~= s.take(k));
        lemma_sum_vp_mono(s, k + 1);
    } else {
        assert(s.take(k) =~= s);
    }
}

} // verus!
