use vstd::prelude::*;

use bit_vec::BitVec;

use crate::{
    crypto::{
        bits::{bits_clone, bits_from_elem, bits_get, bits_len, bits_of, bits_set, count_ones, count_set},
        Identity, MultiSignature,
    },
    view,
};

verus! {

/// A multi-signature by some of the members of a view, together with which
/// members signed: `signers[i]` tells whether the `i`-th member of the view signed.
pub struct Certificate {
    signers: BitVec,
    signature: MultiSignature,
}

impl Clone for Certificate {
    fn clone(&self) -> (result: Certificate)
        ensures
            result.spec_signers() == self.spec_signers(),
            result.spec_signature() == self.spec_signature(),
    {
        Certificate { signers: bits_clone(&self.signers), signature: self.signature }
    }
}

/// Why a certificate is refused.
#[derive(Debug, Clone, Copy, PartialEq, Eq, Structural)]
pub enum CertificateError {
    CertificateInvalid,
    NotEnoughSigners,
    OverlappingSigners,
}

/// Whether the identity `id` occurs in `ids`.
pub open spec fn lists(ids: Seq<Identity>, id: Seq<u8>) -> bool {
    exists|j: int| 0 <= j < ids.len() && #[trigger] ids[j]@ == id
}

/// No identity occurs twice in `ids`.
pub open spec fn distinct_identities(ids: Seq<Identity>) -> bool {
    forall|a: int, b: int| 0 <= a < b < ids.len() ==> #[trigger] ids[a]@ != #[trigger] ids[b]@
}

/// The signer bits of a view whose signers are `ids`: one bit per member, set
/// when the member is among `ids`.
pub open spec fn signer_bits(view: view::View, ids: Seq<Identity>) -> Seq<bool> {
    Seq::new(view.spec_members().len(), |i: int| lists(ids, view.spec_members()[i]@))
}

/// The members whose bit is set, in order.
pub open spec fn selected(members: Seq<Identity>, bits: Seq<bool>) -> Seq<Identity>
    decreases members.len(),
{
    if members.len() == 0 {
        Seq::<Identity>::empty()
    } else {
        selected(members.drop_last(), bits) + if bits[members.len() - 1] {
            seq![members.last()]
        } else {
            Seq::<Identity>::empty()
        }
    }
}

/// Two of the bit vectors share a set bit.
pub open spec fn overlapping(bits: Seq<Seq<bool>>) -> bool {
    exists|i: int, j: int, k: int|
        0 <= i < j < bits.len() && 0 <= k < bits[i].len() && #[trigger] bits[i][k]
            && #[trigger] bits[j][k]
}

/// Bit `k` is set in one of the first `upto` bit vectors.
pub open spec fn covered(bits: Seq<Seq<bool>>, upto: int, k: int) -> bool {
    exists|i: int| 0 <= i < upto && #[trigger] bits[i][k]
}

/// The number of positions, below `length`, set in at least one of the bit vectors.
pub open spec fn union_count(bits: Seq<Seq<bool>>, length: nat) -> nat {
    count_set(Seq::new(length, |k: int| covered(bits, bits.len() as int, k)))
}

impl Certificate {
    pub closed spec fn spec_signers(&self) -> Seq<bool> {
        bits_of(self.signers)
    }

    pub closed spec fn spec_signature(&self) -> MultiSignature {
        self.signature
    }

    /// The number of signers.
    pub open spec fn spec_power(&self) -> nat {
        count_set(self.spec_signers())
    }

    /// A certificate by the members of `view` listed in `signers`, whose
    /// signatures aggregate into `signature`. Every signer must be a member of
    /// `view`, and none may be listed twice.
    pub fn aggregate(view: &view::View, signers: &Vec<Identity>, signature: MultiSignature) -> (result:
        Certificate)
        requires
            forall|j: int|
                0 <= j < signers@.len() ==> view.member_ids().contains(#[trigger] signers@[j]@),
            distinct_identities(signers@),
        ensures
            result.spec_signers() == signer_bits(*view, signers@),
            result.spec_signature() == signature,
            result.spec_power() == signers@.len(),
    {
        let members = view.members();
        proof {
            crate::view::lemma_ascending_distinct(view.member_ids());
            lemma_signer_count(*view, signers@);
        }
        let mut bits = bits_from_elem(members.len(), false);
        let mut index: usize = 0;
        while index < members.len()
            invariant
                members@ == view.spec_members(),
                0 <= index <= members@.len(),
                bits_of(bits).len() == members@.len(),
                forall|i: int|
                    0 <= i < index ==> bits_of(bits)[i] == lists(signers@, members@[i]@),
                forall|i: int| index <= i < members@.len() ==> !bits_of(bits)[i],
            decreases members@.len() - index,
        {
            if Self::listed(signers, &members[index]) {
                bits_set(&mut bits, index, true);
            }
            index = index + 1;
        }
        assert(bits_of(bits) =~= signer_bits(*view, signers@));
        Certificate { signers: bits, signature }
    }

    /// Whether `member` occurs in `signers`.
    fn listed(signers: &Vec<Identity>, member: &Identity) -> (result: bool)
        ensures
            result == lists(signers@, member@),
    {
        let mut index: usize = 0;
        while index < signers.len()
            invariant
                0 <= index <= signers@.len(),
                forall|j: int| 0 <= j < index ==> signers@[j]@ != member@,
            decreases signers@.len() - index,
        {
            if signers[index].equals(member) {
                return true;
            }
            index = index + 1;
        }
        false
    }

    /// As `aggregate`, for signers that make a plurality of `view`.
    pub fn aggregate_plurality(view: &view::View, signers: &Vec<Identity>, signature: MultiSignature) -> (result:
        Certificate)
        requires
            forall|j: int|
                0 <= j < signers@.len() ==> view.member_ids().contains(#[trigger] signers@[j]@),
            distinct_identities(signers@),
            signers@.len() >= view.spec_plurality(),
        ensures
            result.spec_signers() == signer_bits(*view, signers@),
            result.spec_signature() == signature,
            result.spec_power() == signers@.len(),
            result.spec_power() >= view.spec_plurality(),
    {
        Self::aggregate(view, signers, signature)
    }

    /// As `aggregate`, for signers that make a quorum of `view`.
    pub fn aggregate_quorum(view: &view::View, signers: &Vec<Identity>, signature: MultiSignature) -> (result:
        Certificate)
        requires
            forall|j: int|
                0 <= j < signers@.len() ==> view.member_ids().contains(#[trigger] signers@[j]@),
            distinct_identities(signers@),
            signers@.len() >= view.spec_quorum(),
        ensures
            result.spec_signers() == signer_bits(*view, signers@),
            result.spec_signature() == signature,
            result.spec_power() == signers@.len(),
            result.spec_power() >= view.spec_quorum(),
    {
        Self::aggregate(view, signers, signature)
    }

    /// The number of members that signed.
    pub fn power(&self) -> (result: usize)
        ensures
            result == self.spec_power(),
    {
        count_ones(&self.signers)
    }

    /// The multi-signature.
    pub fn signature(&self) -> (result: &MultiSignature)
        ensures
            *result == self.spec_signature(),
    {
        &self.signature
    }

    /// The members of `view` that signed, in the order of `view`: the key cards
    /// against which the multi-signature is verified.
    pub fn signers(&self, view: &view::View) -> (result: Vec<Identity>)
        requires
            view.spec_members().len() <= self.spec_signers().len(),
        ensures
            result@ == selected(view.spec_members(), self.spec_signers()),
            result@.len() == count_set(self.spec_signers().take(view.spec_members().len() as int)),
            forall|i: int|
                0 <= i < view.spec_members().len() && self.spec_signers()[i] ==> result@.contains(
                    #[trigger] view.spec_members()[i],
                ),
    {
        proof {
            lemma_selected_members(view.spec_members(), self.spec_signers());
        }
        let members = view.members();
        let ghost bits = self.spec_signers();
        let mut result: Vec<Identity> = Vec::new();
        let mut index: usize = 0;
        while index < members.len()
            invariant
                members@ == view.spec_members(),
                bits == self.spec_signers(),
                members@.len() <= bits.len(),
                0 <= index <= members@.len(),
                result@ == selected(members@.take(index as int), bits),
            decreases members@.len() - index,
        {
            proof {
                assert(members@.take(index + 1).drop_last() =~= members@.take(index as int));
            }
            if bits_get(&self.signers, index) == Some(true) {
                result.push(members[index]);
            }
            index = index + 1;
        }
        assert(members@.take(members@.len() as int) =~= members@);
        result
    }

    /// The outcome of checking the multi-signature: `valid` tells whether it
    /// verified against the signers' key cards.
    pub fn verify_raw(&self, valid: bool) -> (result: Result<(), CertificateError>)
        ensures
            result == if valid {
                Ok::<(), CertificateError>(())
            } else {
                Err(CertificateError::CertificateInvalid)
            },
    {
        if valid {
            Ok(())
        } else {
            Err(CertificateError::CertificateInvalid)
        }
    }

    /// The outcome of checking the certificate against `threshold` signers:
    /// too few signers, else the outcome of the multi-signature check `valid`.
    pub fn verify_threshold(&self, threshold: usize, valid: bool) -> (result: Result<
        (),
        CertificateError,
    >)
        ensures
            result == if self.spec_power() >= threshold {
                if valid {
                    Ok::<(), CertificateError>(())
                } else {
                    Err(CertificateError::CertificateInvalid)
                }
            } else {
                Err(CertificateError::NotEnoughSigners)
            },
    {
        if self.power() >= threshold {
            self.verify_raw(valid)
        } else {
            Err(CertificateError::NotEnoughSigners)
        }
    }

    /// `verify_threshold` with the plurality of `view` as threshold.
    pub fn verify_plurality(&self, view: &view::View, valid: bool) -> (result: Result<
        (),
        CertificateError,
    >)
        ensures
            result == if self.spec_power() >= view.spec_plurality() {
                if valid {
                    Ok::<(), CertificateError>(())
                } else {
                    Err(CertificateError::CertificateInvalid)
                }
            } else {
                Err(CertificateError::NotEnoughSigners)
            },
    {
        self.verify_threshold(view.plurality(), valid)
    }

    /// `verify_threshold` with the quorum of `view` as threshold.
    pub fn verify_quorum(&self, view: &view::View, valid: bool) -> (result: Result<
        (),
        CertificateError,
    >)
        ensures
            result == if self.spec_power() >= view.spec_quorum() {
                if valid {
                    Ok::<(), CertificateError>(())
                } else {
                    Err(CertificateError::CertificateInvalid)
                }
            } else {
                Err(CertificateError::NotEnoughSigners)
            },
    {
        self.verify_threshold(view.quorum(), valid)
    }

    /// The number of members that signed at least one of `certificates`, which
    /// is the sum of their powers, provided that no member signed two of them;
    /// `OverlappingSigners` otherwise. The
    /// certificates are taken in order, and each must come from the same view as
    /// the first unless two of those before it already overlap.
    pub fn distinct_power(certificates: &Vec<Certificate>) -> (result: Result<
        usize,
        CertificateError,
    >)
        requires
            forall|i: int|
                0 <= i < certificates@.len() && (#[trigger] certificates@[i]).spec_signers().len()
                    != certificates@[0].spec_signers().len() ==> overlapping(
                    certificates@.map_values(|c: Certificate| c.spec_signers()).take(i),
                ),
        ensures
            ({
                let bits = certificates@.map_values(|c: Certificate| c.spec_signers());
                match result {
                    Ok(power) => !overlapping(bits) && power == if certificates@.len() == 0 {
                        0
                    } else {
                        union_count(bits, certificates@[0].spec_signers().len())
                    } && power == total_power(certificates@),
                    Err(error) => error == CertificateError::OverlappingSigners && overlapping(bits),
                }
            }),
    {
        let ghost bits = certificates@.map_values(|c: Certificate| c.spec_signers());
        if certificates.len() == 0 {
            return Ok(0);
        }
        let members = bits_len(&certificates[0].signers);
        let mut cover: Vec<bool> = Vec::new();
        let mut k: usize = 0;
        while k < members
            invariant
                0 <= k <= members,
                cover@ == Seq::new(k as nat, |j: int| false),
            decreases members - k,
        {
            cover.push(false);
            k = k + 1;
            assert(cover@ =~= Seq::new(k as nat, |j: int| false));
        }

        let mut i: usize = 0;
        while i < certificates.len()
            invariant
                bits == certificates@.map_values(|c: Certificate| c.spec_signers()),
                certificates@.len() > 0,
                members == bits[0].len(),
                forall|c: int|
                    0 <= c < certificates@.len() && (#[trigger] certificates@[c]).spec_signers().len()
                        != certificates@[0].spec_signers().len() ==> overlapping(bits.take(c)),
                forall|c: int| 0 <= c < i ==> (#[trigger] bits[c]).len() == members,
                0 <= i <= certificates@.len(),
                cover@.len() == members,
                forall|k: int| 0 <= k < members ==> cover@[k] == covered(bits, i as int, k),
                !overlapping(bits.take(i as int)),
            decreases certificates@.len() - i,
        {
            assert(bits[i as int] == certificates@[i as int].spec_signers());
            assert(bits[i as int].len() == members);
            let mut k: usize = 0;
            while k < members
                invariant
                    bits == certificates@.map_values(|c: Certificate| c.spec_signers()),
                    members == bits[0].len(),
                    forall|c: int| 0 <= c <= i ==> (#[trigger] bits[c]).len() == members,
                    0 <= i < certificates@.len(),
                    bits[i as int] == certificates@[i as int].spec_signers(),
                    0 <= k <= members,
                    cover@.len() == members,
                    forall|j: int| 0 <= j < k ==> cover@[j] == covered(bits, i + 1, j),
                    forall|j: int| k <= j < members ==> cover@[j] == covered(bits, i as int, j),
                    forall|j: int| 0 <= j < k ==> !(covered(bits, i as int, j) && #[trigger] bits[i as int][j]),
                decreases members - k,
            {
                let bit = bits_get(&certificates[i].signers, k) == Some(true);
                if cover[k] && bit {
                    proof {
                        let c = choose|c: int| 0 <= c < i && #[trigger] bits[c][k as int];
                        assert(bits[c][k as int] && bits[i as int][k as int]);
                    }
                    return Err(CertificateError::OverlappingSigners);
                }
                proof {
                    if bit {
                        assert(bits[i as int][k as int]);
                    }
                    if covered(bits, i as int, k as int) {
                        let c = choose|c: int| 0 <= c < i && #[trigger] bits[c][k as int];
                        assert(bits[c][k as int]);
                    }
                }
                let value = cover[k] || bit;
                cover.set(k, value);
                k = k + 1;
            }
            proof {
                assert forall|a: int, b: int, j: int|
                    0 <= a < b < i + 1 && 0 <= j < bits.take(i + 1)[a].len() && #[trigger] bits.take(
                        i + 1,
                    )[a][j] implies !#[trigger] bits.take(i + 1)[b][j] by {
                    if b < i {
                        assert(bits.take(i as int)[a] == bits[a]);
                        assert(bits.take(i as int)[b] == bits[b]);
                    } else {
                        assert(bits[a][j]);
                        assert(covered(bits, i as int, j));
                    }
                }
            }
            i = i + 1;
        }
        assert(bits.take(i as int) =~= bits);
        let result = Self::count_true(&cover);
        assert(cover@ =~= Seq::new(members as nat, |k: int| covered(bits, bits.len() as int, k)));
        proof {
            lemma_distinct_power_adds_up(certificates@);
        }
        Ok(result)
    }

    /// The number of `true` in `flags`.
    fn count_true(flags: &Vec<bool>) -> (result: usize)
        ensures
            result == count_set(flags@),
    {
        let mut count: usize = 0;
        let mut index: usize = 0;
        while index < flags.len()
            invariant
                0 <= index <= flags@.len(),
                count == count_set(flags@.take(index as int)),
            decreases flags@.len() - index,
        {
            proof {
                crate::crypto::bits::lemma_count_set_bound(flags@.take(index as int));
                assert(flags@.take(index + 1).drop_last() =~= flags@.take(index as int));
            }
            if flags[index] {
                count = count + 1;
            }
            index = index + 1;
        }
        assert(flags@.take(flags@.len() as int) =~= flags@);
        count
    }
}

} // verus!

verus! {

/// The powers of the certificates, added up.
pub open spec fn total_power(certificates: Seq<Certificate>) -> nat
    decreases certificates.len(),
{
    if certificates.len() == 0 {
        0
    } else {
        total_power(certificates.drop_last()) + certificates.last().spec_power()
    }
}

proof fn lemma_total_power(certificates: Seq<Certificate>)
    ensures
        total_power(certificates) == total_count(certificates.map_values(|c: Certificate| c.spec_signers())),
    decreases certificates.len(),
{
    if certificates.len() > 0 {
        lemma_total_power(certificates.drop_last());
        assert(certificates.drop_last().map_values(|c: Certificate| c.spec_signers())
            =~= certificates.map_values(|c: Certificate| c.spec_signers()).drop_last());
    }
}

/// The number of signers of each bit vector, added up.
pub open spec fn total_count(bits: Seq<Seq<bool>>) -> nat
    decreases bits.len(),
{
    if bits.len() == 0 {
        0
    } else {
        total_count(bits.drop_last()) + count_set(bits.last())
    }
}

proof fn lemma_count_set_or(a: Seq<bool>, b: Seq<bool>)
    requires
        a.len() == b.len(),
        forall|k: int| 0 <= k < a.len() ==> !(a[k] && b[k]),
    ensures
        count_set(Seq::new(a.len(), |k: int| a[k] || b[k])) == count_set(a) + count_set(b),
    decreases a.len(),
{
    let or = Seq::new(a.len(), |k: int| a[k] || b[k]);
    if a.len() > 0 {
        let n = a.len() - 1;
        lemma_count_set_or(a.drop_last(), b.drop_last());
        assert(or.drop_last() =~= Seq::new(
            a.drop_last().len(),
            |k: int| a.drop_last()[k] || b.drop_last()[k],
        ));
    }
}

/// The count of a union of non-overlapping bit vectors of the same length is
/// the sum of their counts.
proof fn lemma_union_count(bits: Seq<Seq<bool>>, length: nat)
    requires
        forall|c: int| 0 <= c < bits.len() ==> (#[trigger] bits[c]).len() == length,
        !overlapping(bits),
    ensures
        union_count(bits, length) == total_count(bits),
    decreases bits.len(),
{
    if bits.len() == 0 {
        let none = Seq::new(length, |k: int| covered(bits, bits.len() as int, k));
        assert(none =~= Seq::new(length, |k: int| false));
        lemma_count_zero(length);
    } else {
        let rest = bits.drop_last();
        assert(!overlapping(rest)) by {
            if overlapping(rest) {
                let (i, j, k) = choose|i: int, j: int, k: int|
                    0 <= i < j < rest.len() && 0 <= k < rest[i].len() && #[trigger] rest[i][k]
                        && #[trigger] rest[j][k];
                assert(bits[i][k] && bits[j][k]);
            }
        }
        lemma_union_count(rest, length);
        let previous = Seq::new(length, |k: int| covered(rest, rest.len() as int, k));
        let last = bits.last();
        assert forall|k: int| 0 <= k < length implies !(previous[k] && last[k]) by {
            if previous[k] && last[k] {
                let i = choose|i: int| 0 <= i < rest.len() && #[trigger] rest[i][k];
                assert(bits[i][k] && bits[bits.len() - 1][k]);
            }
        }
        lemma_count_set_or(previous, last);
        let all = Seq::new(length, |k: int| covered(bits, bits.len() as int, k));
        assert forall|k: int| 0 <= k < length implies all[k] == (previous[k] || last[k]) by {
            if covered(bits, bits.len() as int, k) {
                let i = choose|i: int| 0 <= i < bits.len() && #[trigger] bits[i][k];
                if i < bits.len() - 1 {
                    assert(rest[i][k]);
                }
            }
            if previous[k] {
                let i = choose|i: int| 0 <= i < rest.len() && #[trigger] rest[i][k];
                assert(bits[i][k]);
            }
        }
        assert(all =~= Seq::new(length, |k: int| previous[k] || last[k]));
    }
}

proof fn lemma_count_zero(length: nat)
    ensures
        count_set(Seq::new(length, |k: int| false)) == 0,
    decreases length,
{
    if length > 0 {
        lemma_count_zero((length - 1) as nat);
        assert(Seq::new(length, |k: int| false).drop_last() =~= Seq::new(
            (length - 1) as nat,
            |k: int| false,
        ));
    }
}

/// When no member signed two of the certificates, their distinct power is the
/// sum of their powers.
pub proof fn lemma_distinct_power_adds_up(certificates: Seq<Certificate>)
    requires
        certificates.len() > 0,
        forall|i: int|
            0 <= i < certificates.len() ==> (#[trigger] certificates[i]).spec_signers().len()
                == certificates[0].spec_signers().len(),
        !overlapping(certificates.map_values(|c: Certificate| c.spec_signers())),
    ensures
        union_count(
            certificates.map_values(|c: Certificate| c.spec_signers()),
            certificates[0].spec_signers().len(),
        ) == total_count(certificates.map_values(|c: Certificate| c.spec_signers())),
        union_count(
            certificates.map_values(|c: Certificate| c.spec_signers()),
            certificates[0].spec_signers().len(),
        ) == total_power(certificates),
{
    lemma_total_power(certificates);
    let bits = certificates.map_values(|c: Certificate| c.spec_signers());
    assert forall|c: int| 0 <= c < bits.len() implies (#[trigger] bits[c]).len()
        == certificates[0].spec_signers().len() by {
        assert(bits[c] == certificates[c].spec_signers());
    }
    lemma_union_count(bits, certificates[0].spec_signers().len());
}

/// Setting one clear bit adds one to the count.
proof fn lemma_count_set_raise(bits: Seq<bool>, k: int)
    requires
        0 <= k < bits.len(),
        !bits[k],
    ensures
        count_set(bits.update(k, true)) == count_set(bits) + 1,
    decreases bits.len(),
{
    let raised = bits.update(k, true);
    if k == bits.len() - 1 {
        assert(raised.drop_last() =~= bits.drop_last());
    } else {
        lemma_count_set_raise(bits.drop_last(), k);
        assert(raised.drop_last() =~= bits.drop_last().update(k, true));
    }
}

/// Distinct signers, all members of a view whose members are distinct, set as
/// many bits as there are signers.
pub proof fn lemma_signer_count(view: view::View, ids: Seq<Identity>)
    requires
        view.member_ids().no_duplicates(),
        distinct_identities(ids),
        forall|j: int| 0 <= j < ids.len() ==> view.member_ids().contains(#[trigger] ids[j]@),
    ensures
        count_set(signer_bits(view, ids)) == ids.len(),
    decreases ids.len(),
{
    let members = view.spec_members();
    if ids.len() == 0 {
        lemma_count_zero(members.len());
        assert(signer_bits(view, ids) =~= Seq::new(members.len(), |k: int| false));
    } else {
        let rest = ids.drop_last();
        let last = ids.last();
        assert forall|j: int| 0 <= j < rest.len() implies view.member_ids().contains(
            #[trigger] rest[j]@,
        ) by {
            assert(rest[j] == ids[j]);
        }
        assert forall|a: int, b: int| 0 <= a < b < rest.len() implies #[trigger] rest[a]@
            != #[trigger] rest[b]@ by {
            assert(rest[a] == ids[a] && rest[b] == ids[b]);
        }
        lemma_signer_count(view, rest);
        assert(view.member_ids().contains(ids[ids.len() - 1]@));
        let k = view.member_ids().index_of(last@);
        assert(members[k]@ == last@);
        let before = signer_bits(view, rest);
        assert(!before[k]) by {
            if lists(rest, members[k]@) {
                let j = choose|j: int| 0 <= j < rest.len() && #[trigger] rest[j]@ == members[k]@;
                assert(ids[j]@ == ids[ids.len() - 1]@);
            }
        }
        assert forall|i: int| 0 <= i < members.len() implies #[trigger] signer_bits(view, ids)[i]
            == before.update(k, true)[i] by {
            if i == k {
                assert(ids[ids.len() - 1]@ == members[i]@);
            } else {
                assert(view.member_ids()[i] != view.member_ids()[k]);
                if lists(ids, members[i]@) {
                    let j = choose|j: int| 0 <= j < ids.len() && #[trigger] ids[j]@ == members[i]@;
                    assert(j != ids.len() - 1);
                    assert(rest[j] == ids[j]);
                }
                if lists(rest, members[i]@) {
                    let j = choose|j: int| 0 <= j < rest.len() && #[trigger] rest[j]@ == members[i]@;
                    assert(ids[j] == rest[j]);
                }
            }
        }
        assert(signer_bits(view, ids) =~= before.update(k, true));
        lemma_count_set_raise(before, k);
    }
}

/// The members listed for a certificate are exactly the members whose signer
/// bit is set, in order: each member with a set bit is listed, each listed
/// identity is a member with a set bit, and there are as many of them as there
/// are set bits among the members' positions.
pub proof fn lemma_selected_members(members: Seq<Identity>, bits: Seq<bool>)
    requires
        members.len() <= bits.len(),
    ensures
        selected(members, bits).len() == count_set(bits.take(members.len() as int)),
        forall|i: int| 0 <= i < members.len() && bits[i] ==> selected(members, bits).contains(#[trigger] members[i]),
        forall|x: Identity|
            #[trigger] selected(members, bits).contains(x) ==> exists|i: int|
                0 <= i < members.len() && bits[i] && members[i] == x,
    decreases members.len(),
{
    if members.len() > 0 {
        let n = members.len() as int;
        let front = members.drop_last();
        lemma_selected_members(front, bits);
        let before = selected(front, bits);
        let tail = if bits[n - 1] {
            seq![members.last()]
        } else {
            Seq::<Identity>::empty()
        };
        assert(selected(members, bits) == before + tail);
        assert(bits.take(n).drop_last() =~= bits.take(n - 1));
        assert(bits.take(n).last() == bits[n - 1]);
        assert forall|i: int| 0 <= i < members.len() && bits[i] implies selected(members, bits).contains(
            #[trigger] members[i],
        ) by {
            if i < n - 1 {
                assert(front[i] == members[i]);
                assert(before.contains(front[i]));
                let j = choose|j: int| 0 <= j < before.len() && before[j] == front[i];
                assert(selected(members, bits)[j] == members[i]);
            } else {
                assert(selected(members, bits)[before.len() as int] == members[i]);
            }
        }
        assert forall|x: Identity| #[trigger] selected(members, bits).contains(x) implies exists|i: int|
            0 <= i < members.len() && bits[i] && members[i] == x by {
            let j = choose|j: int| 0 <= j < selected(members, bits).len() && selected(members, bits)[j] == x;
            if j < before.len() {
                assert(before[j] == x);
                assert(before.contains(x));
                let i = choose|i: int| 0 <= i < front.len() && bits[i] && front[i] == x;
                assert(members[i] == x);
            } else {
                assert(members[n - 1] == x);
            }
        }
    }
}

/// A certificate over a view lists as many signers as its power.
pub proof fn lemma_signers_count_power(certificate: Certificate, view: view::View)
    requires
        view.spec_members().len() == certificate.spec_signers().len(),
    ensures
        selected(view.spec_members(), certificate.spec_signers()).len() == certificate.spec_power(),
{
    lemma_selected_members(view.spec_members(), certificate.spec_signers());
    assert(certificate.spec_signers().take(view.spec_members().len() as int) =~= certificate.spec_signers());
}

} // verus!
