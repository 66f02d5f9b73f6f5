use vstd::prelude::*;

use std::collections::BTreeSet;

use crate::{
    account::Id,
    commit::{exceptions::elements, Payload},
    crypto::{
        aggregator::{lemma_recorded_ids, share_identities, share_ids, Aggregator},
        certificate::{signer_bits, Certificate},
        Digest, Identity, MultiSignature,
    },
    discovery::client::ClientState,
    view,
};

verus! {

broadcast use vstd::std_specs::btree::group_btree_axioms;

/// What the members of a view sign to attest that a batch is complete: the
/// view, the root of the batch, and the ids whose payloads were not applied.
pub struct BatchCompletionStatement {
    pub view: Digest,
    pub root: Digest,
    pub exceptions: BTreeSet<Id>,
}

impl BatchCompletionStatement {
    pub fn new(view: Digest, root: Digest, exceptions: BTreeSet<Id>) -> (result:
        BatchCompletionStatement)
        ensures
            result.view == view,
            result.root == root,
            result.exceptions@ == exceptions@,
    {
        BatchCompletionStatement { view, root, exceptions }
    }
}

/// The share of one replica in the completion of a batch: the exceptions it
/// saw, and its signature on the corresponding statement.
pub struct BatchCompletionShard {
    exceptions: BTreeSet<Id>,
    signature: MultiSignature,
}

/// Why a completion shard is refused.
#[derive(Debug, Clone, Copy, PartialEq, Eq, Structural)]
pub enum BatchCompletionShardError {
    ForeignException,
    SignatureInvalid,
}

/// The payloads are sorted by id.
pub open spec fn sorted_by_id(payloads: Seq<Payload>) -> bool {
    forall|i: int, j: int|
        0 <= i <= j < payloads.len() ==> (#[trigger] payloads[i]).spec_entry().id
            <= (#[trigger] payloads[j]).spec_entry().id
}

/// Some payload has id `id`.
pub open spec fn has_id(payloads: Seq<Payload>, id: Id) -> bool {
    exists|i: int| 0 <= i < payloads.len() && (#[trigger] payloads[i]).spec_entry().id == id
}

/// Whether a payload of `payloads`, sorted by id, has id `id`.
pub fn contains_id(payloads: &Vec<Payload>, id: Id) -> (result: bool)
    requires
        sorted_by_id(payloads@),
    ensures
        result == has_id(payloads@, id),
{
    let mut low: usize = 0;
    let mut high: usize = payloads.len();
    while low < high
        invariant
            sorted_by_id(payloads@),
            0 <= low <= high <= payloads@.len(),
            forall|i: int| 0 <= i < low ==> (#[trigger] payloads@[i]).spec_entry().id < id,
            forall|i: int| high <= i < payloads@.len() ==> (#[trigger] payloads@[i]).spec_entry().id > id,
        decreases high - low,
    {
        let middle = low + (high - low) / 2;
        let key = payloads[middle].id();
        if key == id {
            return true;
        } else if key < id {
            proof {
                assert forall|i: int| 0 <= i < middle + 1 implies (#[trigger] payloads@[i]).spec_entry().id
                    < id by {
                    assert(payloads@[i].spec_entry().id <= payloads@[middle as int].spec_entry().id);
                }
            }
            low = middle + 1;
        } else {
            proof {
                assert forall|i: int|
                    middle <= i < payloads@.len() implies (#[trigger] payloads@[i]).spec_entry().id
                    > id by {
                    assert(payloads@[middle as int].spec_entry().id <= payloads@[i].spec_entry().id);
                }
            }
            high = middle;
        }
    }
    false
}

impl BatchCompletionShard {
    pub closed spec fn spec_exceptions(&self) -> Set<Id> {
        self.exceptions@
    }

    pub closed spec fn spec_signature(&self) -> MultiSignature {
        self.signature
    }

    /// The shard of the exceptions `exceptions` (duplicates count once), given
    /// `signature`, the replica's signature on the statement of those exceptions.
    pub fn new(exceptions: &Vec<Id>, signature: MultiSignature) -> (result: BatchCompletionShard)
        ensures
            result.spec_exceptions() == exceptions@.to_set(),
            result.spec_signature() == signature,
    {
        let mut set: BTreeSet<Id> = BTreeSet::new();
        let mut index: usize = 0;
        while index < exceptions.len()
            invariant
                0 <= index <= exceptions@.len(),
                set@ == exceptions@.take(index as int).to_set(),
            decreases exceptions@.len() - index,
        {
            set.insert(exceptions[index]);
            proof {
                assert(exceptions@.take(index + 1) =~= exceptions@.take(index as int).push(
                    exceptions@[index as int],
                ));
                exceptions@.take(index as int).lemma_push_to_set_commute(exceptions@[index as int]);
                assert(exceptions@.take(index as int).push(exceptions@[index as int]).to_set() =~= exceptions@.take(index as int).to_set().insert(exceptions@[index as int]));
            }
            index = index + 1;
        }
        assert(exceptions@.take(index as int) =~= exceptions@);
        BatchCompletionShard { exceptions: set, signature }
    }

    pub fn exceptions(&self) -> (result: BTreeSet<Id>)
        ensures
            result@ == self.spec_exceptions(),
    {
        self.exceptions.clone()
    }

    pub fn signature(&self) -> (result: &MultiSignature)
        ensures
            *result == self.spec_signature(),
    {
        &self.signature
    }

    /// Checks the shard against the payloads of its batch, sorted by id: every
    /// exception must be the id of one of them; then `valid`, the outcome of
    /// verifying the signature of the completer, decides.
    pub fn validate(&self, payloads: &Vec<Payload>, valid: bool) -> (result: Result<
        (),
        BatchCompletionShardError,
    >)
        requires
            sorted_by_id(payloads@),
        ensures
            result == if !(forall|id: Id| #[trigger] self.spec_exceptions().contains(id) ==> has_id(payloads@, id)) {
                Err(BatchCompletionShardError::ForeignException)
            } else if !valid {
                Err(BatchCompletionShardError::SignatureInvalid)
            } else {
                Ok::<(), BatchCompletionShardError>(())
            },
    {
        let ids = elements(&self.exceptions);
        let mut index: usize = 0;
        while index < ids.len()
            invariant
                sorted_by_id(payloads@),
                ids@.to_set() == self.spec_exceptions(),
                0 <= index <= ids@.len(),
                forall|j: int| 0 <= j < index ==> has_id(payloads@, #[trigger] ids@[j]),
            decreases ids@.len() - index,
        {
            if !contains_id(payloads, ids[index]) {
                proof {
                    assert(self.spec_exceptions().contains(ids@[index as int]));
                }
                return Err(BatchCompletionShardError::ForeignException);
            }
            index = index + 1;
        }
        proof {
            assert forall|id: Id| #[trigger] self.spec_exceptions().contains(id) implies has_id(payloads@, id) by {
                assert(ids@.to_set().contains(id));
                let j = ids@.index_of(id);
                assert(has_id(payloads@, ids@[j]));
            }
        }
        if !valid {
            return Err(BatchCompletionShardError::SignatureInvalid);
        }
        Ok(())
    }
}

/// A certificate, by a quorum of a view, that a batch is complete save for its exceptions.
pub struct BatchCompletion {
    view: Digest,
    root: Digest,
    exceptions: BTreeSet<Id>,
    certificate: Certificate,
}

/// Why a batch completion is refused.
#[derive(Debug, Clone, Copy, PartialEq, Eq, Structural)]
pub enum BatchCompletionError {
    ViewUnknown,
    CertificateInvalid,
}

impl BatchCompletion {
    pub closed spec fn spec_view(&self) -> Digest {
        self.view
    }

    pub closed spec fn spec_root(&self) -> Digest {
        self.root
    }

    pub closed spec fn spec_exceptions(&self) -> Set<Id> {
        self.exceptions@
    }

    pub closed spec fn spec_certificate(&self) -> Certificate {
        self.certificate
    }

    pub fn root(&self) -> (result: Digest)
        ensures
            result == self.spec_root(),
    {
        self.root
    }

    /// Whether the payload of `id` is an exception to the completion.
    pub fn excepts(&self, id: Id) -> (result: bool)
        ensures
            result == self.spec_exceptions().contains(id),
    {
        self.exceptions.contains(&id)
    }

    /// Checks the completion against the views known to `discovery`: its view
    /// must be known, and its certificate must have a quorum of signers of that
    /// view and a multi-signature that verified (`valid`) on its statement.
    pub fn validate(&self, discovery: &ClientState, valid: bool) -> (result: Result<
        (),
        BatchCompletionError,
    >)
        requires
            discovery.wf(),
        ensures
            result == if !discovery.database.views.spec_map().contains_key(self.spec_view()@) {
                Err(BatchCompletionError::ViewUnknown)
            } else if self.spec_certificate().spec_power()
                >= discovery.database.views.spec_map()[self.spec_view()@].spec_quorum() && valid {
                Ok::<(), BatchCompletionError>(())
            } else {
                Err(BatchCompletionError::CertificateInvalid)
            },
    {
        let view = match discovery.view(&self.view) {
            Some(view) => view,
            None => return Err(BatchCompletionError::ViewUnknown),
        };
        match self.certificate.verify_quorum(view, valid) {
            Ok(()) => Ok(()),
            Err(_) => Err(BatchCompletionError::CertificateInvalid),
        }
    }
}

/// The shares received for one set of exceptions reach a quorum of the view.
pub open spec fn reaches_quorum(view: view::View, aggregator: Aggregator<BatchCompletionStatement>) -> bool {
    aggregator.spec_components().len() >= view.spec_quorum()
}

/// The members whose shares were gathered for the set of exceptions `key`.
pub open spec fn group_supporters(
    groups: Seq<(Set<Id>, Aggregator<BatchCompletionStatement>)>,
    key: Set<Id>,
) -> Set<Seq<u8>> {
    Set::new(
        |id: Seq<u8>|
            exists|i: int|
                0 <= i < groups.len() && (#[trigger] groups[i]).0 == key && share_ids(
                    groups[i].1.spec_components(),
                ).contains(id),
    )
}

/// The groups have distinct sets of exceptions.
pub open spec fn distinct_keys(groups: Seq<(Set<Id>, Aggregator<BatchCompletionStatement>)>) -> bool {
    forall|i: int, j: int| 0 <= i < j < groups.len() ==> (#[trigger] groups[i]).0 != (#[trigger] groups[j]).0
}

proof fn lemma_supporters_at(groups: Seq<(Set<Id>, Aggregator<BatchCompletionStatement>)>, k: int)
    requires
        distinct_keys(groups),
        0 <= k < groups.len(),
    ensures
        group_supporters(groups, groups[k].0) == share_ids(groups[k].1.spec_components()).to_set(),
{
    let key = groups[k].0;
    assert forall|id: Seq<u8>| #[trigger] group_supporters(groups, key).contains(id) <==> share_ids(
        groups[k].1.spec_components(),
    ).to_set().contains(id) by {
        if group_supporters(groups, key).contains(id) {
            let i = choose|i: int|
                0 <= i < groups.len() && (#[trigger] groups[i]).0 == key && share_ids(
                    groups[i].1.spec_components(),
                ).contains(id);
            if i != k {
                if i < k {
                    assert(groups[i].0 != groups[k].0);
                } else {
                    assert(groups[k].0 != groups[i].0);
                }
            }
        }
    }
    assert(group_supporters(groups, key) =~= share_ids(groups[k].1.spec_components()).to_set());
}

proof fn lemma_supporters_absent(groups: Seq<(Set<Id>, Aggregator<BatchCompletionStatement>)>, key: Set<Id>)
    requires
        forall|i: int| 0 <= i < groups.len() ==> (#[trigger] groups[i]).0 != key,
    ensures
        group_supporters(groups, key) == Set::<Seq<u8>>::empty(),
{
    assert(group_supporters(groups, key) =~= Set::<Seq<u8>>::empty());
}

/// Recording a share of `completer` for the exceptions `shard_key` adds
/// `completer` to the supporters of `shard_key` and to no others.
proof fn lemma_add_supporters(
    old_groups: Seq<(Set<Id>, Aggregator<BatchCompletionStatement>)>,
    groups: Seq<(Set<Id>, Aggregator<BatchCompletionStatement>)>,
    completer: Identity,
    signature: MultiSignature,
    shard_key: Set<Id>,
)
    requires
        distinct_keys(old_groups),
        distinct_keys(groups),
        if exists|i: int| 0 <= i < old_groups.len() && (#[trigger] old_groups[i]).0 == shard_key {
            &&& groups.len() == old_groups.len()
            &&& forall|i: int|
                0 <= i < groups.len() ==> if (#[trigger] old_groups[i]).0 == shard_key {
                    groups[i].0 == shard_key && groups[i].1.spec_components()
                        == crate::crypto::aggregator::recorded(
                        old_groups[i].1.spec_components(),
                        completer,
                        signature,
                    )
                } else {
                    groups[i] == old_groups[i]
                }
        } else {
            &&& groups.len() == old_groups.len() + 1
            &&& groups.take(old_groups.len() as int) == old_groups
            &&& groups.last().0 == shard_key
            &&& groups.last().1.spec_components() == seq![(completer, signature)]
        },
    ensures
        forall|key: Set<Id>|
            #[trigger] group_supporters(groups, key) == if key == shard_key {
                group_supporters(old_groups, key).insert(completer@)
            } else {
                group_supporters(old_groups, key)
            },
{
    assert forall|key: Set<Id>|
        #[trigger] group_supporters(groups, key) == if key == shard_key {
            group_supporters(old_groups, key).insert(completer@)
        } else {
            group_supporters(old_groups, key)
        } by {
        if exists|i: int| 0 <= i < old_groups.len() && (#[trigger] old_groups[i]).0 == shard_key {
            if exists|i: int| 0 <= i < old_groups.len() && (#[trigger] old_groups[i]).0 == key {
                let k = choose|i: int| 0 <= i < old_groups.len() && (#[trigger] old_groups[i]).0 == key;
                lemma_supporters_at(old_groups, k);
                if key == shard_key {
                    assert(groups[k].0 == key);
                } else {
                    assert(groups[k] == old_groups[k]);
                }
                lemma_supporters_at(groups, k);
                if key == shard_key {
                    lemma_recorded_ids(old_groups[k].1.spec_components(), completer, signature);
                }
            } else {
                lemma_supporters_absent(old_groups, key);
                assert forall|i: int| 0 <= i < groups.len() implies (#[trigger] groups[i]).0 != key by {
                    if old_groups[i].0 == shard_key {
                        assert(groups[i].0 == shard_key);
                    } else {
                        assert(groups[i] == old_groups[i]);
                    }
                }
                lemma_supporters_absent(groups, key);
            }
        } else {
            let n = old_groups.len() as int;
            assert forall|i: int| 0 <= i < n implies #[trigger] groups[i] == old_groups[i] by {
                assert(groups.take(n)[i] == groups[i]);
            }
            if key == shard_key {
                lemma_supporters_absent(old_groups, key);
                lemma_supporters_at(groups, n);
                let ids = share_ids(groups[n].1.spec_components());
                assert(ids =~= seq![completer@]);
                assert(ids.to_set() =~= Set::<Seq<u8>>::empty().insert(completer@)) by {
                    assert(ids.to_set().contains(completer@) ==> ids.contains(completer@));
                    assert(ids[0] == completer@);
                }
            } else {
                assert forall|id: Seq<u8>| #[trigger] group_supporters(groups, key).contains(id)
                    <==> group_supporters(old_groups, key).contains(id) by {
                    if group_supporters(groups, key).contains(id) {
                        let i = choose|i: int|
                            0 <= i < groups.len() && (#[trigger] groups[i]).0 == key && share_ids(
                                groups[i].1.spec_components(),
                            ).contains(id);
                        assert(i < n);
                    }
                    if group_supporters(old_groups, key).contains(id) {
                        let i = choose|i: int|
                            0 <= i < old_groups.len() && (#[trigger] old_groups[i]).0 == key && share_ids(
                                old_groups[i].1.spec_components(),
                            ).contains(id);
                        assert(groups[i] == old_groups[i]);
                    }
                }
                assert(group_supporters(groups, key) =~= group_supporters(old_groups, key));
            }
        }
    }
}

/// Gathers the completion shards of the members of a view for a batch,
/// separately for each set of exceptions, until one set reaches a quorum.
pub struct BatchCompletionAggregator {
    view: view::View,
    root: Digest,
    aggregators: Vec<(BTreeSet<Id>, Aggregator<BatchCompletionStatement>)>,
}

impl BatchCompletionAggregator {
    pub closed spec fn spec_view(&self) -> view::View {
        self.view
    }

    pub closed spec fn spec_root(&self) -> Digest {
        self.root
    }

    /// The groups of shares, each with its set of exceptions.
    pub closed spec fn groups(&self) -> Seq<(Set<Id>, Aggregator<BatchCompletionStatement>)> {
        self.aggregators@.map_values(
            |group: (BTreeSet<Id>, Aggregator<BatchCompletionStatement>)| (group.0@, group.1),
        )
    }

    /// Each set of exceptions has one group, whose shares are shares of the view.
    pub open spec fn wf(&self) -> bool {
        &&& forall|i: int, j: int|
            0 <= i < j < self.groups().len() ==> (#[trigger] self.groups()[i]).0 != (
            #[trigger] self.groups()[j]).0
        &&& forall|i: int|
            0 <= i < self.groups().len() ==> (#[trigger] self.groups()[i]).1.wf()
                && self.groups()[i].1.spec_view().spec_members() == self.spec_view().spec_members()
                && self.groups()[i].1.spec_components().len() > 0
    }

    /// A set of exceptions has gathered a quorum of shares exactly when at least
    /// a quorum of distinct members, and at least one, sent shares for it.
    pub proof fn lemma_complete_iff_supported(&self)
        requires
            self.wf(),
        ensures
            forall|key: Set<Id>| #[trigger] self.supporters(key).finite(),
            self.spec_complete() <==> exists|key: Set<Id>|
                #[trigger] self.supporters(key).len() >= self.spec_view().spec_quorum()
                    && self.supporters(key).len() > 0,
    {
        let groups = self.groups();
        assert forall|key: Set<Id>| #[trigger] self.supporters(key).finite() by {
            if exists|i: int| 0 <= i < groups.len() && (#[trigger] groups[i]).0 == key {
                let k = choose|i: int| 0 <= i < groups.len() && (#[trigger] groups[i]).0 == key;
                lemma_supporters_at(groups, k);
            } else {
                lemma_supporters_absent(groups, key);
            }
        }
        assert forall|k: int| 0 <= k < groups.len() implies #[trigger] self.supporters(groups[k].0).len()
            == groups[k].1.spec_components().len() by {
            lemma_supporters_at(groups, k);
            let ids = share_ids(groups[k].1.spec_components());
            ids.unique_seq_to_set();
        }
        if self.spec_complete() {
            let k = choose|i: int|
                0 <= i < groups.len() && reaches_quorum(self.spec_view(), #[trigger] groups[i].1);
            assert(self.supporters(groups[k].0).len() == groups[k].1.spec_components().len());
        }
        if exists|key: Set<Id>|
            #[trigger] self.supporters(key).len() >= self.spec_view().spec_quorum()
                && self.supporters(key).len() > 0 {
            let key = choose|key: Set<Id>|
                #[trigger] self.supporters(key).len() >= self.spec_view().spec_quorum()
                    && self.supporters(key).len() > 0;
            if exists|i: int| 0 <= i < groups.len() && (#[trigger] groups[i]).0 == key {
                let k = choose|i: int| 0 <= i < groups.len() && (#[trigger] groups[i]).0 == key;
                assert(self.supporters(groups[k].0).len() == groups[k].1.spec_components().len());
                assert(reaches_quorum(self.spec_view(), groups[k].1));
            } else {
                lemma_supporters_absent(groups, key);
                assert(Set::<Seq<u8>>::empty().len() == 0);
            }
        }
    }

    /// The members whose shares were gathered for the set of exceptions `key`.
    pub open spec fn supporters(&self, key: Set<Id>) -> Set<Seq<u8>> {
        group_supporters(self.groups(), key)
    }

    /// Some set of exceptions has gathered a quorum of shares.
    pub open spec fn spec_complete(&self) -> bool {
        exists|i: int|
            0 <= i < self.groups().len() && reaches_quorum(self.spec_view(), #[trigger] self.groups()[i].1)
    }

    pub fn new(view: view::View, root: Digest) -> (result: BatchCompletionAggregator)
        ensures
            result.wf(),
            result.spec_view() == view,
            result.spec_root() == root,
            result.groups() == Seq::<(Set<Id>, Aggregator<BatchCompletionStatement>)>::empty(),
            forall|key: Set<Id>| #[trigger] result.supporters(key) == Set::<Seq<u8>>::empty(),
    {
        let result = BatchCompletionAggregator { view, root, aggregators: Vec::new() };
        assert(result.groups() =~= Seq::<(Set<Id>, Aggregator<BatchCompletionStatement>)>::empty());
        assert forall|key: Set<Id>| #[trigger] result.supporters(key) == Set::<Seq<u8>>::empty() by {
            lemma_supporters_absent(result.groups(), key);
        }
        result
    }

    /// Whether two sets of ids are equal.
    fn same_ids(left: &BTreeSet<Id>, right: &BTreeSet<Id>) -> (result: bool)
        ensures
            result == (left@ == right@),
    {
        let left_ids = elements(left);
        let right_ids = elements(right);
        let mut index: usize = 0;
        while index < left_ids.len()
            invariant
                left_ids@.to_set() == left@,
                right_ids@.to_set() == right@,
                0 <= index <= left_ids@.len(),
                forall|j: int| 0 <= j < index ==> right@.contains(#[trigger] left_ids@[j]),
            decreases left_ids@.len() - index,
        {
            if !right.contains(&left_ids[index]) {
                return false;
            }
            index = index + 1;
        }
        let mut index: usize = 0;
        while index < right_ids.len()
            invariant
                left_ids@.to_set() == left@,
                right_ids@.to_set() == right@,
                forall|j: int| 0 <= j < left_ids@.len() ==> right@.contains(#[trigger] left_ids@[j]),
                0 <= index <= right_ids@.len(),
                forall|j: int| 0 <= j < index ==> left@.contains(#[trigger] right_ids@[j]),
            decreases right_ids@.len() - index,
        {
            if !left.contains(&right_ids[index]) {
                return false;
            }
            index = index + 1;
        }
        proof {
            assert forall|id: Id| left@.contains(id) implies right@.contains(id) by {
                assert(left_ids@.contains(id));
                let j = left_ids@.index_of(id);
                assert(right@.contains(left_ids@[j]));
            }
            assert forall|id: Id| right@.contains(id) implies left@.contains(id) by {
                assert(right_ids@.contains(id));
                let j = right_ids@.index_of(id);
                assert(left@.contains(right_ids@[j]));
            }
            assert(left@ =~= right@);
        }
        true
    }

    /// Records the share of `completer` for the exceptions of `shard`, in the
    /// group of those exceptions, which is created if needed. The shard must have
    /// been validated (see `BatchCompletionShard::validate`), and `completer` must
    /// be a member of the view.
    pub fn add(&mut self, completer: Identity, shard: BatchCompletionShard)
        requires
            old(self).wf(),
            old(self).spec_view().member_ids().contains(completer@),
        ensures
            final(self).wf(),
            final(self).spec_view() == old(self).spec_view(),
            final(self).spec_root() == old(self).spec_root(),
            ({
                let old_groups = old(self).groups();
                let groups = final(self).groups();
                let key = shard.spec_exceptions();
                if exists|i: int| 0 <= i < old_groups.len() && (#[trigger] old_groups[i]).0 == key {
                    &&& groups.len() == old_groups.len()
                    &&& forall|i: int|
                        0 <= i < groups.len() ==> if (#[trigger] old_groups[i]).0 == key {
                            groups[i].0 == key && groups[i].1.spec_components() == crate::crypto::aggregator::recorded(
                                old_groups[i].1.spec_components(),
                                completer,
                                shard.spec_signature(),
                            )
                        } else {
                            groups[i] == old_groups[i]
                        }
                } else {
                    &&& groups.len() == old_groups.len() + 1
                    &&& groups.take(old_groups.len() as int) == old_groups
                    &&& groups.last().0 == key
                    &&& groups.last().1.spec_components() == seq![(completer, shard.spec_signature())]
                }
            }),
            forall|key: Set<Id>|
                #[trigger] final(self).supporters(key) == if key == shard.spec_exceptions() {
                    old(self).supporters(key).insert(completer@)
                } else {
                    old(self).supporters(key)
                },
    {
        let ghost old_groups = self.groups();
        let exceptions = shard.exceptions();
        let BatchCompletionShard { exceptions: _, signature } = shard;
        let mut index: usize = 0;
        while index < self.aggregators.len()
            invariant
                self.groups() == old_groups,
                old_groups == old(self).groups(),
                self.spec_view() == old(self).spec_view(),
                self.spec_root() == old(self).spec_root(),
                self.wf(),
                old(self).spec_view().member_ids().contains(completer@),
                exceptions@ == shard.spec_exceptions(),
                signature == shard.spec_signature(),
                0 <= index <= old_groups.len(),
                self.aggregators@.len() == old_groups.len(),
                forall|i: int| 0 <= i < index ==> (#[trigger] old_groups[i]).0 != exceptions@,
            decreases old_groups.len() - index,
        {
            if Self::same_ids(&self.aggregators[index].0, &exceptions) {
                let ghost before = self.aggregators@;
                proof {
                    assert(old_groups[index as int].0 == exceptions@);
                    assert(self.aggregators@[index as int].1.spec_view().member_ids() =~= self.spec_view().member_ids());
                }
                let (key, mut aggregator) = self.aggregators.remove(index);
                let _ = aggregator.add_unchecked(completer, signature);
                self.aggregators.insert(index, (key, aggregator));
                proof {
                    let groups = self.groups();
                    assert(groups.len() == old_groups.len());
                    assert forall|i: int| 0 <= i < groups.len() && i != index implies groups[i] == old_groups[i] by {
                        assert(self.aggregators@[i] == before[i]);
                    }
                    assert forall|i: int, j: int|
                        0 <= i < j < groups.len() implies (#[trigger] groups[i]).0 != (#[trigger] groups[j]).0 by {
                        assert(groups[i].0 == old_groups[i].0);
                        assert(groups[j].0 == old_groups[j].0);
                    }
                    assert forall|i: int| 0 <= i < groups.len() && (#[trigger] old_groups[i]).0 == exceptions@ implies i == index by {
                        if i != index {
                            assert(old_groups[i].0 == old_groups[index as int].0);
                        }
                    }
                    lemma_add_supporters(old_groups, groups, completer, signature, exceptions@);
                }
                return;
            }
            index = index + 1;
        }
        let statement = BatchCompletionStatement::new(self.view.identifier(), self.root, exceptions.clone());
        let view = self.view.duplicate();
        let mut aggregator = Aggregator::new(view, statement);
        proof {
            assert(aggregator.spec_view().member_ids() =~= self.spec_view().member_ids());
        }
        let _ = aggregator.add_unchecked(completer, signature);
        self.aggregators.push((exceptions, aggregator));
        proof {
            let groups = self.groups();
            assert(groups.take(old_groups.len() as int) =~= old_groups);
            assert forall|i: int, j: int|
                0 <= i < j < groups.len() implies (#[trigger] groups[i]).0 != (#[trigger] groups[j]).0 by {
                if j < old_groups.len() {
                    assert(groups[i] == old_groups[i] && groups[j] == old_groups[j]);
                } else {
                    assert(groups[i] == old_groups[i]);
                }
            }
            assert forall|i: int| 0 <= i < groups.len() implies (#[trigger] groups[i]).1.wf()
                && groups[i].1.spec_view().spec_members() == self.spec_view().spec_members()
                && groups[i].1.spec_components().len() > 0 by {
                if i < old_groups.len() {
                    assert(groups[i] == old_groups[i]);
                }
            }
            lemma_add_supporters(old_groups, groups, completer, signature, exceptions@);
        }
    }

    /// The position of the first group that reached a quorum, if any.
    fn completed_position(&self) -> (result: Option<usize>)
        ensures
            match result {
                Some(position) => position < self.groups().len() && reaches_quorum(
                    self.spec_view(),
                    self.groups()[position as int].1,
                ),
                None => !self.spec_complete(),
            },
    {
        let quorum = self.view.quorum();
        let mut index: usize = 0;
        while index < self.aggregators.len()
            invariant
                quorum == self.spec_view().spec_quorum(),
                0 <= index <= self.groups().len(),
                self.aggregators@.len() == self.groups().len(),
                forall|i: int| 0 <= i < index ==> !reaches_quorum(self.spec_view(), #[trigger] self.groups()[i].1),
            decreases self.groups().len() - index,
        {
            if self.aggregators[index].1.multiplicity() >= quorum {
                assert(self.groups()[index as int].1 == self.aggregators@[index as int].1);
                return Some(index);
            }
            assert(self.groups()[index as int].1 == self.aggregators@[index as int].1);
            index = index + 1;
        }
        None
    }

    /// Whether some set of exceptions has gathered a quorum of shares.
    pub fn complete(&self) -> (result: bool)
        ensures
            result == self.spec_complete(),
    {
        self.completed_position().is_some()
    }

    /// The group that `finalize` certifies: the first to reach a quorum.
    pub fn completed(&self) -> (result: Option<&Aggregator<BatchCompletionStatement>>)
        ensures
            match result {
                Some(aggregator) => exists|i: int|
                    0 <= i < self.groups().len() && #[trigger] self.groups()[i].1 == *aggregator
                        && reaches_quorum(self.spec_view(), *aggregator),
                None => !self.spec_complete(),
            },
    {
        match self.completed_position() {
            Some(position) => {
                assert(self.groups()[position as int].1 == self.aggregators@[position as int].1);
                Some(&self.aggregators[position].1)
            },
            None => None,
        }
    }

    /// The completion certified by a group that reached a quorum, given
    /// `signature`, the aggregate of its signatures. Some group must have
    /// reached a quorum.
    pub fn finalize(self, signature: MultiSignature) -> (result: BatchCompletion)
        requires
            self.wf(),
            self.spec_complete(),
        ensures
            result.spec_view() == self.spec_view().spec_identifier(),
            result.spec_root() == self.spec_root(),
            exists|i: int|
                0 <= i < self.groups().len() && reaches_quorum(self.spec_view(), #[trigger] self.groups()[i].1)
                    && result.spec_exceptions() == self.groups()[i].0
                    && result.spec_certificate().spec_signers() == signer_bits(
                        self.groups()[i].1.spec_view(),
                        share_identities(self.groups()[i].1.spec_components()),
                    )
                    && result.spec_certificate().spec_power() == self.groups()[i].1.spec_components().len(),
            result.spec_certificate().spec_power() >= self.spec_view().spec_quorum(),
            result.spec_certificate().spec_signature() == signature,
    {
        let position = match self.completed_position() {
            Some(position) => position,
            None => {
                assert(false);
                0
            },
        };
        let identifier = self.view.identifier();
        let root = self.root;
        let ghost groups = self.groups();
        let mut aggregators = self.aggregators;
        proof {
            assert(groups[position as int] == (aggregators@[position as int].0@, aggregators@[position as int].1));
        }
        let (exceptions, aggregator) = aggregators.remove(position);
        let (_, certificate) = aggregator.finalize(signature);
        BatchCompletion { view: identifier, root, exceptions, certificate }
    }
}

} // verus!
