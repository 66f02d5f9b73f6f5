use vstd::prelude::*;

use crate::{
    crypto::{certificate::Certificate, Identity, MultiSignature},
    view,
};

verus! {

/// Why a multi-signature share is refused.
#[derive(Debug, Clone, Copy, PartialEq, Eq, Structural)]
pub enum MultiError {
    InvalidSignature,
}

/// The identities of a list of signature shares, as byte strings.
pub open spec fn share_ids(components: Seq<(Identity, MultiSignature)>) -> Seq<Seq<u8>> {
    components.map_values(|component: (Identity, MultiSignature)| component.0@)
}

/// The identities of a list of signature shares.
pub open spec fn share_identities(components: Seq<(Identity, MultiSignature)>) -> Seq<Identity> {
    components.map_values(|component: (Identity, MultiSignature)| component.0)
}

/// The shares after recording `signature` by `identity`: the share of
/// `identity` is replaced if there is one, otherwise the new share is appended.
pub open spec fn recorded(
    components: Seq<(Identity, MultiSignature)>,
    identity: Identity,
    signature: MultiSignature,
) -> Seq<(Identity, MultiSignature)> {
    if share_ids(components).contains(identity@) {
        components.update(share_ids(components).index_of(identity@), (identity, signature))
    } else {
        components.push((identity, signature))
    }
}

/// Recording a share adds one to the multiplicity when its signer had no share
/// yet, and leaves it unchanged otherwise; the signer then has a share.
pub proof fn lemma_recorded_multiplicity(
    components: Seq<(Identity, MultiSignature)>,
    identity: Identity,
    signature: MultiSignature,
)
    ensures
        recorded(components, identity, signature).len() == components.len() + if share_ids(
            components,
        ).contains(identity@) {
            0int
        } else {
            1int
        },
        share_ids(recorded(components, identity, signature)).contains(identity@),
{
    let after = recorded(components, identity, signature);
    if share_ids(components).contains(identity@) {
        let i = share_ids(components).index_of(identity@);
        assert(share_ids(after)[i] == identity@);
    } else {
        assert(share_ids(after)[components.len() as int] == identity@);
    }
}

/// Recording a share adds its signer to the signers of the shares.
pub proof fn lemma_recorded_ids(
    components: Seq<(Identity, MultiSignature)>,
    identity: Identity,
    signature: MultiSignature,
)
    ensures
        share_ids(recorded(components, identity, signature)).to_set() == share_ids(components).to_set().insert(
            identity@,
        ),
{
    let after = recorded(components, identity, signature);
    let ids = share_ids(components);
    if ids.contains(identity@) {
        let i = ids.index_of(identity@);
        assert(share_ids(after) =~= ids);
        assert(ids.to_set().contains(identity@));
        assert(ids.to_set().insert(identity@) =~= ids.to_set());
    } else {
        assert(share_ids(after) =~= ids.push(identity@));
        ids.lemma_push_to_set_commute(identity@);
    }
}

/// Gathers the signature shares of the members of a view on one statement, one
/// share per member, to be aggregated into a `Certificate`.
pub struct Aggregator<S> {
    view: view::View,
    statement: S,
    components: Vec<(Identity, MultiSignature)>,
}

impl<S> Aggregator<S> {
    pub closed spec fn spec_view(&self) -> view::View {
        self.view
    }

    pub closed spec fn spec_statement(&self) -> S {
        self.statement
    }

    /// The shares gathered so far, in the order in which their signers first contributed.
    pub closed spec fn spec_components(&self) -> Seq<(Identity, MultiSignature)> {
        self.components@
    }

    /// Every share comes from a distinct member of the view.
    pub open spec fn wf(&self) -> bool {
        &&& share_ids(self.spec_components()).no_duplicates()
        &&& forall|i: int|
            0 <= i < self.spec_components().len() ==> self.spec_view().member_ids().contains(
                #[trigger] share_ids(self.spec_components())[i],
            )
    }

    pub fn new(view: view::View, statement: S) -> (result: Aggregator<S>)
        ensures
            result.spec_view() == view,
            result.spec_statement() == statement,
            result.spec_components() == Seq::<(Identity, MultiSignature)>::empty(),
            result.wf(),
    {
        let result = Aggregator { view, statement, components: Vec::new() };
        assert(share_ids(result.spec_components()) =~= Seq::<Seq<u8>>::empty());
        result
    }

    pub fn view(&self) -> (result: &view::View)
        ensures
            *result == self.spec_view(),
    {
        &self.view
    }

    pub fn statement(&self) -> (result: &S)
        ensures
            *result == self.spec_statement(),
    {
        &self.statement
    }

    /// The shares gathered so far.
    pub fn components(&self) -> (result: &Vec<(Identity, MultiSignature)>)
        ensures
            result@ == self.spec_components(),
    {
        &self.components
    }

    /// Records the share `signature` of the member `identity`, if it verified
    /// (`valid`) against the statement; refuses it otherwise.
    pub fn add(&mut self, identity: Identity, signature: MultiSignature, valid: bool) -> (result:
        Result<(), MultiError>)
        requires
            old(self).wf(),
            old(self).spec_view().member_ids().contains(identity@),
        ensures
            final(self).wf(),
            final(self).spec_view() == old(self).spec_view(),
            final(self).spec_statement() == old(self).spec_statement(),
            result == if valid {
                Ok::<(), MultiError>(())
            } else {
                Err(MultiError::InvalidSignature)
            },
            final(self).spec_components() == if valid {
                recorded(old(self).spec_components(), identity, signature)
            } else {
                old(self).spec_components()
            },
    {
        if !valid {
            return Err(MultiError::InvalidSignature);
        }
        self.add_unchecked(identity, signature)
    }

    /// Records the share `signature` of the member `identity` without checking it.
    pub fn add_unchecked(&mut self, identity: Identity, signature: MultiSignature) -> (result:
        Result<(), MultiError>)
        requires
            old(self).wf(),
            old(self).spec_view().member_ids().contains(identity@),
        ensures
            final(self).wf(),
            final(self).spec_view() == old(self).spec_view(),
            final(self).spec_statement() == old(self).spec_statement(),
            result == Ok::<(), MultiError>(()),
            final(self).spec_components() == recorded(
                old(self).spec_components(),
                identity,
                signature,
            ),
    {
        let ghost before = self.components@;
        let mut index: usize = 0;
        while index < self.components.len()
            invariant
                self.components@ == before,
                before == old(self).spec_components(),
                self.spec_view() == old(self).spec_view(),
                self.spec_statement() == old(self).spec_statement(),
                self.wf(),
                0 <= index <= before.len(),
                forall|j: int| 0 <= j < index ==> share_ids(before)[j] != identity@,
            decreases before.len() - index,
        {
            if self.components[index].0.equals(&identity) {
                proof {
                    assert(share_ids(before)[index as int] == identity@);
                    assert(share_ids(before).contains(identity@));
                    let position = share_ids(before).index_of(identity@);
                    assert(share_ids(before).no_duplicates());
                    assert(position == index);
                }
                self.components.set(index, (identity, signature));
                proof {
                    assert(share_ids(self.components@) =~= share_ids(before));
                }
                return Ok(());
            }
            index = index + 1;
        }
        proof {
            assert(!share_ids(before).contains(identity@));
        }
        self.components.push((identity, signature));
        proof {
            assert(share_ids(self.components@) =~= share_ids(before).push(identity@));
            assert forall|i: int|
                0 <= i < self.components@.len() implies self.spec_view().member_ids().contains(
                #[trigger] share_ids(self.components@)[i],
            ) by {
                if i < before.len() {
                    assert(share_ids(self.components@)[i] == share_ids(before)[i]);
                }
            }
        }
        Ok(())
    }

    /// Whether the share `signature` of `identity` can be recorded: the outcome
    /// `valid` of verifying it against the statement.
    pub fn check(&self, identity: Identity, valid: bool) -> (result: Result<(), MultiError>)
        requires
            self.spec_view().member_ids().contains(identity@),
        ensures
            result == if valid {
                Ok::<(), MultiError>(())
            } else {
                Err(MultiError::InvalidSignature)
            },
    {
        if valid {
            Ok(())
        } else {
            Err(MultiError::InvalidSignature)
        }
    }

    /// The number of shares gathered.
    pub fn multiplicity(&self) -> (result: usize)
        ensures
            result == self.spec_components().len(),
    {
        self.components.len()
    }

    /// The identities of the signers, in order.
    pub fn signers(&self) -> (result: Vec<Identity>)
        ensures
            result@ == share_identities(self.spec_components()),
    {
        let mut result: Vec<Identity> = Vec::new();
        let mut index: usize = 0;
        while index < self.components.len()
            invariant
                0 <= index <= self.components@.len(),
                result@ == share_identities(self.components@.take(index as int)),
            decreases self.components@.len() - index,
        {
            result.push(self.components[index].0);
            index = index + 1;
            proof {
                assert(result@ =~= share_identities(self.components@.take(index as int)));
            }
        }
        assert(self.components@.take(index as int) =~= self.components@);
        result
    }

    /// The statement and the certificate of the gathered shares, given
    /// `signature`, the aggregate of their signatures.
    pub fn finalize(self, signature: MultiSignature) -> (result: (S, Certificate))
        requires
            self.wf(),
        ensures
            result.0 == self.spec_statement(),
            result.1.spec_signers() == crate::crypto::certificate::signer_bits(
                self.spec_view(),
                share_identities(self.spec_components()),
            ),
            result.1.spec_signature() == signature,
            result.1.spec_power() == self.spec_components().len(),
    {
        let signers = self.signers();
        proof {
            assert forall|j: int| 0 <= j < signers@.len() implies self.spec_view().member_ids().contains(
                #[trigger] signers@[j]@,
            ) by {
                assert(share_ids(self.spec_components())[j] == signers@[j]@);
            }
            assert forall|a: int, b: int| 0 <= a < b < signers@.len() implies #[trigger] signers@[a]@
                != #[trigger] signers@[b]@ by {
                assert(share_ids(self.spec_components())[a] == signers@[a]@);
                assert(share_ids(self.spec_components())[b] == signers@[b]@);
            }
        }
        let certificate = Certificate::aggregate(&self.view, &signers, signature);
        (self.statement, certificate)
    }

    /// As `finalize`, for shares that make a plurality of the view.
    pub fn finalize_plurality(self, signature: MultiSignature) -> (result: (S, Certificate))
        requires
            self.wf(),
            self.spec_components().len() >= self.spec_view().spec_plurality(),
        ensures
            result.0 == self.spec_statement(),
            result.1.spec_signers() == crate::crypto::certificate::signer_bits(
                self.spec_view(),
                share_identities(self.spec_components()),
            ),
            result.1.spec_signature() == signature,
            result.1.spec_power() == self.spec_components().len(),
            result.1.spec_power() >= self.spec_view().spec_plurality(),
    {
        self.finalize(signature)
    }

    /// As `finalize`, for shares that make a quorum of the view.
    pub fn finalize_quorum(self, signature: MultiSignature) -> (result: (S, Certificate))
        requires
            self.wf(),
            self.spec_components().len() >= self.spec_view().spec_quorum(),
        ensures
            result.0 == self.spec_statement(),
            result.1.spec_signers() == crate::crypto::certificate::signer_bits(
                self.spec_view(),
                share_identities(self.spec_components()),
            ),
            result.1.spec_signature() == signature,
            result.1.spec_power() == self.spec_components().len(),
            result.1.spec_power() >= self.spec_view().spec_quorum(),
    {
        self.finalize(signature)
    }
}

} // verus!
