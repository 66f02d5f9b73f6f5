use vstd::prelude::*;

use vstd::view::View as Viewable;

use crate::crypto::Digest;

verus! {

/// A message that moves a replica from one view to a later one.
///
/// An `Install` links the view of height `source_height` (identified by
/// `source`) to the view of height `destination_height` (identified by
/// `destination`). It is `tailless` when it carries no further increments
/// beyond its destination, so that its destination can be installed.
#[derive(Clone, Copy, Debug)]
pub struct Install {
    pub identifier: Digest,
    pub source: Digest,
    pub source_height: usize,
    pub destination: Digest,
    pub destination_height: usize,
    pub tailless: bool,
}

/// The passage from a source view to a destination view that an `Install` proves.
#[derive(Clone, Copy, Debug)]
pub struct Transition {
    pub source: Digest,
    pub source_height: usize,
    pub destination: Digest,
    pub destination_height: usize,
    pub tailless: bool,
}

impl Install {
    /// An install leads upwards: its destination is higher than its source.
    pub open spec fn valid(&self) -> bool {
        self.source_height < self.destination_height
    }

    /// The transition that `self` proves.
    pub open spec fn spec_transition(&self) -> Transition {
        Transition {
            source: self.source,
            source_height: self.source_height,
            destination: self.destination,
            destination_height: self.destination_height,
            tailless: self.tailless,
        }
    }

    pub fn into_transition(self) -> (result: Transition)
        ensures
            result == self.spec_transition(),
    {
        Transition {
            source: self.source,
            source_height: self.source_height,
            destination: self.destination,
            destination_height: self.destination_height,
            tailless: self.tailless,
        }
    }
}

} // verus!

verus! {

/// `a` comes before `b` in the order of identities: at the first byte where
/// they differ, `a` holds the smaller byte.
pub open spec fn precedes(a: Seq<u8>, b: Seq<u8>) -> bool {
    exists|k: int|
        #![trigger a[k], b[k]]
        0 <= k < a.len() && k < b.len() && a.take(k) == b.take(k) && a[k] < b[k]
}

/// The identities are in strictly increasing order.
pub open spec fn ascending(ids: Seq<Seq<u8>>) -> bool {
    forall|i: int, j: int| 0 <= i < j < ids.len() ==> precedes(#[trigger] ids[i], #[trigger] ids[j])
}

/// Identities in strictly increasing order are distinct.
pub proof fn lemma_ascending_distinct(ids: Seq<Seq<u8>>)
    requires
        ascending(ids),
    ensures
        ids.no_duplicates(),
{
    assert forall|i: int, j: int| 0 <= i < ids.len() && 0 <= j < ids.len() && i != j implies ids[i]
        != ids[j] by {
        if i < j {
            assert(precedes(ids[i], ids[j]));
        } else {
            assert(precedes(ids[j], ids[i]));
        }
    }
}

/// A view: a numbered configuration of replicas.
///
/// `members` lists the identities of the replicas in strictly increasing order
/// of identity, so that no replica is listed twice; `plurality` and `quorum`
/// are the numbers of members whose signatures make a certificate of plurality
/// and of quorum.
#[derive(Debug)]
pub struct View {
    identifier: Digest,
    height: usize,
    members: Vec<crate::crypto::Identity>,
    plurality: usize,
    quorum: usize,
}

impl Clone for View {
    fn clone(&self) -> (result: View)
        ensures
            result.spec_identifier() == self.spec_identifier(),
            result.spec_height() == self.spec_height(),
            result.spec_members() == self.spec_members(),
            result.spec_plurality() == self.spec_plurality(),
            result.spec_quorum() == self.spec_quorum(),
    {
        self.duplicate()
    }
}

impl View {
    pub closed spec fn spec_identifier(&self) -> Digest {
        self.identifier
    }

    pub closed spec fn spec_height(&self) -> nat {
        self.height as nat
    }

    pub closed spec fn spec_members(&self) -> Seq<crate::crypto::Identity> {
        self.members@
    }

    pub closed spec fn spec_plurality(&self) -> nat {
        self.plurality as nat
    }

    pub closed spec fn spec_quorum(&self) -> nat {
        self.quorum as nat
    }

    /// The identities of the members as byte strings.
    pub open spec fn member_ids(&self) -> Seq<Seq<u8>> {
        self.spec_members().map_values(|member: crate::crypto::Identity| member@)
    }

    /// The members are listed in strictly increasing order of identity.
    #[verifier::type_invariant]
    pub open spec fn members_ascending(&self) -> bool {
        ascending(self.member_ids())
    }

    pub fn new(
        identifier: Digest,
        height: usize,
        members: Vec<crate::crypto::Identity>,
        plurality: usize,
        quorum: usize,
    ) -> (result: View)
        requires
            ascending(members@.map_values(|member: crate::crypto::Identity| member@)),
        ensures
            result.spec_identifier() == identifier,
            result.spec_height() == height,
            result.spec_members() == members@,
            result.spec_plurality() == plurality,
            result.spec_quorum() == quorum,
    {
        View { identifier, height, members, plurality, quorum }
    }

    /// A copy of the view.
    pub fn duplicate(&self) -> (result: View)
        ensures
            result.spec_identifier() == self.spec_identifier(),
            result.spec_height() == self.spec_height(),
            result.spec_members() == self.spec_members(),
            result.spec_plurality() == self.spec_plurality(),
            result.spec_quorum() == self.spec_quorum(),
    {
        proof {
            use_type_invariant(self);
        }
        let mut members: Vec<crate::crypto::Identity> = Vec::new();
        let mut index: usize = 0;
        while index < self.members.len()
            invariant
                0 <= index <= self.members@.len(),
                members@ == self.members@.take(index as int),
            decreases self.members@.len() - index,
        {
            members.push(self.members[index]);
            index = index + 1;
            assert(members@ =~= self.members@.take(index as int));
        }
        assert(self.members@.take(index as int) =~= self.members@);
        assert(members@.map_values(|member: crate::crypto::Identity| member@) =~= self.member_ids());
        View {
            identifier: self.identifier,
            height: self.height,
            members,
            plurality: self.plurality,
            quorum: self.quorum,
        }
    }

    pub fn identifier(&self) -> (result: Digest)
        ensures
            result == self.spec_identifier(),
    {
        self.identifier
    }

    pub fn height(&self) -> (result: usize)
        ensures
            result == self.spec_height(),
    {
        self.height
    }

    pub fn members(&self) -> (result: &Vec<crate::crypto::Identity>)
        ensures
            result@ == self.spec_members(),
            ascending(self.member_ids()),
    {
        proof {
            use_type_invariant(self);
        }
        &self.members
    }

    pub fn plurality(&self) -> (result: usize)
        ensures
            result == self.spec_plurality(),
    {
        self.plurality
    }

    pub fn quorum(&self) -> (result: usize)
        ensures
            result == self.spec_quorum(),
    {
        self.quorum
    }
}

} // verus!
