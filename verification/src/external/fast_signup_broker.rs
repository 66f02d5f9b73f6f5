use vstd::prelude::*;

use crate::{
    account::Id,
    crypto::{
        aggregator::{recorded, Aggregator},
        Identity, MultiSignature,
    },
    view::{self, precedes},
};

use rayon::slice::ParallelSliceMut;

verus! {

/// What the broker reads of a claim: the id, and the client that claims it.
#[derive(Debug, Clone, Copy)]
pub struct IdClaim {
    pub id: Id,
    pub client: Identity,
}

/// Two claims of the same id by different clients: the one the broker brought,
/// and the one a replica had already assigned.
#[derive(Debug, Clone, Copy)]
pub struct Collision {
    pub brokered: IdClaim,
    pub collided: IdClaim,
}

/// Why a submission of claims fails.
#[derive(Debug, Clone, Copy, PartialEq, Eq, Structural)]
pub enum SubmitError {
    ConnectionFailed,
    ConnectionError,
    UnexpectedResponse,
    MalformedResponse,
    InvalidAllocation,
    InvalidShard,
    InvalidClaim,
    NotACollision,
    MultiplicityInsufficient,
}

/// The answer of a replica about one claim: its signature share on the
/// assignment (`valid` when it verified), or the claim of the same id that it
/// had already assigned (`valid` when that claim verified).
#[derive(Debug, Clone, Copy)]
pub enum ShardAnswer {
    Signed { signature: MultiSignature, valid: bool },
    Collided { claim: IdClaim, valid: bool },
}

/// The answers of the signup service that a broker reads: the ids allocated
/// to its requests (each with `valid`, the outcome of checking the allocator's
/// signature), or the answers of an assigner about its claims.
#[derive(Debug, Clone)]
pub enum SignupResponse {
    IdAllocations(Vec<(Id, bool)>),
    IdAssignmentShards(Vec<ShardAnswer>),
}

/// The claims made of signup requests by `clients` and of the allocations
/// answered to them, or the error that refuses the allocations.
pub open spec fn allocation_claims(clients: Seq<Identity>, allocations: Seq<(Id, bool)>) -> Result<
    Seq<IdClaim>,
    SubmitError,
> {
    if clients.len() != allocations.len() {
        Err(SubmitError::MalformedResponse)
    } else if exists|i: int| 0 <= i < allocations.len() && !(#[trigger] allocations[i]).1 {
        Err(SubmitError::InvalidAllocation)
    } else {
        Ok(Seq::new(clients.len(), |i: int| IdClaim { id: allocations[i].0, client: clients[i] }))
    }
}

/// The claims made of signup requests and of the allocations answered to them:
/// the client of each request claims the id allocated to it. The allocations
/// must be as many as the requests, and each must be valid for its request
/// (`valid`, the outcome of checking the allocator's signature).
pub fn claims_of(clients: &Vec<Identity>, allocations: &Vec<(Id, bool)>) -> (result: Result<
    Vec<IdClaim>,
    SubmitError,
>)
    ensures
        match allocation_claims(clients@, allocations@) {
            Ok(claims) => result matches Ok(made) && made@ == claims,
            Err(error) => result == Err::<Vec<IdClaim>, SubmitError>(error),
        },
{
    if clients.len() != allocations.len() {
        return Err(SubmitError::MalformedResponse);
    }
    let mut claims: Vec<IdClaim> = Vec::new();
    let mut index: usize = 0;
    while index < clients.len()
        invariant
            clients@.len() == allocations@.len(),
            0 <= index <= clients@.len(),
            claims@.len() == index,
            forall|i: int| 0 <= i < index ==> (#[trigger] allocations@[i]).1,
            forall|i: int|
                0 <= i < index ==> (#[trigger] claims@[i]).id == allocations@[i].0 && claims@[i].client
                    == clients@[i],
        decreases clients@.len() - index,
    {
        let (id, valid) = allocations[index];
        if !valid {
            assert(!allocations@[index as int].1);
            return Err(SubmitError::InvalidAllocation);
        }
        claims.push(IdClaim { id, client: clients[index] });
        index = index + 1;
    }
    assert(claims@ =~= Seq::new(
        clients@.len(),
        |i: int| IdClaim { id: allocations@[i].0, client: clients@[i] },
    ));
    Ok(claims)
}

/// The claims made of the allocator's answer to signup requests by `clients`:
/// an answer of another kind than allocations is refused as unexpected;
/// allocations are checked and turned into claims as `claims_of` does.
pub fn claims_from(clients: &Vec<Identity>, response: &SignupResponse) -> (result: Result<
    Vec<IdClaim>,
    SubmitError,
>)
    ensures
        match response {
            SignupResponse::IdAllocations(allocations) => match allocation_claims(
                clients@,
                allocations@,
            ) {
                Ok(claims) => result matches Ok(made) && made@ == claims,
                Err(error) => result == Err::<Vec<IdClaim>, SubmitError>(error),
            },
            SignupResponse::IdAssignmentShards(_) => result == Err::<Vec<IdClaim>, SubmitError>(
                SubmitError::UnexpectedResponse,
            ),
        },
{
    match response {
        SignupResponse::IdAllocations(allocations) => claims_of(clients, allocations),
        SignupResponse::IdAssignmentShards(_) => Err(SubmitError::UnexpectedResponse),
    }
}

/// The state of a slot: the shares gathered for its claim so far, or the
/// collision found for it.
pub type SlotState = Result<Seq<(Identity, MultiSignature)>, Collision>;

/// A slot after the answer of `assigner` about `claim`, and the error it raises, if any.
pub open spec fn answer_step(slot: SlotState, claim: IdClaim, answer: ShardAnswer, assigner: Identity) -> (
    SlotState,
    Option<SubmitError>,
) {
    match slot {
        Err(collision) => (slot, None),
        Ok(components) => match answer {
            ShardAnswer::Signed { signature, valid } => if valid {
                (Ok(recorded(components, assigner, signature)), None)
            } else {
                (slot, Some(SubmitError::InvalidShard))
            },
            ShardAnswer::Collided { claim: collided, valid } => if !valid {
                (slot, Some(SubmitError::InvalidClaim))
            } else if collided.id != claim.id || collided.client@ == claim.client@ {
                (slot, Some(SubmitError::NotACollision))
            } else {
                (Err(Collision { brokered: claim, collided }), None)
            },
        },
    }
}

/// The slots after the answers about the first `n` claims, applied in order
/// and stopping at the first error, and that error, if any.
pub open spec fn answer_prefix(
    slots: Seq<SlotState>,
    claims: Seq<IdClaim>,
    answers: Seq<ShardAnswer>,
    assigner: Identity,
    n: nat,
) -> (Seq<SlotState>, Option<SubmitError>)
    decreases n,
{
    if n == 0 {
        (slots, None)
    } else {
        let (before, error) = answer_prefix(slots, claims, answers, assigner, (n - 1) as nat);
        if error is Some {
            (before, error)
        } else {
            let (slot, error) = answer_step(
                before[n - 1],
                claims[n - 1],
                answers[n - 1],
                assigner,
            );
            (before.update(n - 1, slot), error)
        }
    }
}

proof fn lemma_answer_prefix_len(
    slots: Seq<SlotState>,
    claims: Seq<IdClaim>,
    answers: Seq<ShardAnswer>,
    assigner: Identity,
    n: nat,
)
    requires
        n <= slots.len(),
    ensures
        answer_prefix(slots, claims, answers, assigner, n).0.len() == slots.len(),
    decreases n,
{
    if n > 0 {
        lemma_answer_prefix_len(slots, claims, answers, assigner, (n - 1) as nat);
        let previous = answer_prefix(slots, claims, answers, assigner, (n - 1) as nat);
        if previous.1 is None {
            let step = answer_step(previous.0[n - 1], claims[n - 1], answers[n - 1], assigner);
            assert(answer_prefix(slots, claims, answers, assigner, n).0 == previous.0.update(
                n - 1,
                step.0,
            ));
        }
    }
}

/// Once an answer is refused, the later ones change nothing.
proof fn lemma_answer_error_final(
    slots: Seq<SlotState>,
    claims: Seq<IdClaim>,
    answers: Seq<ShardAnswer>,
    assigner: Identity,
    k: nat,
    n: nat,
)
    requires
        k <= n,
        answer_prefix(slots, claims, answers, assigner, k).1 is Some,
    ensures
        answer_prefix(slots, claims, answers, assigner, n) == answer_prefix(
            slots,
            claims,
            answers,
            assigner,
            k,
        ),
    decreases n - k,
{
    if n > k {
        lemma_answer_error_final(slots, claims, answers, assigner, k, (n - 1) as nat);
    }
}

/// The collision recorded for `claim` is genuine: it pairs `claim` with a
/// claim of the same id by another client.
pub open spec fn genuine_collision(collision: Collision, claim: IdClaim) -> bool {
    &&& collision.brokered == claim
    &&& collision.collided.id == claim.id
    &&& collision.collided.client@ != claim.client@
}

/// The slot holds shares, or a genuine collision for `claim`.
pub open spec fn slot_genuine(slot: SlotState, claim: IdClaim) -> bool {
    match slot {
        Ok(_) => true,
        Err(collision) => genuine_collision(collision, claim),
    }
}

/// An answer turns a slot that still gathers shares into a collision only
/// when the collision is genuine; an answer that exhibits a valid claim of
/// another id is refused as not a collision and leaves the slot alone.
pub proof fn lemma_answer_collisions_genuine(
    components: Seq<(Identity, MultiSignature)>,
    claim: IdClaim,
    answer: ShardAnswer,
    assigner: Identity,
)
    ensures
        slot_genuine(answer_step(Ok(components), claim, answer, assigner).0, claim),
        answer matches ShardAnswer::Collided { claim: other, valid } && valid && other.id != claim.id
            ==> answer_step(Ok(components), claim, answer, assigner) == (
            Ok::<Seq<(Identity, MultiSignature)>, Collision>(components),
            Some(SubmitError::NotACollision),
        ),
{
}

/// What one answer does to a slot that still gathers shares: a valid share is
/// recorded; a valid claim of the same id by another client makes the slot a
/// collision; an invalid share or claim is refused and leaves the slot alone;
/// a slot that already holds a collision ignores every answer.
pub proof fn lemma_answer_outcomes(
    components: Seq<(Identity, MultiSignature)>,
    collision: Collision,
    claim: IdClaim,
    assigner: Identity,
    signature: MultiSignature,
    other: IdClaim,
)
    ensures
        answer_step(Ok(components), claim, ShardAnswer::Signed { signature, valid: true }, assigner) == (
            Ok::<Seq<(Identity, MultiSignature)>, Collision>(recorded(components, assigner, signature)),
            None::<SubmitError>,
        ),
        answer_step(Ok(components), claim, ShardAnswer::Signed { signature, valid: false }, assigner) == (
            Ok::<Seq<(Identity, MultiSignature)>, Collision>(components),
            Some(SubmitError::InvalidShard),
        ),
        answer_step(Ok(components), claim, ShardAnswer::Collided { claim: other, valid: false }, assigner)
            == (Ok::<Seq<(Identity, MultiSignature)>, Collision>(components), Some(SubmitError::InvalidClaim)),
        other.id == claim.id && other.client@ != claim.client@ ==> answer_step(
            Ok(components),
            claim,
            ShardAnswer::Collided { claim: other, valid: true },
            assigner,
        ) == (
            Err::<Seq<(Identity, MultiSignature)>, Collision>(Collision { brokered: claim, collided: other }),
            None::<SubmitError>,
        ),
        other.client@ == claim.client@ ==> answer_step(
            Ok(components),
            claim,
            ShardAnswer::Collided { claim: other, valid: true },
            assigner,
        ) == (Ok::<Seq<(Identity, MultiSignature)>, Collision>(components), Some(SubmitError::NotACollision)),
        forall|answer: ShardAnswer|
            #[trigger] answer_step(Err(collision), claim, answer, assigner) == (
                Err::<Seq<(Identity, MultiSignature)>, Collision>(collision),
                None::<SubmitError>,
            ),
{
}

/// After any run of answers, every slot that held shares and now holds a
/// collision holds a genuine collision for its claim.
pub proof fn lemma_prefix_collisions_genuine(
    slots: Seq<SlotState>,
    claims: Seq<IdClaim>,
    answers: Seq<ShardAnswer>,
    assigner: Identity,
    n: nat,
)
    requires
        n <= slots.len(),
    ensures
        forall|i: int|
            0 <= i < slots.len() && slots[i] is Ok ==> slot_genuine(
                #[trigger] answer_prefix(slots, claims, answers, assigner, n).0[i],
                claims[i],
            ),
    decreases n,
{
    lemma_answer_prefix_len(slots, claims, answers, assigner, n);
    if n > 0 {
        lemma_prefix_collisions_genuine(slots, claims, answers, assigner, (n - 1) as nat);
        lemma_answer_prefix_len(slots, claims, answers, assigner, (n - 1) as nat);
        let (before, error) = answer_prefix(slots, claims, answers, assigner, (n - 1) as nat);
        let after = answer_prefix(slots, claims, answers, assigner, n).0;
        assert forall|i: int|
            0 <= i < slots.len() && slots[i] is Ok implies slot_genuine(
            #[trigger] answer_prefix(slots, claims, answers, assigner, n).0[i],
            claims[i],
        ) by {
            if error is None && i == n - 1 {
                match before[i] {
                    Ok(components) => {
                        lemma_answer_collisions_genuine(components, claims[i], answers[i], assigner);
                    },
                    Err(_) => {},
                }
            }
        }
    }
}

proof fn lemma_genuine_after(
    initial: Seq<SlotState>,
    claims: Seq<IdClaim>,
    answers: Seq<ShardAnswer>,
    assigner: Identity,
    slots: Seq<SlotState>,
)
    requires
        answers.len() <= initial.len(),
        slots == answer_prefix(initial, claims, answers, assigner, answers.len()).0,
    ensures
        forall|i: int|
            0 <= i < initial.len() && initial[i] is Ok ==> slot_genuine(#[trigger] slots[i], claims[i]),
{
    lemma_prefix_collisions_genuine(initial, claims, answers, assigner, answers.len());
    assert forall|i: int| 0 <= i < initial.len() && initial[i] is Ok implies slot_genuine(
        #[trigger] slots[i],
        claims[i],
    ) by {
        assert(slots[i] == answer_prefix(initial, claims, answers, assigner, answers.len()).0[i]);
    }
}

/// The abstract state of a slot.
pub open spec fn slot_state(slot: Result<Aggregator<IdClaim>, Collision>) -> SlotState {
    match slot {
        Ok(aggregator) => Ok(aggregator.spec_components()),
        Err(collision) => Err(collision),
    }
}

/// The submission of a batch of claims to the members of a view: for each
/// claim, the signature shares gathered so far or the collision found; and
/// the number of members whose answers were all valid.
pub struct ClaimSubmission {
    view: view::View,
    claims: Vec<IdClaim>,
    slots: Vec<Result<Aggregator<IdClaim>, Collision>>,
    multiplicity: usize,
}

impl ClaimSubmission {
    pub closed spec fn spec_view(&self) -> view::View {
        self.view
    }

    pub closed spec fn spec_claims(&self) -> Seq<IdClaim> {
        self.claims@
    }

    /// The state of each slot.
    pub closed spec fn spec_slots(&self) -> Seq<SlotState> {
        self.slots@.map_values(|slot: Result<Aggregator<IdClaim>, Collision>| slot_state(slot))
    }

    pub closed spec fn spec_multiplicity(&self) -> nat {
        self.multiplicity as nat
    }

    /// One slot per claim; each aggregator gathers shares of the members of the
    /// view on its claim.
    pub closed spec fn wf(&self) -> bool {
        &&& self.slots@.len() == self.claims@.len()
        &&& forall|i: int|
            0 <= i < self.slots@.len() ==> match #[trigger] self.slots@[i] {
                Ok(aggregator) => {
                    &&& aggregator.wf()
                    &&& aggregator.spec_view().member_ids() == self.view.member_ids()
                    &&& aggregator.spec_statement() == self.claims@[i]
                },
                Err(_) => true,
            }
    }

    /// The submission of `claims` to the members of `view`, before any answer.
    pub fn new(view: view::View, claims: Vec<IdClaim>) -> (result: ClaimSubmission)
        ensures
            result.wf(),
            result.spec_view() == view,
            result.spec_claims() == claims@,
            result.spec_slots() == Seq::new(
                claims@.len(),
                |i: int| Ok::<_, Collision>(Seq::<(Identity, MultiSignature)>::empty()),
            ),
            result.spec_multiplicity() == 0,
    {
        let mut slots: Vec<Result<Aggregator<IdClaim>, Collision>> = Vec::new();
        let mut index: usize = 0;
        while index < claims.len()
            invariant
                0 <= index <= claims@.len(),
                slots@.len() == index,
                forall|i: int|
                    0 <= i < index ==> match #[trigger] slots@[i] {
                        Ok(aggregator) => {
                            &&& aggregator.wf()
                            &&& aggregator.spec_view().member_ids() == view.member_ids()
                            &&& aggregator.spec_statement() == claims@[i]
                            &&& aggregator.spec_components() == Seq::<(Identity, MultiSignature)>::empty()
                        },
                        Err(_) => false,
                    },
            decreases claims@.len() - index,
        {
            let aggregator = Aggregator::new(view.duplicate(), claims[index]);
            proof {
                assert(aggregator.spec_view().member_ids() =~= view.member_ids());
            }
            slots.push(Ok(aggregator));
            index = index + 1;
        }
        let result = ClaimSubmission { view, claims, slots, multiplicity: 0 };
        assert(result.spec_slots() =~= Seq::new(
            claims@.len(),
            |i: int| Ok::<_, Collision>(Seq::<(Identity, MultiSignature)>::empty()),
        ));
        result
    }

    /// Applies the answers of `assigner`, a member of the view, one per claim in
    /// order: a valid share is gathered, a valid collision replaces the slot. An
    /// answer list of the wrong length is refused outright; otherwise the answers
    /// are applied up to the first invalid one, which is reported. When all the
    /// answers were valid, `assigner` counts towards the multiplicity.
    pub fn apply(&mut self, assigner: Identity, answers: &Vec<ShardAnswer>) -> (result: Result<
        (),
        SubmitError,
    >)
        requires
            old(self).wf(),
            old(self).spec_view().member_ids().contains(assigner@),
            old(self).spec_multiplicity() < usize::MAX,
        ensures
            final(self).wf(),
            final(self).spec_view() == old(self).spec_view(),
            final(self).spec_claims() == old(self).spec_claims(),
            if answers@.len() != old(self).spec_claims().len() {
                &&& result == Err::<(), SubmitError>(SubmitError::MalformedResponse)
                &&& final(self).spec_slots() == old(self).spec_slots()
                &&& final(self).spec_multiplicity() == old(self).spec_multiplicity()
            } else {
                let (slots, error) = answer_prefix(
                    old(self).spec_slots(),
                    old(self).spec_claims(),
                    answers@,
                    assigner,
                    answers@.len(),
                );
                &&& final(self).spec_slots() == slots
                &&& match error {
                    Some(error) => {
                        &&& result == Err::<(), SubmitError>(error)
                        &&& final(self).spec_multiplicity() == old(self).spec_multiplicity()
                    },
                    None => {
                        &&& result == Ok::<(), SubmitError>(())
                        &&& final(self).spec_multiplicity() == old(self).spec_multiplicity() + 1
                    },
                }
            },
            forall|i: int|
                0 <= i < old(self).spec_slots().len() && old(self).spec_slots()[i] is Ok ==> slot_genuine(
                    #[trigger] final(self).spec_slots()[i],
                    old(self).spec_claims()[i],
                ),
    {
        if answers.len() != self.claims.len() {
            return Err(SubmitError::MalformedResponse);
        }
        let ghost initial = self.spec_slots();
        let mut index: usize = 0;
        while index < answers.len()
            invariant
                self.wf(),
                self.spec_view() == old(self).spec_view(),
                self.spec_claims() == old(self).spec_claims(),
                self.spec_multiplicity() == old(self).spec_multiplicity(),
                initial == old(self).spec_slots(),
                initial.len() == answers@.len(),
                answers@.len() == self.claims@.len(),
                self.spec_view().member_ids().contains(assigner@),
                0 <= index <= answers@.len(),
                answer_prefix(initial, self.spec_claims(), answers@, assigner, index as nat).1 is None,
                self.spec_slots() == answer_prefix(
                    initial,
                    self.spec_claims(),
                    answers@,
                    assigner,
                    index as nat,
                ).0,
            decreases answers@.len() - index,
        {
            let ghost before = self.spec_slots();
            proof {
                lemma_answer_prefix_len(initial, self.spec_claims(), answers@, assigner, index as nat);
            }
            let claim = self.claims[index];
            let slot = self.slots.remove(index);
            let ghost removed = slot;
            match slot {
                Err(collision) => {
                    self.slots.insert(index, Err(collision));
                },
                Ok(mut aggregator) => {
                    match answers[index] {
                        ShardAnswer::Signed { signature, valid } => {
                            if !valid {
                                self.slots.insert(index, Ok(aggregator));
                                proof {
                                    self.lemma_slots_after_insert(before, index as int, removed);
                                    self.lemma_refused_here(
                                        initial,
                                        answers@,
                                        assigner,
                                        index as nat,
                                        SubmitError::InvalidShard,
                                    );
                                    lemma_genuine_after(
                                        initial,
                                        self.spec_claims(),
                                        answers@,
                                        assigner,
                                        self.spec_slots(),
                                    );
                                }
                                return Err(SubmitError::InvalidShard);
                            }
                            let _ = aggregator.add(assigner, signature, valid);
                            self.slots.insert(index, Ok(aggregator));
                        },
                        ShardAnswer::Collided { claim: collided, valid } => {
                            if !valid {
                                self.slots.insert(index, Ok(aggregator));
                                proof {
                                    self.lemma_slots_after_insert(before, index as int, removed);
                                    self.lemma_refused_here(
                                        initial,
                                        answers@,
                                        assigner,
                                        index as nat,
                                        SubmitError::InvalidClaim,
                                    );
                                    lemma_genuine_after(
                                        initial,
                                        self.spec_claims(),
                                        answers@,
                                        assigner,
                                        self.spec_slots(),
                                    );
                                }
                                return Err(SubmitError::InvalidClaim);
                            }
                            if collided.id != claim.id || collided.client.equals(&claim.client) {
                                self.slots.insert(index, Ok(aggregator));
                                proof {
                                    self.lemma_slots_after_insert(before, index as int, removed);
                                    self.lemma_refused_here(
                                        initial,
                                        answers@,
                                        assigner,
                                        index as nat,
                                        SubmitError::NotACollision,
                                    );
                                    lemma_genuine_after(
                                        initial,
                                        self.spec_claims(),
                                        answers@,
                                        assigner,
                                        self.spec_slots(),
                                    );
                                }
                                return Err(SubmitError::NotACollision);
                            }
                            self.slots.insert(
                                index,
                                Err(Collision { brokered: claim, collided }),
                            );
                        },
                    }
                },
            }
            proof {
                let slots = self.spec_slots();
                assert(slots =~= before.update(index as int, slots[index as int]));
                assert(slots[index as int] == answer_step(
                    before[index as int],
                    self.spec_claims()[index as int],
                    answers@[index as int],
                    assigner,
                ).0);
            }
            index = index + 1;
        }
        self.multiplicity = self.multiplicity + 1;
        proof {
            assert(answers@.len() == index);
            lemma_genuine_after(initial, self.spec_claims(), answers@, assigner, self.spec_slots());
        }
        Ok(())
    }

    /// After a slot is put back unchanged, the slots are as before.
    proof fn lemma_refused_here(
        &self,
        initial: Seq<SlotState>,
        answers: Seq<ShardAnswer>,
        assigner: Identity,
        index: nat,
        error: SubmitError,
    )
        requires
            index < answers.len(),
            self.spec_slots().len() == answers.len(),
            initial.len() == answers.len(),
            answer_prefix(initial, self.spec_claims(), answers, assigner, index).1 is None,
            self.spec_slots() == answer_prefix(initial, self.spec_claims(), answers, assigner, index).0,
            answer_step(
                self.spec_slots()[index as int],
                self.spec_claims()[index as int],
                answers[index as int],
                assigner,
            ) == (self.spec_slots()[index as int], Some(error)),
        ensures
            answer_prefix(initial, self.spec_claims(), answers, assigner, answers.len()) == (
                self.spec_slots(),
                Some(error),
            ),
    {
        let before = self.spec_slots();
        assert(before.update(index as int, before[index as int]) =~= before);
        assert(answer_prefix(initial, self.spec_claims(), answers, assigner, index + 1) == (
            before,
            Some(error),
        ));
        lemma_answer_error_final(
            initial,
            self.spec_claims(),
            answers,
            assigner,
            index + 1,
            answers.len(),
        );
    }

    proof fn lemma_slots_after_insert(
        &self,
        before: Seq<SlotState>,
        index: int,
        slot: Result<Aggregator<IdClaim>, Collision>,
    )
        requires
            0 <= index < before.len(),
            before[index] == slot_state(slot),
            self.slots@.len() == before.len(),
            self.slots@[index] == slot,
            forall|i: int|
                0 <= i < before.len() && i != index ==> slot_state(#[trigger] self.slots@[i])
                    == before[i],
        ensures
            self.spec_slots() == before,
    {
        assert(self.spec_slots() =~= before);
    }

    /// Every member counted towards the multiplicity answered validly.
    pub fn multiplicity(&self) -> (result: usize)
        ensures
            result == self.spec_multiplicity(),
    {
        self.multiplicity
    }

    /// Whether a quorum of the view answered validly: the submission is then over.
    pub fn complete(&self) -> (result: bool)
        ensures
            result == (self.spec_multiplicity() >= self.spec_view().spec_quorum()),
    {
        self.multiplicity >= self.view.quorum()
    }

    /// The slots, each to be finalized into an assignment unless it holds a collision.
    pub fn into_slots(self) -> (result: Vec<Result<Aggregator<IdClaim>, Collision>>)
        ensures
            result@.map_values(|slot: Result<Aggregator<IdClaim>, Collision>| slot_state(slot))
                == self.spec_slots(),
    {
        self.slots
    }
}

/// The slots and multiplicity of a submission after the answer of one
/// assigner: `None` when the request to it failed. Only an answer of assignment
/// shards, one per claim, is applied (see `answer_prefix`), and the assigner
/// counts when all of them were valid; any other answer changes nothing.
pub open spec fn answer_effect(
    state: (Seq<SlotState>, nat),
    claims: Seq<IdClaim>,
    answer: (Identity, Option<SignupResponse>),
) -> (Seq<SlotState>, nat) {
    match answer.1 {
        Some(SignupResponse::IdAssignmentShards(shards)) => if shards@.len() != claims.len() {
            state
        } else {
            let (slots, error) = answer_prefix(state.0, claims, shards@, answer.0, shards@.len());
            (slots, if error is None {
                state.1 + 1
            } else {
                state.1
            })
        },
        _ => state,
    }
}

/// The slots and multiplicity of a submission after the first `n` answers.
pub open spec fn submission_after(
    claims: Seq<IdClaim>,
    answers: Seq<(Identity, Option<SignupResponse>)>,
    n: nat,
) -> (Seq<SlotState>, nat)
    decreases n,
{
    if n == 0 {
        (Seq::new(claims.len(), |i: int| Ok::<_, Collision>(Seq::<(Identity, MultiSignature)>::empty())), 0)
    } else {
        answer_effect(submission_after(claims, answers, (n - 1) as nat), claims, answers[n - 1])
    }
}

/// Submits `claims` to the members of `view`, whose answers arrive in the
/// order of `answers` (each with the member that gave it; `None` when the
/// request failed): the answers are applied one by one, and as soon as a
/// quorum of members have answered validly the slots are returned, to be
/// finalized; when the answers run out first, the multiplicity is insufficient.
pub fn submit_claims(
    view: view::View,
    claims: Vec<IdClaim>,
    answers: &Vec<(Identity, Option<SignupResponse>)>,
) -> (result: Result<Vec<Result<Aggregator<IdClaim>, Collision>>, SubmitError>)
    requires
        forall|i: int| 0 <= i < answers@.len() ==> view.member_ids().contains((#[trigger] answers@[i]).0@),
    ensures
        match result {
            Ok(slots) => exists|n: int|
                1 <= n <= answers@.len() && #[trigger] submission_after(claims@, answers@, n as nat).1
                    >= view.spec_quorum() && (forall|m: int|
                    1 <= m < n ==> #[trigger] submission_after(claims@, answers@, m as nat).1
                        < view.spec_quorum()) && slots@.map_values(
                    |slot: Result<Aggregator<IdClaim>, Collision>| slot_state(slot),
                ) == submission_after(claims@, answers@, n as nat).0,
            Err(error) => error == SubmitError::MultiplicityInsufficient && forall|n: int|
                1 <= n <= answers@.len() ==> #[trigger] submission_after(claims@, answers@, n as nat).1
                    < view.spec_quorum(),
        },
{
    let ghost all_claims = claims@;
    let ghost members = view.member_ids();
    let ghost quorum = view.spec_quorum();
    let mut submission = ClaimSubmission::new(view, claims);
    proof {
        assert(submission.spec_slots() == submission_after(all_claims, answers@, 0).0);
    }
    let mut index: usize = 0;
    while index < answers.len()
        invariant
            submission.wf(),
            submission.spec_view().member_ids() == members,
            submission.spec_view().spec_quorum() == quorum,
            submission.spec_claims() == all_claims,
            all_claims == claims@,
            quorum == view.spec_quorum(),
            forall|i: int| 0 <= i < answers@.len() ==> members.contains((#[trigger] answers@[i]).0@),
            0 <= index <= answers@.len(),
            submission.spec_multiplicity() <= index,
            (submission.spec_slots(), submission.spec_multiplicity()) == submission_after(
                all_claims,
                answers@,
                index as nat,
            ),
            forall|m: int|
                1 <= m <= index ==> #[trigger] submission_after(all_claims, answers@, m as nat).1 < quorum,
        decreases answers@.len() - index,
    {
        let (assigner, response) = &answers[index];
        let ghost before = (submission.spec_slots(), submission.spec_multiplicity());
        match response {
            Some(SignupResponse::IdAssignmentShards(shards)) => {
                let _ = submission.apply(*assigner, shards);
            },
            _ => {},
        }
        index = index + 1;
        proof {
            assert(submission_after(all_claims, answers@, index as nat) == answer_effect(
                before,
                all_claims,
                answers@[index - 1],
            ));
        }
        if submission.complete() {
            let slots = submission.into_slots();
            proof {
                let n = index as int;
                assert(submission_after(all_claims, answers@, n as nat).1 >= quorum);
            }
            return Ok(slots);
        }
    }
    Err(SubmitError::MultiplicityInsufficient)
}

/// Calls rayon's `par_sort_by_key` with the bytes of each item's identity as
/// key: the items are reordered (stably) so that their identities do not
/// descend in byte-wise lexicographic order, the order of byte arrays.
#[verifier::external_body]
fn sort_by_identity<T: Send>(items: &mut Vec<(Identity, T)>)
    ensures
        final(items)@.to_multiset() == old(items)@.to_multiset(),
        forall|i: int, j: int|
            0 <= i < j < final(items)@.len() ==> !precedes(
                (#[trigger] final(items)@[j]).0@,
                (#[trigger] final(items)@[i]).0@,
            ),
{
    items.par_sort_by_key(|item| item.0.hash.bytes)
}

/// The signup requests of a broker, each with the identity of its client,
/// reordered by increasing identity of the client.
pub fn sorted_by_identity<T: Send>(items: Vec<(Identity, T)>) -> (result: Vec<(Identity, T)>)
    ensures
        result@.to_multiset() == items@.to_multiset(),
        forall|i: int, j: int|
            0 <= i < j < result@.len() ==> !precedes(
                (#[trigger] result@[j]).0@,
                (#[trigger] result@[i]).0@,
            ),
{
    let mut items = items;
    sort_by_identity(&mut items);
    items
}

/// `items` cut, in order, into batches of `size`, the last of which may be
/// shorter: batch `i` holds the items from `i * size` up to `(i + 1) * size`,
/// or up to the end; there are as many batches, none empty, as it takes to
/// hold every item.
pub fn batches<T: Copy>(items: &Vec<T>, size: usize) -> (result: Vec<Vec<T>>)
    requires
        size > 0,
    ensures
        result@.len() * size >= items@.len(),
        forall|i: int|
            0 <= i < result@.len() ==> (#[trigger] result@[i])@.len() > 0 && result@[i]@
                == items@.subrange(
                i * size,
                if (i + 1) * size <= items@.len() {
                    (i + 1) * size
                } else {
                    items@.len() as int
                },
            ),
{
    let length = items.len();
    let mut result: Vec<Vec<T>> = Vec::new();
    let mut start: usize = 0;
    assert(result@.len() * size == 0) by (nonlinear_arith)
        requires
            result@.len() == 0,
    ;
    while start < length
        invariant
            length == items@.len(),
            size > 0,
            start <= length,
            start < length ==> start == result@.len() * size,
            start == length ==> result@.len() * size >= length,
            forall|i: int|
                0 <= i < result@.len() ==> (#[trigger] result@[i])@.len() > 0 && result@[i]@
                    == items@.subrange(
                    i * size,
                    if (i + 1) * size <= items@.len() {
                        (i + 1) * size
                    } else {
                        items@.len() as int
                    },
                ),
        decreases length - start,
    {
        let end = if length - start > size {
            start + size
        } else {
            length
        };
        let mut batch: Vec<T> = Vec::new();
        let mut index: usize = start;
        while index < end
            invariant
                length == items@.len(),
                start <= index <= end <= length,
                batch@ == items@.subrange(start as int, index as int),
            decreases end - index,
        {
            batch.push(items[index]);
            index = index + 1;
        }
        let ghost count = result@.len() as int;
        let ghost before = result@;
        assert((count + 1) * size == count * size + size) by (nonlinear_arith);
        assert(count * size == start);
        assert(batch@ == items@.subrange(
            count * size,
            if (count + 1) * size <= items@.len() {
                (count + 1) * size
            } else {
                items@.len() as int
            },
        ));
        result.push(batch);
        assert forall|i: int| 0 <= i < count implies #[trigger] result@[i] == before[i] by {}
        start = end;
    }
    result
}

/// Whether each client's identity is the identity on the assignment it got,
/// pairing the two lists in order as far as both go.
pub fn identities_match(clients: &Vec<Identity>, assigned: &Vec<Identity>) -> (result: bool)
    ensures
        result == forall|i: int|
            0 <= i < clients@.len() && i < assigned@.len() ==> (#[trigger] clients@[i])@ == assigned@[i]@,
{
    let mut index: usize = 0;
    while index < clients.len() && index < assigned.len()
        invariant
            0 <= index <= clients@.len(),
            forall|i: int|
                0 <= i < index && i < assigned@.len() ==> (#[trigger] clients@[i])@ == assigned@[i]@,
        decreases clients@.len() - index,
    {
        if !clients[index].equals(&assigned[index]) {
            return false;
        }
        index = index + 1;
    }
    true
}

} // verus!
