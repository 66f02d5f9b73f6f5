use vstd::prelude::*;

use crate::{
    crypto::Digest,
    discovery::{database::Database, request::Response},
    view::{self, Install, Transition},
};

verus! {

/// Why an update from a discovery server is refused.
#[derive(Debug, Clone, Copy, PartialEq, Eq, Structural)]
pub enum AcquireError {
    InvalidInstall,
}

/// Why a subscription is closed by the client's rules.
#[derive(Debug, Clone, Copy, PartialEq, Eq, Structural)]
pub enum ListenError {
    AcquireError,
    UnexpectedResponse,
}

/// An install received from a discovery server, with the view it reaches and
/// its digest.
pub struct Received {
    pub install: Install,
    pub destination: view::View,
    pub hash: Digest,
}

/// What a discovery client knows: its database, and the highest view height it has reached.
pub struct ClientState {
    pub database: Database,
    pub top: usize,
}

/// The abstract state of a client while it acquires an update.
pub struct Acquisition {
    pub views: Map<Seq<u8>, view::View>,
    pub installs: Map<Seq<u8>, Install>,
    pub top: nat,
    /// The transitions that raised `top`, in order.
    pub raised: Seq<Transition>,
    /// An install with an unknown source was met; nothing after it is acquired.
    pub failed: bool,
}

/// The state after acquiring one received install: an install whose source is
/// known makes its destination known, is recorded under its digest, and raises
/// the top when it leads higher; any other install stops the acquisition.
pub open spec fn acquire_step(state: Acquisition, received: Received) -> Acquisition {
    if state.failed {
        state
    } else if state.views.contains_key(received.install.source@) {
        let higher = received.install.destination_height > state.top;
        Acquisition {
            views: state.views.insert(received.install.destination@, received.destination),
            installs: state.installs.insert(received.hash@, received.install),
            top: if higher {
                received.install.destination_height as nat
            } else {
                state.top
            },
            raised: if higher {
                state.raised.push(received.install.spec_transition())
            } else {
                state.raised
            },
            failed: false,
        }
    } else {
        Acquisition { failed: true, ..state }
    }
}

/// The state after acquiring `update`, in order.
pub open spec fn acquire_all(state: Acquisition, update: Seq<Received>) -> Acquisition
    decreases update.len(),
{
    if update.len() == 0 {
        state
    } else {
        acquire_step(acquire_all(state, update.drop_last()), update.last())
    }
}

/// Acquiring never forgets: the top never decreases, and every view and install
/// known before stays known.
pub proof fn lemma_acquire_monotone(state: Acquisition, update: Seq<Received>)
    ensures
        acquire_all(state, update).top >= state.top,
        forall|key: Seq<u8>| #[trigger] state.views.contains_key(key) ==> acquire_all(state, update).views.contains_key(key),
        forall|key: Seq<u8>| #[trigger] state.installs.contains_key(key) ==> acquire_all(state, update).installs.contains_key(key),
    decreases update.len(),
{
    if update.len() > 0 {
        lemma_acquire_monotone(state, update.drop_last());
    }
}

/// The transitions announced while acquiring an update lead ever higher: each
/// one leads higher than the top before the update and than every transition
/// announced before it, and the last one leads to the new top.
pub proof fn lemma_raised_ascend(state: Acquisition, update: Seq<Received>)
    requires
        state.raised.len() == 0,
    ensures
        ({
            let after = acquire_all(state, update);
            &&& forall|i: int|
                0 <= i < after.raised.len() ==> state.top < #[trigger] after.raised[i].destination_height
                    <= after.top
            &&& forall|i: int, j: int|
                0 <= i < j < after.raised.len() ==> #[trigger] after.raised[i].destination_height
                    < #[trigger] after.raised[j].destination_height
            &&& after.raised.len() > 0 ==> after.raised.last().destination_height == after.top
        }),
    decreases update.len(),
{
    if update.len() > 0 {
        lemma_raised_ascend(state, update.drop_last());
        lemma_acquire_monotone(state, update.drop_last());
    }
}

/// Acquiring two updates one after the other is acquiring them joined.
pub proof fn lemma_acquire_all_append(state: Acquisition, first: Seq<Received>, second: Seq<Received>)
    ensures
        acquire_all(state, first + second) == acquire_all(acquire_all(state, first), second),
    decreases second.len(),
{
    if second.len() == 0 {
        assert(first + second =~= first);
    } else {
        lemma_acquire_all_append(state, first, second.drop_last());
        assert((first + second).drop_last() =~= first + second.drop_last());
    }
}

/// Every install of an update met before the first one whose source is
/// unknown ends up recorded under its digest, whatever views and installs were
/// already known, and its destination ends up known.
pub proof fn lemma_acquired_recorded(state: Acquisition, update: Seq<Received>, i: int)
    requires
        0 <= i < update.len(),
        !acquire_all(state, update.take(i + 1)).failed,
    ensures
        acquire_all(state, update).installs.contains_key(update[i].hash@),
        acquire_all(state, update).views.contains_key(update[i].install.destination@),
{
    let head = update.take(i + 1);
    assert(head.drop_last() =~= update.take(i));
    assert(head.last() == update[i]);
    let reached = acquire_all(state, head);
    assert(reached.installs.contains_key(update[i].hash@));
    assert(reached.views.contains_key(update[i].install.destination@));
    let rest = update.skip(i + 1);
    assert(head + rest =~= update);
    lemma_acquire_all_append(state, head, rest);
    lemma_acquire_monotone(reached, rest);
}

/// Once an acquisition fails, later installs change nothing.
pub proof fn lemma_failure_is_final(state: Acquisition, update: Seq<Received>, failed_at: int, upto: int)
    requires
        0 <= failed_at <= upto <= update.len(),
        acquire_all(state, update.take(failed_at)).failed,
    ensures
        acquire_all(state, update.take(upto)) == acquire_all(state, update.take(failed_at)),
    decreases upto - failed_at,
{
    if upto > failed_at {
        lemma_failure_is_final(state, update, failed_at, upto - 1);
        assert(update.take(upto).drop_last() =~= update.take(upto - 1));
    }
}

impl ClientState {
    pub open spec fn wf(&self) -> bool {
        self.database.wf()
    }

    pub open spec fn abstraction(&self) -> Acquisition {
        Acquisition {
            views: self.database.views.spec_map(),
            installs: self.database.installs.spec_map(),
            top: self.top as nat,
            raised: Seq::empty(),
            failed: false,
        }
    }

    /// A client that knows only `genesis`.
    pub fn new(genesis: view::View) -> (result: ClientState)
        ensures
            result.wf(),
            result.top == genesis.spec_height(),
            result.database.views.spec_map() == Map::<Seq<u8>, view::View>::empty().insert(
                genesis.spec_identifier()@,
                genesis,
            ),
            result.database.installs.spec_map() == Map::<Seq<u8>, Install>::empty(),
    {
        let top = genesis.height();
        ClientState { database: Database::new(genesis), top }
    }

    /// Acquires the installs of `update`, in order, and returns the transitions
    /// that raised the top, to be announced; stops at the first install whose
    /// source is unknown and reports it, keeping what was acquired before it
    /// and still returning the transitions raised before it.
    pub fn acquire(&mut self, update: Vec<Received>) -> (result: (Vec<Transition>, Result<
        (),
        AcquireError,
    >))
        requires
            old(self).wf(),
        ensures
            final(self).wf(),
            ({
                let after = acquire_all(old(self).abstraction(), update@);
                &&& final(self).database.views.spec_map() == after.views
                &&& final(self).database.installs.spec_map() == after.installs
                &&& final(self).top == after.top
                &&& result.0@ == after.raised
                &&& match result.1 {
                    Ok(()) => !after.failed,
                    Err(error) => after.failed && error == AcquireError::InvalidInstall,
                }
            }),
            forall|i: int|
                0 <= i < update@.len() && !acquire_all(old(self).abstraction(), update@.take(i + 1)).failed
                    ==> final(self).database.installs.spec_map().contains_key(
                    (#[trigger] update@[i]).hash@,
                ),
    {
        let ghost initial = self.abstraction();
        proof {
            assert forall|i: int|
                0 <= i < update@.len() && !acquire_all(initial, update@.take(i + 1)).failed
                    implies acquire_all(initial, update@).installs.contains_key(
                (#[trigger] update@[i]).hash@,
            ) by {
                lemma_acquired_recorded(initial, update@, i);
            }
        }
        let ghost all = update@;
        let mut pending = update;
        let mut raised: Vec<Transition> = Vec::new();
        let mut index: usize = 0;
        let length = pending.len();
        while pending.len() > 0
            invariant
                self.wf(),
                all.len() == length,
                all == update@,
                initial == old(self).abstraction(),
                0 <= index <= all.len(),
                pending@ == all.skip(index as int),
                ({
                    let state = acquire_all(initial, all.take(index as int));
                    &&& !state.failed
                    &&& self.database.views.spec_map() == state.views
                    &&& self.database.installs.spec_map() == state.installs
                    &&& self.top == state.top
                    &&& raised@ == state.raised
                }),
            decreases pending@.len(),
        {
            let received = pending.remove(0);
            proof {
                assert(all.take(index + 1).drop_last() =~= all.take(index as int));
                assert(all[index as int] == received);
            }
            index = index + 1;
            if !self.database.views.contains_key(&received.install.source) {
                proof {
                    let before = acquire_all(initial, all.take(index - 1));
                    assert(all.take(index as int).drop_last() =~= all.take(index - 1));
                    assert(all.take(index as int).last() == received);
                    assert(before.views == self.database.views.spec_map());
                    assert(acquire_all(initial, all.take(index as int)) == acquire_step(before, received));
                    assert(acquire_all(initial, all.take(index as int)).failed);
                    lemma_failure_is_final(initial, all, index as int, all.len() as int);
                    assert(all.take(all.len() as int) =~= all);
                    let after = acquire_all(initial, all);
                    assert(after.failed);
                    assert(self.database.views.spec_map() == after.views);
                    assert(self.database.installs.spec_map() == after.installs);
                    assert(self.top == after.top);
                    assert(raised@ == after.raised);
                    assert forall|j: int|
                        0 <= j < all.len() && !acquire_all(initial, all.take(j + 1)).failed
                            implies acquire_all(initial, all).installs.contains_key(
                        (#[trigger] all[j]).hash@,
                    ) by {
                        lemma_acquired_recorded(initial, all, j);
                    }
                }
                return (raised, Err(AcquireError::InvalidInstall));
            }
            let install = received.install;
            self.database.views.insert(install.destination, received.destination);
            self.database.installs.insert(received.hash, install);
            if install.destination_height > self.top {
                self.top = install.destination_height;
                raised.push(install.into_transition());
            }
        }
        proof {
            assert(all.take(index as int) =~= all);
        }
        (raised, Ok(()))
    }

    /// Handles a response received on a subscription: the installs of an
    /// update are acquired (see `acquire`; `update` holds them, in order, with
    /// the views they reach and their digests), a keep-alive changes nothing,
    /// and an acknowledgement closes the subscription. The transitions raised
    /// are returned in every case, to be announced.
    pub fn receive(&mut self, response: &Response, update: Vec<Received>) -> (result: (Vec<
        Transition,
    >, Result<(), ListenError>))
        requires
            old(self).wf(),
            match response {
                Response::Update(installs) => update@.len() == installs@.len() && forall|i: int|
                    0 <= i < installs@.len() ==> (#[trigger] update@[i]).install == installs@[i],
                _ => update@.len() == 0,
            },
        ensures
            final(self).wf(),
            match response {
                Response::Update(_) => {
                    let after = acquire_all(old(self).abstraction(), update@);
                    &&& final(self).database.views.spec_map() == after.views
                    &&& final(self).database.installs.spec_map() == after.installs
                    &&& final(self).top == after.top
                    &&& result.0@ == after.raised
                    &&& match result.1 {
                        Ok(()) => !after.failed,
                        Err(error) => after.failed && error == ListenError::AcquireError,
                    }
                },
                Response::KeepAlive => {
                    &&& result.0@.len() == 0
                    &&& result.1 == Ok::<(), ListenError>(())
                    &&& final(self).database.views.spec_map() == old(self).database.views.spec_map()
                    &&& final(self).database.installs.spec_map() == old(self).database.installs.spec_map()
                    &&& final(self).top == old(self).top
                },
                Response::AcknowledgePublish => {
                    &&& result.0@.len() == 0
                    &&& result.1 == Err::<(), ListenError>(ListenError::UnexpectedResponse)
                    &&& final(self).database.views.spec_map() == old(self).database.views.spec_map()
                    &&& final(self).database.installs.spec_map() == old(self).database.installs.spec_map()
                    &&& final(self).top == old(self).top
                },
            },
    {
        match response {
            Response::Update(_) => {
                let (raised, outcome) = self.acquire(update);
                match outcome {
                    Ok(()) => (raised, Ok(())),
                    Err(_) => (raised, Err(ListenError::AcquireError)),
                }
            },
            Response::KeepAlive => (Vec::new(), Ok(())),
            Response::AcknowledgePublish => (Vec::new(), Err(ListenError::UnexpectedResponse)),
        }
    }

    /// The view identified by `identifier`, if known.
    pub fn view(&self, identifier: &Digest) -> (result: Option<&view::View>)
        requires
            self.wf(),
        ensures
            match result {
                Some(view) => self.database.views.spec_map().contains_key(identifier@) && *view
                    == self.database.views.spec_map()[identifier@],
                None => !self.database.views.spec_map().contains_key(identifier@),
            },
    {
        self.database.view(identifier)
    }

    /// The install of digest `hash`, if known.
    pub fn install(&self, hash: &Digest) -> (result: Option<Install>)
        requires
            self.wf(),
        ensures
            match result {
                Some(install) => self.database.installs.spec_map().contains_key(hash@) && install
                    == self.database.installs.spec_map()[hash@],
                None => !self.database.installs.spec_map().contains_key(hash@),
            },
    {
        self.database.install(hash)
    }
}

} // verus!
