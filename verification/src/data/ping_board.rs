use vstd::prelude::*;

use crate::{crypto::Identity, data::Table, view};

verus! {

broadcast use vstd::seq_lib::group_to_multiset_ensures;

/// The ping of a replica that has not been measured: the longest duration,
/// in nanoseconds.
pub const UNMEASURED: u128 = 18_446_744_073_709_551_615_999_999_999u128;

/// The latest ping of each replica, in nanoseconds.
pub struct PingBoard {
    board: Table<u128>,
}

/// The identities are sorted by increasing ping on `board`.
pub open spec fn by_ping(board: Map<Seq<u8>, u128>, identities: Seq<Identity>) -> bool {
    forall|i: int, j: int|
        0 <= i < j < identities.len() ==> board[(#[trigger] identities[i])@] <= board[(
        #[trigger] identities[j])@]
}

impl PingBoard {
    /// The ping of each replica, by the bytes of its identity.
    pub closed spec fn spec_board(&self) -> Map<Seq<u8>, u128> {
        self.board.spec_map()
    }

    pub closed spec fn wf(&self) -> bool {
        self.board.wf()
    }

    /// A board on which every member of `view` is unmeasured.
    pub fn new(view: &view::View) -> (result: PingBoard)
        ensures
            result.wf(),
            result.spec_board().dom() == view.member_ids().to_set(),
            forall|id: Seq<u8>| #[trigger] result.spec_board().contains_key(id) ==> result.spec_board()[id]
                == UNMEASURED,
    {
        let members = view.members();
        let mut board: Table<u128> = Table::new();
        let mut index: usize = 0;
        while index < members.len()
            invariant
                members@ == view.spec_members(),
                board.wf(),
                0 <= index <= members@.len(),
                board.spec_map().dom() == view.member_ids().take(index as int).to_set(),
                forall|id: Seq<u8>| #[trigger] board.spec_map().contains_key(id) ==> board.spec_map()[id]
                    == UNMEASURED,
            decreases members@.len() - index,
        {
            board.insert(members[index].hash, UNMEASURED);
            proof {
                let ids = view.member_ids();
                assert(ids.take(index + 1) =~= ids.take(index as int).push(ids[index as int]));
                ids.take(index as int).lemma_push_to_set_commute(ids[index as int]);
            }
            index = index + 1;
        }
        assert(view.member_ids().take(index as int) =~= view.member_ids());
        PingBoard { board }
    }

    /// Records `ping` (in nanoseconds) as the latest ping of `replica`.
    pub fn submit(&mut self, replica: Identity, ping: u128)
        requires
            old(self).wf(),
        ensures
            final(self).wf(),
            final(self).spec_board() == old(self).spec_board().insert(replica@, ping),
    {
        self.board.insert(replica.hash, ping);
    }

    /// Every replica on the board, each exactly once, by increasing ping.
    pub fn rankings(&self) -> (result: Vec<Identity>)
        requires
            self.wf(),
        ensures
            result@.len() == self.spec_board().dom().len(),
            result@.map_values(|identity: Identity| identity@).to_set() == self.spec_board().dom(),
            result@.map_values(|identity: Identity| identity@).no_duplicates(),
            by_ping(self.spec_board(), result@),
    {
        let entries = self.board.entries();
        let ghost board = self.spec_board();
        let ghost keys = crate::data::table::keys_of(entries@);
        proof {
            self.board.lemma_domain();
        }
        let mut result: Vec<Identity> = Vec::new();
        let mut pings: Vec<u128> = Vec::new();
        let mut index: usize = 0;
        while index < entries.len()
            invariant
                board == self.spec_board(),
                keys == crate::data::table::keys_of(entries@),
                keys.no_duplicates(),
                board == crate::data::table::map_of(entries@),
                0 <= index <= entries@.len(),
                result@.len() == index,
                pings@.len() == index,
                forall|i: int| 0 <= i < index ==> (#[trigger] pings@[i]) == board[result@[i]@],
                result@.map_values(|identity: Identity| identity@).to_multiset()
                    == keys.take(index as int).to_multiset(),
                by_ping(board, result@),
            decreases entries@.len() - index,
        {
            let (key, ping) = entries[index];
            let identity = Identity { hash: key };
            proof {
                assert(keys[index as int] == key@);
                assert(keys.contains(key@));
                assert(keys.index_of(key@) == index) by {
                    let j = keys.index_of(key@);
                    assert(keys[j] == key@);
                }
                assert(board[identity@] == ping);
            }
            let mut position: usize = result.len();
            while position > 0 && pings[position - 1] > ping
                invariant
                    0 <= position <= pings@.len(),
                    forall|i: int| position <= i < pings@.len() ==> (#[trigger] pings@[i]) > ping,
                decreases position,
            {
                position = position - 1;
            }
            let ghost before = result@;
            let ghost before_pings = pings@;
            result.insert(position, identity);
            pings.insert(position, ping);
            proof {
                assert forall|i: int| 0 <= i < index + 1 implies (#[trigger] pings@[i]) == board[result@[i]@] by {
                    if i < position {
                        assert(pings@[i] == before_pings[i] && result@[i] == before[i]);
                    } else if i > position {
                        assert(pings@[i] == before_pings[i - 1] && result@[i] == before[i - 1]);
                    }
                }
                assert forall|i: int, j: int|
                    0 <= i < j < result@.len() implies board[(#[trigger] result@[i])@] <= board[(
                    #[trigger] result@[j])@] by {
                    assert(pings@[i] == board[result@[i]@]);
                    assert(pings@[j] == board[result@[j]@]);
                    if j < position {
                        assert(before_pings[i] <= before_pings[j]) by {
                            assert(board[before[i]@] <= board[before[j]@]);
                        }
                    } else if j == position {
                        assert(before_pings[i] <= ping);
                    } else if i > position {
                        assert(board[before[i - 1]@] <= board[before[j - 1]@]);
                    } else if i == position {
                        assert(before_pings[j - 1] > ping);
                    } else {
                        assert(board[before[i]@] <= board[before[j - 1]@]);
                    }
                }
                assert(result@.map_values(|identity: Identity| identity@) =~= before.map_values(
                    |identity: Identity| identity@,
                ).insert(position as int, identity@));
                assert(keys.take(index + 1) =~= keys.take(index as int).push(keys[index as int]));
            }
            index = index + 1;
        }
        proof {
            assert(keys.take(index as int) =~= keys);
            let ids = result@.map_values(|identity: Identity| identity@);
            assert(ids.to_multiset() == keys.to_multiset());
            assert forall|id: Seq<u8>| ids.to_set().contains(id) <==> keys.to_set().contains(id) by {
                assert(ids.to_multiset().count(id) == keys.to_multiset().count(id));
            }
            assert(ids.to_set() =~= keys.to_set());
            keys.lemma_multiset_has_no_duplicates();
            ids.lemma_multiset_has_no_duplicates_conv();
        }
        result
    }
}

} // verus!
