use vstd::prelude::*;

use crate::{crypto::Identity, data::Table};

verus! {

/// Why a key card cannot be obtained.
#[derive(Debug, Clone, Copy, PartialEq, Eq, Structural)]
pub enum DirectoryError {
    CardUnknown,
}

/// The key cards learned from the rendezvous service, by identity.
pub struct Directory<Card> {
    cache: Table<Card>,
}

impl<Card> Directory<Card> {
    /// The cached card of each identity, by the bytes of the identity.
    pub closed spec fn spec_cache(&self) -> Map<Seq<u8>, Card> {
        self.cache.spec_map()
    }

    pub closed spec fn wf(&self) -> bool {
        self.cache.wf()
    }

    pub fn new() -> (result: Directory<Card>)
        ensures
            result.wf(),
            result.spec_cache() == Map::<Seq<u8>, Card>::empty(),
    {
        Directory { cache: Table::new() }
    }

    /// The cached card of `identity`, if any.
    pub fn search(&self, identity: Identity) -> (result: Option<&Card>)
        requires
            self.wf(),
        ensures
            match result {
                Some(card) => self.spec_cache().contains_key(identity@) && *card
                    == self.spec_cache()[identity@],
                None => !self.spec_cache().contains_key(identity@),
            },
    {
        self.cache.get(&identity.hash)
    }

    /// Caches `card` under `identity`, its own identity.
    pub fn store(&mut self, identity: Identity, card: Card)
        requires
            old(self).wf(),
        ensures
            final(self).wf(),
            final(self).spec_cache() == old(self).spec_cache().insert(identity@, card),
    {
        self.cache.insert(identity.hash, card);
    }

}

impl<Card: Copy> Directory<Card> {
    /// Looks up the card of `identity`: the cached card if there is one;
    /// otherwise the card fetched from the rendezvous service (`fetched`, the
    /// card with its own identity, `None` when the service does not know
    /// `identity`), which is then cached under its own identity.
    pub fn resolve(&mut self, identity: Identity, fetched: Option<(Identity, Card)>) -> (result: Result<
        Card,
        DirectoryError,
    >)
        requires
            old(self).wf(),
        ensures
            final(self).wf(),
            if old(self).spec_cache().contains_key(identity@) {
                &&& result == Ok::<Card, DirectoryError>(old(self).spec_cache()[identity@])
                &&& final(self).spec_cache() == old(self).spec_cache()
            } else {
                match fetched {
                    Some((owner, card)) => {
                        &&& result == Ok::<Card, DirectoryError>(card)
                        &&& final(self).spec_cache() == old(self).spec_cache().insert(owner@, card)
                    },
                    None => {
                        &&& result == Err::<Card, DirectoryError>(DirectoryError::CardUnknown)
                        &&& final(self).spec_cache() == old(self).spec_cache()
                    },
                }
            },
    {
        if let Some(card) = self.search(identity) {
            return Ok(*card);
        }
        match fetched {
            Some((owner, card)) => {
                self.store(owner, card);
                Ok(card)
            },
            None => Err(DirectoryError::CardUnknown),
        }
    }
}

} // verus!
