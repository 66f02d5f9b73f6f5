use vstd::prelude::*;

use crate::{
    crypto::Digest,
    data::Table,
    view::{self, Install},
};

verus! {

/// What a discovery server or client knows: the views reachable from genesis,
/// by identifier, and the installs that reach them, by digest.
pub struct Database {
    pub views: Table<view::View>,
    pub installs: Table<Install>,
}

impl Database {
    pub open spec fn wf(&self) -> bool {
        self.views.wf() && self.installs.wf()
    }

    /// A database that knows only the `genesis` view.
    pub fn new(genesis: view::View) -> (result: Database)
        ensures
            result.wf(),
            result.views.spec_map() == Map::<Seq<u8>, view::View>::empty().insert(
                genesis.spec_identifier()@,
                genesis,
            ),
            result.installs.spec_map() == Map::<Seq<u8>, Install>::empty(),
    {
        let mut views = Table::new();
        let identifier = genesis.identifier();
        views.insert(identifier, genesis);
        Database { views, installs: Table::new() }
    }

    /// The view identified by `identifier`, if known.
    pub fn view(&self, identifier: &Digest) -> (result: Option<&view::View>)
        requires
            self.wf(),
        ensures
            match result {
                Some(view) => self.views.spec_map().contains_key(identifier@) && *view
                    == self.views.spec_map()[identifier@],
                None => !self.views.spec_map().contains_key(identifier@),
            },
    {
        self.views.get(identifier)
    }

    /// The install of digest `hash`, if known.
    pub fn install(&self, hash: &Digest) -> (result: Option<Install>)
        requires
            self.wf(),
        ensures
            match result {
                Some(install) => self.installs.spec_map().contains_key(hash@) && install
                    == self.installs.spec_map()[hash@],
                None => !self.installs.spec_map().contains_key(hash@),
            },
    {
        match self.installs.get(hash) {
            Some(install) => Some(*install),
            None => None,
        }
    }
}

} // verus!
