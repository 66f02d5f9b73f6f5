use vstd::prelude::*;

use std::collections::BTreeSet;

use crate::account::Id;

verus! {

broadcast use vstd::std_specs::btree::group_btree_axioms;

/// The elements of `set`, in increasing order.
pub fn elements(set: &BTreeSet<Id>) -> (result: Vec<Id>)
    ensures
        result@.to_set() == set@,
        result@.no_duplicates(),
{
    let mut result: Vec<Id> = Vec::new();
    for element in iter: set.iter()
        invariant
            iter.seq().unref().to_set() == set@,
            iter.seq().unref().no_duplicates(),
            result@ == iter.seq().take(iter.index() as int).unref(),
            iter.index() == iter.seq().len() ==> result@.to_set() == set@ && result@.no_duplicates(),
    {
        result.push(*element);
        proof {
            assert(iter.seq().take(iter.index() + 1).unref() =~= iter.seq().take(
                iter.index() as int,
            ).unref().push(*element));
            assert(iter.seq().take(iter.seq().len() as int) =~= iter.seq());
        }
    }
    result
}

} // verus!
