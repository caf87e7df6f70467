//! The insertion-ordered map that a configuration's `variables` section is read into.

use vstd::prelude::*;
use indexmap::IndexMap;

verus! {

#[verifier::external_type_specification]
#[verifier::external_body]
#[verifier::reject_recursive_types(K)]
#[verifier::reject_recursive_types(V)]
#[verifier::reject_recursive_types(S)]
pub struct ExIndexMap<K, V, S>(IndexMap<K, V, S>);

/// What an `IndexMap<String, String>` holds: its key/value entries, in the
/// order in which they were inserted.
pub uninterp spec fn index_map_entries(m: IndexMap<String, String>) -> Seq<(Seq<char>, Seq<char>)>;

/// The entries of `m` in insertion order (`IndexMap::into_iter`, collected).
///
/// Claims that the entries come out as the map holds them, in insertion order,
/// which is what `IndexMap`'s `IntoIterator` yields.
#[verifier::external_body]
pub(crate) fn index_map_into_entries(m: IndexMap<String, String>) -> (r: Vec<(String, String)>)
    ensures
        r@.map_values(|e: (String, String)| (e.0@, e.1@)) == index_map_entries(m),
{
    m.into_iter().collect()
}

} // verus!
