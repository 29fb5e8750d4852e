//! Trusted declarations for the insertion-ordered name mapping carried by
//! the as-of merge node.

use vstd::prelude::*;
use std::collections::hash_map::RandomState;

verus! {

#[verifier::external_type_specification]
#[verifier::external_body]
#[verifier::reject_recursive_types(K)]
#[verifier::reject_recursive_types(V)]
#[verifier::reject_recursive_types(S)]
pub struct ExIndexMap<K, V, S>(indexmap::IndexMap<K, V, S>);

/// The entries a name mapping holds, as (key, value) views in insertion
/// order.
pub uninterp spec fn index_map_entries(m: indexmap::IndexMap<String, String, RandomState>) -> Seq<
    (Seq<char>, Seq<char>),
>;

/// First position of a key among entries, or `-1` when absent.
pub open spec fn entry_key_index(entries: Seq<(Seq<char>, Seq<char>)>, k: Seq<char>) -> int
    decreases entries.len(),
{
    if entries.len() == 0 {
        -1
    } else if entries[0].0 == k {
        0
    } else {
        let rest = entry_key_index(entries.drop_first(), k);
        if rest == -1 {
            -1
        } else {
            rest + 1
        }
    }
}

/// Relies on `IndexMap::new`: a fresh map holds no entries.
#[verifier::external_body]
pub(crate) fn index_map_new() -> (r: indexmap::IndexMap<String, String, RandomState>)
    ensures
        index_map_entries(r) == Seq::<(Seq<char>, Seq<char>)>::empty(),
{
    indexmap::IndexMap::new()
}

/// Relies on `IndexMap::insert`: an equivalent key keeps its place in the
/// order and only its value is updated; a new key is appended last.
#[verifier::external_body]
pub(crate) fn index_map_insert(
    m: &mut indexmap::IndexMap<String, String, RandomState>,
    k: String,
    v: String,
)
    ensures
        ({
            let pre = index_map_entries(*old(m));
            let i = entry_key_index(pre, k@);
            if i >= 0 {
                index_map_entries(*final(m)) == pre.update(i, (k@, v@))
            } else {
                index_map_entries(*final(m)) == pre.push((k@, v@))
            }
        }),
{
    m.insert(k, v);
}

} // verus!
