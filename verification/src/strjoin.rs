//! String joining for the display helpers, through itertools.

use vstd::prelude::*;
use itertools::Itertools;

verus! {

/// The elements in order with the separator between consecutive ones.
pub open spec fn join_with(items: Seq<Seq<char>>, sep: Seq<char>) -> Seq<char>
    decreases items.len(),
{
    if items.len() == 0 {
        Seq::empty()
    } else if items.len() == 1 {
        items[0]
    } else {
        join_with(items.drop_last(), sep) + sep + items.last()
    }
}

/// Relies on itertools' `Itertools::join` over a string iterator: each
/// element is rendered (a `String` displays as its own contents) with the
/// separator inserted between consecutive elements.
#[verifier::external_body]
pub(crate) fn join_strings(items: &Vec<String>, sep: &str) -> (r: String)
    ensures
        r@ == join_with(crate::names::views_of(items@), sep@),
{
    items.iter().join(sep)
}

} // verus!
