//! Item-by-item work handed to a thread pool.

use rayon::iter::{IntoParallelRefIterator, ParallelIterator};
use vstd::prelude::*;

verus! {

/// Applies `f` to every item with `rayon`'s `par_iter().map(..).collect()`.
///
/// Trusted: `rayon` hands each item to `f` once, and collecting an indexed parallel
/// iterator into a `Vec` keeps the order of the items. So the result holds, at each
/// position, a value that `f` may return for the item at that position.
#[verifier::external_body]
pub(crate) fn par_map<T: Sync, U: Send, F: Fn(&T) -> U + Sync + Send>(
    items: &Vec<T>,
    f: F,
) -> (results: Vec<U>)
    requires
        forall|i: int|
            #![trigger items@[i]]
            0 <= i < items@.len() ==> call_requires(f, (&items@[i],)),
    ensures
        results@.len() == items@.len(),
        forall|i: int|
            #![trigger results@[i]]
            0 <= i < items@.len() ==> call_ensures(f, (&items@[i],), results@[i]),
{
    items.par_iter().map(f).collect()
}

} // verus!
