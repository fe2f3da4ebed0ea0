use vstd::prelude::*;
use crate::models::Block;
use crate::errors::QueryError;
use crate::store::{Store, has_id};
use crate::aggregate::{aggregate_spec, pairs_view};

verus! {

/// Point lookup by id. An absent id is the normal "not found" outcome,
/// reported as `None`, never as an error.
pub fn block_by_id<'a>(store: &'a Store, id: u64) -> (r: Option<&'a Block>)
    ensures
        r matches Some(b) ==> b.block_id == id && store@.contains(*b),
        r is None ==> !has_id(store@, id),
{
    store.get_by_id(id)
}

/// Pubkey occurrence counts over the stored blocks with id in `[lo, hi]`,
/// ordered by count descending, ties in first-seen order. A range whose low
/// end exceeds its high end is rejected before any scan; an empty result is
/// a normal outcome, distinguishable from any failure.
pub fn pubkey_counts_in_range(store: &Store, lo: u64, hi: u64) -> (r: Result<
    Vec<(String, u64)>,
    QueryError,
>)
    ensures
        lo > hi ==> r == Err::<Vec<(String, u64)>, QueryError>(QueryError::InvalidRange),
        lo <= hi ==> (r matches Ok(v) && pairs_view(v@) == aggregate_spec(store@, lo, hi)),
{
    store.range_aggregate(lo, hi)
}

/// Pubkey occurrence counts over the full stored corpus, in the same order
/// as the range aggregate. An empty store yields an empty result, a normal
/// outcome.
pub fn all_pubkey_counts(store: &Store) -> (r: Vec<(String, u64)>)
    ensures
        pairs_view(r@) == aggregate_spec(store@, 0, u64::MAX),
{
    match store.range_aggregate(0, u64::MAX) {
        Ok(v) => v,
        Err(_) => {
            proof {
                assert(false);
            }
            Vec::new()
        },
    }
}

} // verus!
