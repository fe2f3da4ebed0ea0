use vstd::prelude::*;
use crate::models;
use crate::models::strs_view;

verus! {

/// One final hash as it appears in the upstream block document.
pub struct FinalHash {
    pub final_hash: String,
    pub count: u32,
    pub pubkeys: Vec<String>,
}

/// One entry as it appears in the upstream block document.
pub struct Entry {
    pub block_id: String,
    pub final_hashes: Vec<FinalHash>,
}

/// The upstream block document: what one fetch of a block id answers with,
/// before normalization into the canonical `Block` entity.
pub struct ApiResponse {
    pub block_id: u64,
    pub entries: Vec<Entry>,
}

/// The canonical final hash carries exactly the wire final hash's data.
pub open spec fn hash_matches(a: FinalHash, m: models::FinalHash) -> bool {
    &&& a.final_hash@ == m.final_hash@
    &&& a.count == m.count
    &&& strs_view(a.pubkeys@) == strs_view(m.pubkeys@)
}

/// The canonical entry carries exactly the wire entry's data, in order.
pub open spec fn entry_matches(a: Entry, m: models::Entry) -> bool {
    &&& a.block_id@ == m.block_id@
    &&& a.final_hashes@.len() == m.final_hashes@.len()
    &&& forall|i: int|
        0 <= i < a.final_hashes@.len() ==> hash_matches(
            #[trigger] a.final_hashes@[i],
            m.final_hashes@[i],
        )
}

/// The canonical block carries exactly the wire document's data, in order.
pub open spec fn response_matches(a: ApiResponse, b: models::Block) -> bool {
    &&& a.block_id == b.block_id
    &&& a.entries@.len() == b.entries@.len()
    &&& forall|i: int|
        0 <= i < a.entries@.len() ==> entry_matches(#[trigger] a.entries@[i], b.entries@[i])
}

fn convert_hashes(hashes: Vec<FinalHash>) -> (out: Vec<models::FinalHash>)
    ensures
        out@.len() == hashes@.len(),
        forall|i: int| 0 <= i < out@.len() ==> hash_matches(hashes@[i], #[trigger] out@[i]),
{
    let ghost orig = hashes@;
    let mut rest = hashes;
    let mut out: Vec<models::FinalHash> = Vec::new();
    while rest.len() > 0
        invariant
            rest@.len() + out@.len() == orig.len(),
            forall|k: int| 0 <= k < rest@.len() ==> rest@[k] == orig[k + out@.len()],
            forall|i: int| 0 <= i < out@.len() ==> hash_matches(orig[i], #[trigger] out@[i]),
        decreases rest@.len(),
    {
        let f = rest.remove(0);
        out.push(models::FinalHash { final_hash: f.final_hash, count: f.count, pubkeys: f.pubkeys });
    }
    out
}

fn convert_entries(entries: Vec<Entry>) -> (out: Vec<models::Entry>)
    ensures
        out@.len() == entries@.len(),
        forall|i: int| 0 <= i < out@.len() ==> entry_matches(entries@[i], #[trigger] out@[i]),
{
    let ghost orig = entries@;
    let mut rest = entries;
    let mut out: Vec<models::Entry> = Vec::new();
    while rest.len() > 0
        invariant
            rest@.len() + out@.len() == orig.len(),
            forall|k: int| 0 <= k < rest@.len() ==> rest@[k] == orig[k + out@.len()],
            forall|i: int| 0 <= i < out@.len() ==> entry_matches(orig[i], #[trigger] out@[i]),
        decreases rest@.len(),
    {
        let e = rest.remove(0);
        let converted = models::Entry {
            block_id: e.block_id,
            final_hashes: convert_hashes(e.final_hashes),
        };
        out.push(converted);
    }
    out
}

impl ApiResponse {
    /// Normalize the upstream document into the canonical `Block` entity,
    /// carrying every field through unchanged and keeping every sequence's
    /// order.
    pub fn into_block(self) -> (b: models::Block)
        ensures
            response_matches(self, b),
    {
        models::Block { block_id: self.block_id, entries: convert_entries(self.entries) }
    }
}

} // verus!
