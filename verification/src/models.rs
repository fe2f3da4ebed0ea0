use vstd::prelude::*;

verus! {

/// One upstream-ingested unit of data, keyed by a numeric id and holding an
/// ordered sequence of entries.
pub struct Block {
    pub block_id: u64,
    pub entries: Vec<Entry>,
}

/// A sub-record of a `Block`. Its `block_id` is a provenance string handed
/// down by the upstream source and is independent of the owning `Block`'s
/// numeric id; it is carried through unchanged.
pub struct Entry {
    pub block_id: String,
    pub final_hashes: Vec<FinalHash>,
}

/// A named hash value together with an occurrence count and the pubkeys that
/// produced it. `pubkeys` may contain duplicates; aggregation treats each
/// occurrence as one unit and does not deduplicate.
pub struct FinalHash {
    pub final_hash: String,
    pub count: u32,
    pub pubkeys: Vec<String>,
}

/// The mathematical view of a vector of strings: the sequence of their
/// character sequences.
pub open spec fn strs_view(ss: Seq<String>) -> Seq<Seq<char>> {
    ss.map_values(|s: String| s@)
}

/// The pubkey occurrences contributed by one `FinalHash`, in order.
pub open spec fn hash_occs(f: FinalHash) -> Seq<Seq<char>> {
    strs_view(f.pubkeys@)
}

/// The pubkey occurrences contributed by a sequence of `FinalHash`es, in order.
pub open spec fn hashes_occs(fs: Seq<FinalHash>) -> Seq<Seq<char>>
    decreases fs.len(),
{
    if fs.len() == 0 {
        Seq::empty()
    } else {
        hashes_occs(fs.drop_last()) + hash_occs(fs.last())
    }
}

/// The pubkey occurrences contributed by one `Entry`, in order.
pub open spec fn entry_occs(e: Entry) -> Seq<Seq<char>> {
    hashes_occs(e.final_hashes@)
}

/// The pubkey occurrences contributed by a sequence of `Entry`s, in order.
pub open spec fn entries_occs(es: Seq<Entry>) -> Seq<Seq<char>>
    decreases es.len(),
{
    if es.len() == 0 {
        Seq::empty()
    } else {
        entries_occs(es.drop_last()) + entry_occs(es.last())
    }
}

/// Every pubkey occurrence of one `Block`, in document order: across every
/// `FinalHash` of every `Entry`.
pub open spec fn block_occs(b: Block) -> Seq<Seq<char>> {
    entries_occs(b.entries@)
}

/// Every pubkey occurrence of a sequence of `Block`s, in order.
pub open spec fn blocks_occs(bs: Seq<Block>) -> Seq<Seq<char>>
    decreases bs.len(),
{
    if bs.len() == 0 {
        Seq::empty()
    } else {
        blocks_occs(bs.drop_last()) + block_occs(bs.last())
    }
}

} // verus!
