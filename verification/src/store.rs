use vstd::prelude::*;
use crate::models::Block;
use crate::errors::QueryError;
use crate::aggregate::{aggregate_pairs, aggregate_spec, pairs_view};

verus! {

/// No two stored blocks share an id.
pub open spec fn ids_unique(s: Seq<Block>) -> bool {
    forall|i: int, j: int| 0 <= i < j < s.len() ==> s[i].block_id != s[j].block_id
}

/// Some stored block has this id.
pub open spec fn has_id(s: Seq<Block>, id: u64) -> bool {
    exists|i: int| 0 <= i < s.len() && s[i].block_id == id
}

/// How many stored blocks have this id.
pub open spec fn count_id(s: Seq<Block>, id: u64) -> nat
    decreases s.len(),
{
    if s.len() == 0 {
        0nat
    } else {
        count_id(s.drop_last(), id) + if s.last().block_id == id {
            1nat
        } else {
            0nat
        }
    }
}

/// What an upsert does to the stored history: a block whose id is already
/// present is coalesced into a no-op; a new id is appended.
pub open spec fn spec_upsert(s: Seq<Block>, b: Block) -> Seq<Block> {
    if has_id(s, b.block_id) {
        s
    } else {
        s.push(b)
    }
}

/// How an upsert reported.
#[derive(Clone, Copy, Debug, PartialEq, Eq, Structural)]
pub enum UpsertOutcome {
    /// The block's id was new and the block was stored.
    Inserted,
    /// A block with this id was already stored; nothing changed.
    AlreadyPresent,
}

/// The record of all successfully ingested blocks, with at-most-one stored
/// copy per block id, enforced here rather than assumed of callers.
pub struct Store {
    blocks: Vec<Block>,
}

impl View for Store {
    type V = Seq<Block>;

    closed spec fn view(&self) -> Seq<Block> {
        self.blocks@
    }
}

impl Store {
    /// The store's uniqueness invariant: at most one stored block per id.
    pub open spec fn wf(&self) -> bool {
        ids_unique(self@)
    }

    /// An empty store.
    pub fn new() -> (s: Store)
        ensures
            s@ == Seq::<Block>::empty(),
            s.wf(),
    {
        Store { blocks: Vec::new() }
    }

    /// How many blocks are stored.
    pub fn len(&self) -> (n: usize)
        ensures
            n == self@.len(),
    {
        self.blocks.len()
    }

    /// Insert `b` if no block with its id is stored; report `AlreadyPresent`
    /// and change nothing if one is. Revisiting the same id indefinitely, as
    /// the wrap-around ingestion window does, is therefore safe.
    pub fn upsert(&mut self, b: Block) -> (r: UpsertOutcome)
        requires
            old(self).wf(),
        ensures
            final(self).wf(),
            final(self)@ == spec_upsert(old(self)@, b),
            r == UpsertOutcome::AlreadyPresent <==> has_id(old(self)@, b.block_id),
            r == UpsertOutcome::Inserted <==> !has_id(old(self)@, b.block_id),
    {
        let n = self.blocks.len();
        let mut i: usize = 0;
        while i < n
            invariant
                i <= n,
                n == self.blocks@.len(),
                self@ == old(self)@,
                old(self).wf(),
                forall|k: int| 0 <= k < i ==> self.blocks@[k].block_id != b.block_id,
            decreases n - i,
        {
            if self.blocks[i].block_id == b.block_id {
                return UpsertOutcome::AlreadyPresent;
            }
            i += 1;
        }
        assert(!has_id(self@, b.block_id));
        self.blocks.push(b);
        assert(self.wf()) by {
            assert(forall|k: int|
                0 <= k < old(self)@.len() ==> self@[k] == old(self)@[k]);
        }
        UpsertOutcome::Inserted
    }

    /// Point lookup by id; an absent id is a normal "not found" outcome.
    pub fn get_by_id(&self, id: u64) -> (r: Option<&Block>)
        ensures
            r matches Some(b) ==> b.block_id == id && self@.contains(*b),
            r is None ==> !has_id(self@, id),
    {
        let n = self.blocks.len();
        let mut i: usize = 0;
        while i < n
            invariant
                i <= n,
                n == self.blocks@.len(),
                forall|k: int| 0 <= k < i ==> self.blocks@[k].block_id != id,
            decreases n - i,
        {
            if self.blocks[i].block_id == id {
                return Some(&self.blocks[i]);
            }
            i += 1;
        }
        None
    }

    /// Count pubkey occurrences over every stored block with id in
    /// `[lo, hi]`, ordered by count descending, ties in first-seen order.
    /// A range whose low end exceeds its high end is rejected before any
    /// scan.
    pub fn range_aggregate(&self, lo: u64, hi: u64) -> (r: Result<Vec<(String, u64)>, QueryError>)
        ensures
            lo > hi ==> r == Err::<Vec<(String, u64)>, QueryError>(QueryError::InvalidRange),
            lo <= hi ==> (r matches Ok(v) && pairs_view(v@) == aggregate_spec(self@, lo, hi)),
    {
        if lo > hi {
            return Err(QueryError::InvalidRange);
        }
        Ok(aggregate_pairs(&self.blocks, lo, hi))
    }
}

/// Upserting the same block twice is the same as upserting it once.
pub proof fn lemma_upsert_idempotent(s: Seq<Block>, b: Block)
    ensures
        spec_upsert(spec_upsert(s, b), b) == spec_upsert(s, b),
{
    if !has_id(s, b.block_id) {
        assert(s.push(b)[s.len() as int] == b);
        assert(has_id(s.push(b), b.block_id));
    }
}

/// After an upsert into a store with unique ids, exactly one stored block
/// carries the upserted id.
pub proof fn lemma_upsert_exactly_one(s: Seq<Block>, b: Block)
    requires
        ids_unique(s),
    ensures
        count_id(spec_upsert(s, b), b.block_id) == 1,
{
    if has_id(s, b.block_id) {
        lemma_count_id_unique(s, b.block_id);
    } else {
        lemma_count_id_zero(s, b.block_id);
        assert(s.push(b).drop_last() == s);
        assert(s.push(b).last() == b);
    }
}

/// An upsert preserves the uniqueness invariant, whichever order concurrent
/// callers are serialized in.
pub proof fn lemma_upsert_preserves_unique(s: Seq<Block>, b: Block)
    requires
        ids_unique(s),
    ensures
        ids_unique(spec_upsert(s, b)),
{
    if !has_id(s, b.block_id) {
        let t = s.push(b);
        assert forall|i: int, j: int|
            0 <= i < j < t.len() implies t[i].block_id != t[j].block_id by {
            if j < t.len() - 1 {
                assert(t[i] == s[i] && t[j] == s[j]);
            } else {
                assert(t[j] == b);
                assert(t[i] == s[i]);
                assert(!(s[i].block_id == b.block_id)) by {
                    if s[i].block_id == b.block_id {
                        assert(has_id(s, b.block_id));
                    }
                }
            }
        }
    }
}

proof fn lemma_count_id_zero(s: Seq<Block>, id: u64)
    requires
        !has_id(s, id),
    ensures
        count_id(s, id) == 0,
    decreases s.len(),
{
    if s.len() > 0 {
        assert(forall|i: int|
            0 <= i < s.len() - 1 ==> s.drop_last()[i] == s[i]);
        assert(!has_id(s.drop_last(), id));
        lemma_count_id_zero(s.drop_last(), id);
        assert(s.last() == s[s.len() - 1]);
    }
}

proof fn lemma_count_id_unique(s: Seq<Block>, id: u64)
    requires
        ids_unique(s),
        has_id(s, id),
    ensures
        count_id(s, id) == 1,
    decreases s.len(),
{
    let w = choose|i: int| 0 <= i < s.len() && s[i].block_id == id;
    assert(forall|i: int|
        0 <= i < s.len() - 1 ==> s.drop_last()[i] == s[i]);
    if w == s.len() - 1 {
        assert(s.last().block_id == id);
        assert(!has_id(s.drop_last(), id)) by {
            if has_id(s.drop_last(), id) {
                let v = choose|i: int|
                    0 <= i < s.drop_last().len() && s.drop_last()[i].block_id == id;
                assert(s[v].block_id == id && v < w);
            }
        }
        lemma_count_id_zero(s.drop_last(), id);
    } else {
        assert(s.drop_last()[w].block_id == id);
        assert(has_id(s.drop_last(), id));
        assert(ids_unique(s.drop_last()));
        lemma_count_id_unique(s.drop_last(), id);
        assert(s.last().block_id != id) by {
            if s.last().block_id == id {
                assert(s[s.len() - 1].block_id == id);
                assert(s[w].block_id == id && w < s.len() - 1);
            }
        }
    }
}

} // verus!
