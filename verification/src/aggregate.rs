use vstd::prelude::*;
use crate::models::{
    Block, FinalHash, Entry, strs_view, hash_occs, hashes_occs, entry_occs, entries_occs,
    block_occs, blocks_occs,
};

verus! {

/// Whether a block's id lies in the inclusive id range `[lo, hi]`.
pub open spec fn in_range(b: Block, lo: u64, hi: u64) -> bool {
    lo <= b.block_id <= hi
}

/// The subsequence of `bs` whose ids lie in `[lo, hi]`, in stored order.
pub open spec fn blocks_in_range(bs: Seq<Block>, lo: u64, hi: u64) -> Seq<Block>
    decreases bs.len(),
{
    if bs.len() == 0 {
        Seq::empty()
    } else {
        blocks_in_range(bs.drop_last(), lo, hi) + if in_range(bs.last(), lo, hi) {
            seq![bs.last()]
        } else {
            Seq::empty()
        }
    }
}

/// Every pubkey occurrence of every block in range, in stored document order.
pub open spec fn range_occs(bs: Seq<Block>, lo: u64, hi: u64) -> Seq<Seq<char>> {
    blocks_occs(blocks_in_range(bs, lo, hi))
}

/// How many occurrences in `occs` equal the pubkey `k`.
pub open spec fn count_key(occs: Seq<Seq<char>>, k: Seq<char>) -> nat
    decreases occs.len(),
{
    if occs.len() == 0 {
        0nat
    } else {
        count_key(occs.drop_last(), k) + if occs.last() == k {
            1nat
        } else {
            0nat
        }
    }
}

/// The distinct pubkeys of `occs` in first-seen order.
pub open spec fn first_seen(occs: Seq<Seq<char>>) -> Seq<Seq<char>>
    decreases occs.len(),
{
    if occs.len() == 0 {
        Seq::empty()
    } else {
        let p = first_seen(occs.drop_last());
        if p.contains(occs.last()) {
            p
        } else {
            p.push(occs.last())
        }
    }
}

/// One counter per distinct pubkey, keyed in first-seen order.
pub open spec fn counts_of(occs: Seq<Seq<char>>) -> Seq<(Seq<char>, nat)> {
    first_seen(occs).map_values(|k: Seq<char>| (k, count_key(occs, k)))
}

/// Insert `x` into `t` in front of the first pair whose count is strictly
/// smaller: among equal counts the earlier-inserted pair keeps its place.
pub open spec fn insert_desc(t: Seq<(Seq<char>, nat)>, x: (Seq<char>, nat)) -> Seq<
    (Seq<char>, nat),
>
    decreases t.len(),
{
    if t.len() == 0 {
        seq![x]
    } else if t.first().1 >= x.1 {
        seq![t.first()] + insert_desc(t.drop_first(), x)
    } else {
        seq![x] + t
    }
}

/// Stable insertion sort by count, descending: ties keep the order of `ps`,
/// which for aggregation is first-seen order.
pub open spec fn sort_desc(ps: Seq<(Seq<char>, nat)>) -> Seq<(Seq<char>, nat)>
    decreases ps.len(),
{
    if ps.len() == 0 {
        ps
    } else {
        insert_desc(sort_desc(ps.drop_last()), ps.last())
    }
}

/// What a range aggregation returns: one pair per distinct pubkey occurring
/// in blocks with id in `[lo, hi]`, counted per occurrence, ordered by count
/// descending with ties in first-seen order.
pub open spec fn aggregate_spec(bs: Seq<Block>, lo: u64, hi: u64) -> Seq<(Seq<char>, nat)> {
    sort_desc(counts_of(range_occs(bs, lo, hi)))
}

/// The mathematical view of an executable pair vector.
pub open spec fn pairs_view(v: Seq<(String, u64)>) -> Seq<(Seq<char>, nat)> {
    v.map_values(|p: (String, u64)| (p.0@, p.1 as nat))
}

pub proof fn lemma_strs_view_push(ss: Seq<String>, x: String)
    ensures
        strs_view(ss.push(x)) == strs_view(ss).push(x@),
{
    assert(strs_view(ss.push(x)) =~= strs_view(ss).push(x@));
}

pub proof fn lemma_hashes_occs_push(fs: Seq<FinalHash>, x: FinalHash)
    ensures
        hashes_occs(fs.push(x)) == hashes_occs(fs) + hash_occs(x),
{
    assert(fs.push(x).drop_last() == fs);
    assert(fs.push(x).last() == x);
}

pub proof fn lemma_entries_occs_push(es: Seq<Entry>, x: Entry)
    ensures
        entries_occs(es.push(x)) == entries_occs(es) + entry_occs(x),
{
    assert(es.push(x).drop_last() == es);
    assert(es.push(x).last() == x);
}

pub proof fn lemma_blocks_occs_push(bs: Seq<Block>, x: Block)
    ensures
        blocks_occs(bs.push(x)) == blocks_occs(bs) + block_occs(x),
{
    assert(bs.push(x).drop_last() == bs);
    assert(bs.push(x).last() == x);
}

pub proof fn lemma_blocks_in_range_push(bs: Seq<Block>, x: Block, lo: u64, hi: u64)
    ensures
        in_range(x, lo, hi) ==> blocks_in_range(bs.push(x), lo, hi) == blocks_in_range(
            bs,
            lo,
            hi,
        ).push(x),
        !in_range(x, lo, hi) ==> blocks_in_range(bs.push(x), lo, hi) == blocks_in_range(
            bs,
            lo,
            hi,
        ),
{
    assert(bs.push(x).drop_last() == bs);
    assert(bs.push(x).last() == x);
    if in_range(x, lo, hi) {
        assert(blocks_in_range(bs, lo, hi) + seq![x] =~= blocks_in_range(bs, lo, hi).push(x));
    } else {
        assert(blocks_in_range(bs, lo, hi) + Seq::<Block>::empty() =~= blocks_in_range(
            bs,
            lo,
            hi,
        ));
    }
}

pub proof fn lemma_count_key_push(occs: Seq<Seq<char>>, o: Seq<char>, k: Seq<char>)
    ensures
        count_key(occs.push(o), k) == count_key(occs, k) + if o == k {
            1nat
        } else {
            0nat
        },
{
    assert(occs.push(o).drop_last() == occs);
    assert(occs.push(o).last() == o);
}

pub proof fn lemma_count_key_le_len(occs: Seq<Seq<char>>, k: Seq<char>)
    ensures
        count_key(occs, k) <= occs.len(),
    decreases occs.len(),
{
    if occs.len() > 0 {
        lemma_count_key_le_len(occs.drop_last(), k);
    }
}

pub proof fn lemma_count_key_zero(occs: Seq<Seq<char>>, k: Seq<char>)
    requires
        !occs.contains(k),
    ensures
        count_key(occs, k) == 0,
    decreases occs.len(),
{
    if occs.len() > 0 {
        assert(forall|i: int|
            0 <= i < occs.len() - 1 ==> occs.drop_last()[i] == occs[i]);
        assert(!occs.drop_last().contains(k));
        lemma_count_key_zero(occs.drop_last(), k);
        assert(occs.last() != k) by {
            assert(occs[occs.len() - 1] == occs.last());
        }
    }
}

pub proof fn lemma_first_seen_contains(occs: Seq<Seq<char>>, k: Seq<char>)
    ensures
        first_seen(occs).contains(k) <==> occs.contains(k),
    decreases occs.len(),
{
    if occs.len() > 0 {
        lemma_first_seen_contains(occs.drop_last(), k);
        assert(forall|i: int|
            0 <= i < occs.len() - 1 ==> occs.drop_last()[i] == occs[i]);
        assert(occs.drop_last().contains(k) ==> occs.contains(k));
        if occs.contains(k) {
            let i = choose|i: int| 0 <= i < occs.len() && occs[i] == k;
            if i < occs.len() - 1 {
                assert(occs.drop_last()[i] == k);
                assert(occs.drop_last().contains(k));
            } else {
                assert(occs.last() == k);
            }
        }
        let p = first_seen(occs.drop_last());
        if !p.contains(occs.last()) {
            assert(p.push(occs.last())[p.len() as int] == occs.last());
            assert(forall|i: int| 0 <= i < p.len() ==> p.push(occs.last())[i] == p[i]);
            assert(occs.contains(occs.last())) by {
                assert(occs[occs.len() - 1] == occs.last());
            }
        }
    }
}

pub proof fn lemma_first_seen_distinct(occs: Seq<Seq<char>>)
    ensures
        forall|i: int, j: int|
            0 <= i < j < first_seen(occs).len() ==> first_seen(occs)[i] != first_seen(occs)[j],
    decreases occs.len(),
{
    if occs.len() > 0 {
        lemma_first_seen_distinct(occs.drop_last());
        let p = first_seen(occs.drop_last());
        if !p.contains(occs.last()) {
            assert(forall|i: int| 0 <= i < p.len() ==> p[i] != occs.last());
            assert(forall|i: int| 0 <= i < p.len() ==> p.push(occs.last())[i] == p[i]);
        }
    }
}

pub proof fn lemma_first_seen_empty(occs: Seq<Seq<char>>)
    ensures
        first_seen(occs).len() == 0 <==> occs.len() == 0,
    decreases occs.len(),
{
    if occs.len() > 0 {
        lemma_first_seen_empty(occs.drop_last());
        let p = first_seen(occs.drop_last());
        if p.contains(occs.last()) {
            assert(p.len() > 0);
        }
    }
}

pub proof fn lemma_counts_of_push_new(p: Seq<Seq<char>>, o: Seq<char>)
    requires
        !first_seen(p).contains(o),
    ensures
        counts_of(p.push(o)) == counts_of(p).push((o, 1nat)),
{
    lemma_first_seen_contains(p, o);
    lemma_count_key_zero(p, o);
    assert(p.push(o).drop_last() == p);
    assert(p.push(o).last() == o);
    let fs = first_seen(p);
    assert(first_seen(p.push(o)) == fs.push(o));
    lemma_count_key_push(p, o, o);
    assert forall|i: int| 0 <= i < fs.len() implies count_key(p.push(o), fs[i]) == count_key(
        p,
        fs[i],
    ) by {
        assert(fs[i] != o) by {
            assert(fs.contains(fs[i]));
        }
        lemma_count_key_push(p, o, fs[i]);
    }
    assert(counts_of(p.push(o)) =~= counts_of(p).push((o, 1nat)));
}

pub proof fn lemma_counts_of_push_seen(p: Seq<Seq<char>>, o: Seq<char>, j: int)
    requires
        0 <= j < first_seen(p).len(),
        first_seen(p)[j] == o,
    ensures
        counts_of(p.push(o)) == counts_of(p).update(j, (o, (count_key(p, o) + 1) as nat)),
{
    lemma_first_seen_distinct(p);
    let fs = first_seen(p);
    assert(fs.contains(o)) by {
        assert(fs[j] == o);
    }
    assert(p.push(o).drop_last() == p);
    assert(p.push(o).last() == o);
    assert(first_seen(p.push(o)) == fs);
    assert forall|i: int| 0 <= i < fs.len() implies count_key(p.push(o), fs[i]) == count_key(
        p,
        fs[i],
    ) + if fs[i] == o {
        1nat
    } else {
        0nat
    } by {
        lemma_count_key_push(p, o, fs[i]);
    }
    assert forall|i: int| 0 <= i < fs.len() && i != j implies fs[i] != o by {}
    assert(counts_of(p.push(o)) =~= counts_of(p).update(j, (o, (count_key(p, o) + 1) as nat)));
}

/// Where `insert_desc` puts its element: at the first index whose count is
/// strictly below the new pair's count.
pub proof fn lemma_insert_desc_at(t: Seq<(Seq<char>, nat)>, x: (Seq<char>, nat), j: int)
    requires
        0 <= j <= t.len(),
        forall|k: int| 0 <= k < j ==> t[k].1 >= x.1,
        j < t.len() ==> t[j].1 < x.1,
    ensures
        insert_desc(t, x) == t.insert(j, x),
    decreases j,
{
    if j == 0 {
        if t.len() == 0 {
            assert(insert_desc(t, x) =~= t.insert(0, x));
        } else {
            assert(t.first().1 < x.1);
            assert(seq![x] + t =~= t.insert(0, x));
        }
    } else {
        assert(t[0].1 >= x.1);
        assert(t.first().1 >= x.1);
        assert forall|k: int| 0 <= k < j - 1 implies t.drop_first()[k].1 >= x.1 by {
            assert(t.drop_first()[k] == t[k + 1]);
        }
        if j - 1 < t.drop_first().len() {
            assert(t.drop_first()[j - 1] == t[j]);
        }
        lemma_insert_desc_at(t.drop_first(), x, j - 1);
        assert(seq![t.first()] + t.drop_first().insert(j - 1, x) =~= t.insert(j, x));
    }
}

pub proof fn lemma_insert_desc_len(t: Seq<(Seq<char>, nat)>, x: (Seq<char>, nat))
    ensures
        insert_desc(t, x).len() == t.len() + 1,
    decreases t.len(),
{
    if t.len() > 0 && t.first().1 >= x.1 {
        lemma_insert_desc_len(t.drop_first(), x);
    }
}

pub proof fn lemma_sort_desc_len(ps: Seq<(Seq<char>, nat)>)
    ensures
        sort_desc(ps).len() == ps.len(),
    decreases ps.len(),
{
    if ps.len() > 0 {
        lemma_sort_desc_len(ps.drop_last());
        lemma_insert_desc_len(sort_desc(ps.drop_last()), ps.last());
    }
}

/// Pairs ordered by count, descending.
pub open spec fn sorted_desc(t: Seq<(Seq<char>, nat)>) -> bool {
    forall|i: int, j: int| 0 <= i <= j < t.len() ==> t[i].1 >= t[j].1
}

proof fn lemma_insert_desc_sorted(t: Seq<(Seq<char>, nat)>, x: (Seq<char>, nat))
    requires
        sorted_desc(t),
    ensures
        sorted_desc(insert_desc(t, x)),
        insert_desc(t, x).first().1 >= x.1,
        t.len() > 0 ==> insert_desc(t, x).first().1 >= t.first().1,
    decreases t.len(),
{
    lemma_insert_desc_len(t, x);
    if t.len() == 0 {
    } else if t.first().1 >= x.1 {
        assert(sorted_desc(t.drop_first())) by {
            assert(forall|i: int|
                0 <= i < t.len() - 1 ==> t.drop_first()[i] == t[i + 1]);
        }
        lemma_insert_desc_sorted(t.drop_first(), x);
        let inner = insert_desc(t.drop_first(), x);
        let r = seq![t.first()] + inner;
        assert forall|i: int, j: int| 0 <= i <= j < r.len() implies r[i].1 >= r[j].1 by {
            if i == 0 && j > 0 {
                assert(r[j] == inner[j - 1]);
                assert(inner.first().1 >= inner[j - 1].1);
                if t.len() > 1 {
                    assert(t.first().1 >= t.drop_first().first().1);
                }
            }
            if i > 0 {
                assert(r[i] == inner[i - 1]);
                assert(r[j] == inner[j - 1]);
            }
        }
    } else {
        let r = seq![x] + t;
        assert forall|i: int, j: int| 0 <= i <= j < r.len() implies r[i].1 >= r[j].1 by {
            if i == 0 && j > 0 {
                assert(r[j] == t[j - 1]);
                assert(t.first().1 >= t[j - 1].1);
            }
            if i > 0 {
                assert(r[i] == t[i - 1]);
                assert(r[j] == t[j - 1]);
            }
        }
    }
}

proof fn lemma_sort_desc_sorted(ps: Seq<(Seq<char>, nat)>)
    ensures
        sorted_desc(sort_desc(ps)),
    decreases ps.len(),
{
    if ps.len() > 0 {
        lemma_sort_desc_sorted(ps.drop_last());
        lemma_insert_desc_sorted(sort_desc(ps.drop_last()), ps.last());
    }
}

/// The aggregate comes out ordered by count, descending.
pub proof fn lemma_aggregate_sorted(bs: Seq<Block>, lo: u64, hi: u64)
    ensures
        sorted_desc(aggregate_spec(bs, lo, hi)),
{
    lemma_sort_desc_sorted(counts_of(range_occs(bs, lo, hi)));
}

/// The aggregate over `[lo, hi]` is empty exactly when no block in that range
/// contributes a pubkey occurrence.
pub proof fn lemma_aggregate_empty(bs: Seq<Block>, lo: u64, hi: u64)
    ensures
        aggregate_spec(bs, lo, hi).len() == 0 <==> range_occs(bs, lo, hi).len() == 0,
{
    let occs = range_occs(bs, lo, hi);
    lemma_sort_desc_len(counts_of(occs));
    lemma_first_seen_empty(occs);
}

/// When no stored block has an id in `[lo, hi]`, the aggregate is empty; and
/// provided every in-range block carries at least one pubkey occurrence, the
/// aggregate is empty only when no stored block has an id in `[lo, hi]`.
pub proof fn lemma_aggregate_empty_iff(bs: Seq<Block>, lo: u64, hi: u64)
    ensures
        blocks_in_range(bs, lo, hi).len() == 0 ==> aggregate_spec(bs, lo, hi).len() == 0,
        (forall|i: int|
            0 <= i < blocks_in_range(bs, lo, hi).len() ==> block_occs(
                #[trigger] blocks_in_range(bs, lo, hi)[i],
            ).len() > 0) ==> (aggregate_spec(bs, lo, hi).len() == 0 <==> blocks_in_range(
            bs,
            lo,
            hi,
        ).len() == 0),
{
    lemma_aggregate_empty(bs, lo, hi);
    lemma_blocks_occs_all_empty(blocks_in_range(bs, lo, hi));
}

proof fn lemma_blocks_occs_all_empty(bs: Seq<Block>)
    ensures
        blocks_occs(bs).len() == 0 <==> (forall|i: int|
            0 <= i < bs.len() ==> block_occs(#[trigger] bs[i]).len() == 0),
    decreases bs.len(),
{
    if bs.len() > 0 {
        lemma_blocks_occs_all_empty(bs.drop_last());
        assert(forall|i: int|
            0 <= i < bs.len() - 1 ==> bs.drop_last()[i] == bs[i]);
        assert(bs[bs.len() - 1] == bs.last());
    }
}

/// Blocks with ids outside `[lo, hi]` never affect the aggregate: it is a
/// function of the in-range blocks alone.
pub proof fn lemma_aggregate_only_range(s1: Seq<Block>, s2: Seq<Block>, lo: u64, hi: u64)
    requires
        blocks_in_range(s1, lo, hi) == blocks_in_range(s2, lo, hi),
    ensures
        aggregate_spec(s1, lo, hi) == aggregate_spec(s2, lo, hi),
{
}

/// Appending a block whose id is outside `[lo, hi]` leaves the aggregate over
/// `[lo, hi]` unchanged.
pub proof fn lemma_aggregate_outside_unchanged(bs: Seq<Block>, b: Block, lo: u64, hi: u64)
    requires
        !in_range(b, lo, hi),
    ensures
        aggregate_spec(bs.push(b), lo, hi) == aggregate_spec(bs, lo, hi),
{
    lemma_blocks_in_range_push(bs, b, lo, hi);
}

proof fn lemma_insert_desc_multiset(t: Seq<(Seq<char>, nat)>, x: (Seq<char>, nat))
    ensures
        insert_desc(t, x).to_multiset() == t.to_multiset().insert(x),
    decreases t.len(),
{
    broadcast use vstd::seq_lib::group_to_multiset_ensures;
    broadcast use vstd::seq_lib::lemma_multiset_commutative;
    broadcast use vstd::multiset::group_multiset_axioms;

    if t.len() == 0 {
        assert(seq![x] =~= Seq::<(Seq<char>, nat)>::empty().push(x));
        assert(insert_desc(t, x).to_multiset() =~= t.to_multiset().insert(x));
    } else if t.first().1 >= x.1 {
        lemma_insert_desc_multiset(t.drop_first(), x);
        assert(seq![t.first()] + t.drop_first() =~= t);
        assert(seq![t.first()] =~= Seq::<(Seq<char>, nat)>::empty().push(t.first()));
        assert(insert_desc(t, x).to_multiset() =~= t.to_multiset().insert(x));
    } else {
        assert(seq![x] + t =~= Seq::<(Seq<char>, nat)>::empty().push(x) + t);
        assert(seq![x] =~= Seq::<(Seq<char>, nat)>::empty().push(x));
        assert(insert_desc(t, x).to_multiset() =~= t.to_multiset().insert(x));
    }
}

proof fn lemma_sort_desc_multiset(ps: Seq<(Seq<char>, nat)>)
    ensures
        sort_desc(ps).to_multiset() == ps.to_multiset(),
    decreases ps.len(),
{
    broadcast use vstd::seq_lib::group_to_multiset_ensures;

    if ps.len() > 0 {
        lemma_sort_desc_multiset(ps.drop_last());
        lemma_insert_desc_multiset(sort_desc(ps.drop_last()), ps.last());
        assert(ps.drop_last().push(ps.last()) =~= ps);
    }
}

/// The aggregate holds exactly one pair per distinct pubkey occurring in
/// range, and that pair carries exactly the pubkey's occurrence count; no
/// other pair appears.
pub proof fn lemma_aggregate_exact(bs: Seq<Block>, lo: u64, hi: u64)
    ensures
        forall|i: int|
            0 <= i < aggregate_spec(bs, lo, hi).len() ==> range_occs(bs, lo, hi).contains(
                (#[trigger] aggregate_spec(bs, lo, hi)[i]).0,
            ) && aggregate_spec(bs, lo, hi)[i].1 == count_key(
                range_occs(bs, lo, hi),
                aggregate_spec(bs, lo, hi)[i].0,
            ),
        forall|k: Seq<char>|
            range_occs(bs, lo, hi).contains(k) ==> #[trigger] aggregate_spec(
                bs,
                lo,
                hi,
            ).contains((k, count_key(range_occs(bs, lo, hi), k))),
        forall|i: int, j: int|
            0 <= i < j < aggregate_spec(bs, lo, hi).len() ==> (#[trigger] aggregate_spec(
                bs,
                lo,
                hi,
            )[i]).0 != (#[trigger] aggregate_spec(bs, lo, hi)[j]).0,
{
    broadcast use vstd::seq_lib::group_to_multiset_ensures;
    broadcast use vstd::multiset::group_multiset_axioms;

    let occs = range_occs(bs, lo, hi);
    let fs = first_seen(occs);
    let cs = counts_of(occs);
    let agg = aggregate_spec(bs, lo, hi);
    lemma_sort_desc_multiset(cs);
    lemma_first_seen_distinct(occs);
    assert forall|i: int|
        0 <= i < agg.len() implies occs.contains((#[trigger] agg[i]).0) && agg[i].1 == count_key(
        occs,
        agg[i].0,
    ) by {
        assert(agg.contains(agg[i]));
        assert(agg.to_multiset().count(agg[i]) > 0);
        assert(cs.to_multiset().count(agg[i]) > 0);
        assert(cs.contains(agg[i]));
        let j = choose|j: int| 0 <= j < cs.len() && cs[j] == agg[i];
        assert(cs[j] == (fs[j], count_key(occs, fs[j])));
        assert(fs.contains(fs[j]));
        lemma_first_seen_contains(occs, fs[j]);
    }
    assert forall|k: Seq<char>| occs.contains(k) implies #[trigger] agg.contains(
        (k, count_key(occs, k)),
    ) by {
        lemma_first_seen_contains(occs, k);
        let j = choose|j: int| 0 <= j < fs.len() && fs[j] == k;
        assert(cs[j] == (k, count_key(occs, k)));
        assert(cs.contains(cs[j]));
        assert(cs.to_multiset().count(cs[j]) > 0);
        assert(agg.to_multiset().count(cs[j]) > 0);
        assert(agg.contains(cs[j]));
    }
    assert forall|i: int, j: int|
        0 <= i < j < agg.len() implies (#[trigger] agg[i]).0 != (#[trigger] agg[j]).0 by {
        if agg[i].0 == agg[j].0 {
            assert(agg[i].1 == count_key(occs, agg[i].0) && agg[j].1 == count_key(
                occs,
                agg[j].0,
            ));
            assert(agg[i] == agg[j]);
            let v = agg[i];
            assert(agg.remove(i).to_multiset() =~= agg.to_multiset().remove(v));
            assert(agg.remove(i)[j - 1] == v);
            assert(agg.remove(i).contains(v));
            assert(agg.remove(i).to_multiset().count(v) > 0);
            assert(agg.to_multiset().remove(v).count(v) > 0);
            assert(agg.to_multiset().remove(v).count(v) == agg.to_multiset().count(v) - 1);
            assert(agg.to_multiset().count(v) >= 2);
            assert(cs.to_multiset().count(v) >= 2);
            lemma_pair_count_in_counts(occs, v);
        }
    }
}

/// In `counts_of` no pair appears twice: its keys are the distinct
/// first-seen keys.
proof fn lemma_pair_count_in_counts(occs: Seq<Seq<char>>, v: (Seq<char>, nat))
    ensures
        counts_of(occs).to_multiset().count(v) <= 1,
{
    broadcast use vstd::seq_lib::group_to_multiset_ensures;

    let cs = counts_of(occs);
    let fs = first_seen(occs);
    lemma_first_seen_distinct(occs);
    if cs.to_multiset().count(v) >= 2 {
        assert(cs.contains(v));
        let a = choose|a: int| 0 <= a < cs.len() && cs[a] == v;
        assert(cs.remove(a).to_multiset() =~= cs.to_multiset().remove(v));
        assert(cs.remove(a).to_multiset().count(v) >= 1);
        assert(cs.remove(a).contains(v));
        let b = choose|b: int| 0 <= b < cs.remove(a).len() && cs.remove(a)[b] == v;
        if b < a {
            assert(cs[b] == v);
            assert(fs[a] == v.0 && fs[b] == v.0);
        } else {
            assert(cs[b + 1] == v);
            assert(fs[a] == v.0 && fs[b + 1] == v.0);
        }
    }
}

/// Every stored block lies in the full id range: aggregating over
/// `[0, u64::MAX]` aggregates the whole corpus.
pub proof fn lemma_full_range(s: Seq<Block>)
    ensures
        blocks_in_range(s, 0, u64::MAX) == s,
    decreases s.len(),
{
    if s.len() > 0 {
        lemma_full_range(s.drop_last());
        assert(blocks_in_range(s, 0, u64::MAX) =~= s) by {
            assert(s.drop_last() + seq![s.last()] =~= s);
        }
    } else {
        assert(blocks_in_range(s, 0, u64::MAX) =~= s);
    }
}

fn push_hash_occs(occs: &mut Vec<String>, f: &FinalHash)
    ensures
        strs_view(final(occs)@) == strs_view(old(occs)@) + hash_occs(*f),
{
    let ghost base = strs_view(occs@);
    let mut k: usize = 0;
    while k < f.pubkeys.len()
        invariant
            k <= f.pubkeys@.len(),
            strs_view(occs@) == base + strs_view(f.pubkeys@.take(k as int)),
        decreases f.pubkeys@.len() - k,
    {
        occs.push(f.pubkeys[k].clone());
        proof {
            lemma_strs_view_push(old(occs)@, f.pubkeys@[k as int]);
            assert(f.pubkeys@.take(k as int).push(f.pubkeys@[k as int]) =~= f.pubkeys@.take(
                k + 1,
            ));
            assert(strs_view(f.pubkeys@.take(k + 1)) =~= strs_view(f.pubkeys@.take(k as int)).push(
                f.pubkeys@[k as int]@,
            ));
            assert(base + strs_view(f.pubkeys@.take(k as int)).push(f.pubkeys@[k as int]@) =~= (base
                + strs_view(f.pubkeys@.take(k as int))).push(f.pubkeys@[k as int]@));
        }
        k += 1;
    }
    proof {
        assert(f.pubkeys@.take(f.pubkeys@.len() as int) =~= f.pubkeys@);
    }
}

fn push_entry_occs(occs: &mut Vec<String>, e: &Entry)
    ensures
        strs_view(final(occs)@) == strs_view(old(occs)@) + entry_occs(*e),
{
    let ghost base = strs_view(occs@);
    let mut k: usize = 0;
    while k < e.final_hashes.len()
        invariant
            k <= e.final_hashes@.len(),
            strs_view(occs@) == base + hashes_occs(e.final_hashes@.take(k as int)),
        decreases e.final_hashes@.len() - k,
    {
        push_hash_occs(occs, &e.final_hashes[k]);
        proof {
            assert(e.final_hashes@.take(k as int).push(e.final_hashes@[k as int]) =~= e
                .final_hashes@.take(k + 1));
            lemma_hashes_occs_push(e.final_hashes@.take(k as int), e.final_hashes@[k as int]);
            assert(base + (hashes_occs(e.final_hashes@.take(k as int)) + hash_occs(
                e.final_hashes@[k as int],
            )) =~= (base + hashes_occs(e.final_hashes@.take(k as int))) + hash_occs(
                e.final_hashes@[k as int],
            ));
        }
        k += 1;
    }
    proof {
        assert(e.final_hashes@.take(e.final_hashes@.len() as int) =~= e.final_hashes@);
    }
}

fn push_block_occs(occs: &mut Vec<String>, b: &Block)
    ensures
        strs_view(final(occs)@) == strs_view(old(occs)@) + block_occs(*b),
{
    let ghost base = strs_view(occs@);
    let mut k: usize = 0;
    while k < b.entries.len()
        invariant
            k <= b.entries@.len(),
            strs_view(occs@) == base + entries_occs(b.entries@.take(k as int)),
        decreases b.entries@.len() - k,
    {
        push_entry_occs(occs, &b.entries[k]);
        proof {
            assert(b.entries@.take(k as int).push(b.entries@[k as int]) =~= b.entries@.take(k + 1));
            lemma_entries_occs_push(b.entries@.take(k as int), b.entries@[k as int]);
            assert(base + (entries_occs(b.entries@.take(k as int)) + entry_occs(
                b.entries@[k as int],
            )) =~= (base + entries_occs(b.entries@.take(k as int))) + entry_occs(
                b.entries@[k as int],
            ));
        }
        k += 1;
    }
    proof {
        assert(b.entries@.take(b.entries@.len() as int) =~= b.entries@);
    }
}

/// Collect every pubkey occurrence of every stored block with id in
/// `[lo, hi]`, in stored document order.
fn collect_range_occs(blocks: &Vec<Block>, lo: u64, hi: u64) -> (occs: Vec<String>)
    ensures
        strs_view(occs@) == range_occs(blocks@, lo, hi),
{
    let mut occs: Vec<String> = Vec::new();
    let mut i: usize = 0;
    while i < blocks.len()
        invariant
            i <= blocks@.len(),
            strs_view(occs@) == range_occs(blocks@.take(i as int), lo, hi),
        decreases blocks@.len() - i,
    {
        let b = &blocks[i];
        let ghost prefix = blocks@.take(i as int);
        if lo <= b.block_id && b.block_id <= hi {
            push_block_occs(&mut occs, b);
        }
        proof {
            assert(prefix.push(blocks@[i as int]) =~= blocks@.take(i + 1));
            lemma_blocks_in_range_push(prefix, blocks@[i as int], lo, hi);
            if in_range(blocks@[i as int], lo, hi) {
                lemma_blocks_occs_push(blocks_in_range(prefix, lo, hi), blocks@[i as int]);
            }
        }
        i += 1;
    }
    proof {
        assert(blocks@.take(blocks@.len() as int) =~= blocks@);
    }
    occs
}

/// Count occurrences per distinct pubkey, keeping first-seen key order.
fn count_pairs(occs: &Vec<String>) -> (pairs: Vec<(String, u64)>)
    ensures
        pairs_view(pairs@) == counts_of(strs_view(occs@)),
{
    let mut pairs: Vec<(String, u64)> = Vec::new();
    let mut i: usize = 0;
    while i < occs.len()
        invariant
            i <= occs@.len(),
            pairs_view(pairs@) == counts_of(strs_view(occs@).take(i as int)),
        decreases occs@.len() - i,
    {
        let ghost prefix = strs_view(occs@).take(i as int);
        let ghost fs = first_seen(prefix);
        proof {
            assert(prefix.push(occs@[i as int]@) =~= strs_view(occs@).take(i + 1));
            assert(fs.len() == pairs@.len()) by {
                assert(pairs_view(pairs@).len() == counts_of(prefix).len());
            }
            assert forall|k: int| 0 <= k < pairs@.len() implies pairs@[k].0@ == fs[k]
                && pairs@[k].1 as nat == count_key(prefix, fs[k]) by {
                assert(pairs_view(pairs@)[k] == counts_of(prefix)[k]);
            }
        }
        let o = &occs[i];
        let n = pairs.len();
        let mut j: usize = 0;
        while j < n && !(pairs[j].0 == *o)
            invariant
                j <= n,
                n == pairs@.len(),
                forall|k: int| 0 <= k < j ==> pairs@[k].0@ != o@,
            decreases n - j,
        {
            j += 1;
        }
        if j < n {
            proof {
                assert(fs[j as int] == o@);
                lemma_count_key_le_len(prefix, o@);
                assert(pairs@[j as int].1 as nat == count_key(prefix, o@));
                assert(count_key(prefix, o@) <= prefix.len());
                assert(prefix.len() <= strs_view(occs@).len());
            }
            let c = pairs[j].1;
            pairs[j].1 = c + 1;
            proof {
                lemma_counts_of_push_seen(prefix, o@, j as int);
                assert(pairs_view(pairs@) =~= counts_of(prefix).update(
                    j as int,
                    (o@, (count_key(prefix, o@) + 1) as nat),
                ));
            }
        } else {
            proof {
                assert forall|k: int| 0 <= k < fs.len() implies fs[k] != o@ by {
                    assert(pairs@[k].0@ == fs[k]);
                }
                assert(!fs.contains(o@));
            }
            pairs.push((o.clone(), 1));
            proof {
                lemma_counts_of_push_new(prefix, o@);
                assert(pairs_view(pairs@) =~= counts_of(prefix).push((o@, 1nat)));
            }
        }
        i += 1;
    }
    proof {
        assert(strs_view(occs@).take(strs_view(occs@).len() as int) =~= strs_view(occs@));
    }
    pairs
}

/// Sort count pairs by count, descending; ties keep their relative order.
fn sort_pairs_desc(ps: Vec<(String, u64)>) -> (r: Vec<(String, u64)>)
    ensures
        pairs_view(r@) == sort_desc(pairs_view(ps@)),
{
    let mut rest = ps;
    let ghost orig = pairs_view(rest@);
    let mut out: Vec<(String, u64)> = Vec::new();
    while rest.len() > 0
        invariant
            rest@.len() <= orig.len(),
            pairs_view(rest@) == orig.skip(orig.len() - rest@.len()),
            pairs_view(out@) == sort_desc(orig.take(orig.len() - rest@.len())),
        decreases rest@.len(),
    {
        let ghost done = orig.len() - rest@.len();
        let ghost rs = rest@;
        let x = rest.remove(0);
        proof {
            assert(pairs_view(rs)[0] == orig.skip(done)[0]);
            assert((x.0@, x.1 as nat) == orig[done]);
            assert forall|k: int| 0 <= k < rest@.len() implies pairs_view(rest@)[k] == orig.skip(
                done + 1,
            )[k] by {
                assert(rest@[k] == rs[k + 1]);
                assert(pairs_view(rs)[k + 1] == orig.skip(done)[k + 1]);
            }
            assert(pairs_view(rest@) =~= orig.skip(done + 1));
        }
        let mut j: usize = 0;
        while j < out.len() && out[j].1 >= x.1
            invariant
                j <= out@.len(),
                forall|k: int| 0 <= k < j ==> pairs_view(out@)[k].1 >= x.1 as nat,
            decreases out@.len() - j,
        {
            proof {
                assert(pairs_view(out@)[j as int].1 == out@[j as int].1 as nat);
            }
            j += 1;
        }
        proof {
            if j < out@.len() {
                assert(pairs_view(out@)[j as int].1 < x.1 as nat);
            }
        }
        out.insert(j, x);
        proof {
            let t = sort_desc(orig.take(done));
            lemma_insert_desc_at(t, (x.0@, x.1 as nat), j as int);
            assert(orig.take(done + 1).drop_last() =~= orig.take(done));
            assert(orig.take(done + 1).last() == orig[done]);
            assert(pairs_view(out@) =~= t.insert(j as int, (x.0@, x.1 as nat)));
        }
    }
    proof {
        assert(orig.take(orig.len() as int) =~= orig);
    }
    out
}

/// Aggregate pubkey occurrence counts over every block whose id lies in
/// `[lo, hi]`.
pub fn aggregate_pairs(blocks: &Vec<Block>, lo: u64, hi: u64) -> (r: Vec<(String, u64)>)
    ensures
        pairs_view(r@) == aggregate_spec(blocks@, lo, hi),
{
    let occs = collect_range_occs(blocks, lo, hi);
    let pairs = count_pairs(&occs);
    sort_pairs_desc(pairs)
}

} // verus!
