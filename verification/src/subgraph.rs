//! From allocation listings to a peer set.
//!
//! The allocations endpoint returns one entry per active allocation, so a
//! node may appear more than once. The peer set keeps one entry per node
//! identifier, in first-appearance order; a repeated identifier keeps the
//! endpoint of its last entry, as a keyed collect would.

use vstd::prelude::*;

use crate::models::{indexer_ids, unique_indexer_ids, Allocation, Indexer};

verus! {

/// The node identifiers among `allocs`, one per node, in first-appearance
/// order.
pub open spec fn dedup_ids(allocs: Seq<Allocation>) -> Seq<Seq<char>>
    decreases allocs.len(),
{
    if allocs.len() == 0 {
        Seq::<Seq<char>>::empty()
    } else {
        let prefix = dedup_ids(allocs.drop_last());
        if prefix.contains(allocs.last().indexer.id@) {
            prefix
        } else {
            prefix.push(allocs.last().indexer.id@)
        }
    }
}

/// The endpoint of the last allocation carrying `id`.
pub open spec fn spec_last_url(allocs: Seq<Allocation>, id: Seq<char>) -> Seq<char>
    decreases allocs.len(),
{
    if allocs.len() == 0 {
        Seq::<char>::empty()
    } else if allocs.last().indexer.id@ == id {
        allocs.last().indexer.url@
    } else {
        spec_last_url(allocs.drop_last(), id)
    }
}

/// A node has an entry in the peer set exactly when some allocation names it.
pub proof fn lemma_dedup_membership(allocs: Seq<Allocation>, id: Seq<char>)
    ensures
        dedup_ids(allocs).contains(id) <==> exists|k: int|
            0 <= k < allocs.len() && (#[trigger] allocs[k].indexer.id@) == id,
    decreases allocs.len(),
{
    if allocs.len() == 0 {
    } else {
        let prefix = allocs.drop_last();
        lemma_dedup_membership(prefix, id);
        let n = allocs.len() - 1;
        assert(forall|k: int| 0 <= k < n ==> allocs[k] == prefix[k]);
        if dedup_ids(allocs).contains(id) {
            if !dedup_ids(prefix).contains(allocs.last().indexer.id@) {
                let s = dedup_ids(prefix).push(allocs.last().indexer.id@);
                let w = choose|w: int| 0 <= w < s.len() && s[w] == id;
                if w < s.len() - 1 {
                    assert(dedup_ids(prefix).contains(id));
                } else {
                    assert(allocs[n].indexer.id@ == id);
                }
            }
        }
        if exists|k: int| 0 <= k < allocs.len() && (#[trigger] allocs[k].indexer.id@) == id {
            let k = choose|k: int| 0 <= k < allocs.len() && (#[trigger] allocs[k].indexer.id@) == id;
            if k < n {
                assert(prefix[k].indexer.id@ == id);
                let s0 = dedup_ids(prefix);
                let w = choose|w: int| 0 <= w < s0.len() && s0[w] == id;
                if !s0.contains(allocs.last().indexer.id@) {
                    assert(dedup_ids(allocs)[w] == id);
                }
            } else {
                if dedup_ids(prefix).contains(id) {
                } else {
                    let s = dedup_ids(allocs);
                    assert(s[s.len() - 1] == id);
                }
            }
        }
    }
}

/// The position of the indexer carrying `id`, when one is present.
fn find_indexer_pos(indexers: &Vec<Indexer>, id: &String) -> (r: Option<usize>)
    ensures
        r matches Some(p) ==> p < indexers@.len() && indexers@[p as int].id@ == id@,
        r is None ==> forall|p: int| 0 <= p < indexers@.len()
            ==> (#[trigger] indexers@[p]).id@ != id@,
{
    let n = indexers.len();
    for i in 0..n
        invariant
            n == indexers.len(),
            forall|p: int| 0 <= p < i ==> (#[trigger] indexers@[p]).id@ != id@,
    {
        if indexers[i].id == *id {
            return Some(i);
        }
    }
    None
}

/// Build the peer set from the allocation listing: one entry per node
/// identifier, in first-appearance order, each carrying the endpoint of that
/// node's last allocation. The resulting identifiers are unique.
pub fn indexers_from_allocations(allocations: &Vec<Allocation>) -> (r: Vec<Indexer>)
    ensures
        indexer_ids(r@) == dedup_ids(allocations@),
        forall|k: int|
            0 <= k < r@.len() ==> (#[trigger] r@[k]).url@ == spec_last_url(
                allocations@,
                r@[k].id@,
            ),
        unique_indexer_ids(r@),
{
    let n = allocations.len();
    let mut result: Vec<Indexer> = Vec::new();
    for i in 0..n
        invariant
            n == allocations.len(),
            indexer_ids(result@) == dedup_ids(allocations@.take(i as int)),
            forall|k: int|
                0 <= k < result@.len() ==> (#[trigger] result@[k]).url@ == spec_last_url(
                    allocations@.take(i as int),
                    result@[k].id@,
                ),
            unique_indexer_ids(result@),
    {
        let a = &allocations[i];
        proof {
            assert(allocations@.take(i + 1).drop_last() =~= allocations@.take(i as int));
            assert(allocations@.take(i + 1).last() == allocations@[i as int]);
        }
        let entry = Indexer { id: a.indexer.id.clone(), url: a.indexer.url.clone() };
        match find_indexer_pos(&result, &a.indexer.id) {
            Some(p) => {
                proof {
                    assert(indexer_ids(result@)[p as int] == a.indexer.id@);
                    assert(dedup_ids(allocations@.take(i as int)).contains(a.indexer.id@));
                    assert(indexer_ids(result@.update(p as int, entry)) =~= indexer_ids(result@));
                }
                result.set(p, entry);
            },
            None => {
                proof {
                    if dedup_ids(allocations@.take(i as int)).contains(a.indexer.id@) {
                        let w = choose|w: int|
                            0 <= w < indexer_ids(result@).len()
                                && indexer_ids(result@)[w] == a.indexer.id@;
                        assert(result@[w].id@ == a.indexer.id@);
                    }
                    assert(indexer_ids(result@.push(entry)) =~= indexer_ids(result@).push(
                        entry.id@,
                    ));
                }
                result.push(entry);
            },
        }
    }
    proof {
        assert(allocations@.take(n as int) =~= allocations@);
    }
    result
}

} // verus!
