//! Result aggregation for reporting: group the digests obtained at a block
//! into equivalence classes, tag the class holding the trusted node as
//! correct, and shorten deployment hashes for display.
//!
//! Grouping has no bearing on the search itself; it renders the final
//! disagreement picture. Classes appear in the order their digest was first
//! reported, which is deterministic for a given outcome list.

use vstd::prelude::*;

use crate::models::{Indexer, POIGroup};
use crate::models::spec_contains_id;
use vstd::string::{StrSliceExecFns, StringExecFns};

verus! {

/// The distinct digest values among `pois`, in first-occurrence order.
pub open spec fn distinct_digests(pois: Seq<(String, String)>) -> Seq<Seq<char>>
    decreases pois.len(),
{
    if pois.len() == 0 {
        Seq::<Seq<char>>::empty()
    } else {
        let prefix = distinct_digests(pois.drop_last());
        if prefix.contains(pois.last().1@) {
            prefix
        } else {
            prefix.push(pois.last().1@)
        }
    }
}

/// The identifiers that reported digest `d`, in order.
pub open spec fn members_of(pois: Seq<(String, String)>, d: Seq<char>) -> Seq<Seq<char>>
    decreases pois.len(),
{
    if pois.len() == 0 {
        Seq::<Seq<char>>::empty()
    } else {
        let prefix = members_of(pois.drop_last(), d);
        if pois.last().1@ == d {
            prefix.push(pois.last().0@)
        } else {
            prefix
        }
    }
}

/// The endpoint of the first indexer carrying `id`.
pub open spec fn spec_url_of(indexers: Seq<Indexer>, id: Seq<char>) -> Seq<char>
    decreases indexers.len(),
{
    if indexers.len() == 0 {
        Seq::<char>::empty()
    } else if indexers.first().id@ == id {
        indexers.first().url@
    } else {
        spec_url_of(indexers.drop_first(), id)
    }
}

/// The digest reported by the first entry carrying `id`.
pub open spec fn spec_digest_of(pois: Seq<(String, String)>, id: Seq<char>) -> Seq<char>
    decreases pois.len(),
{
    if pois.len() == 0 {
        Seq::<char>::empty()
    } else if pois.first().0@ == id {
        pois.first().1@
    } else {
        spec_digest_of(pois.drop_first(), id)
    }
}

/// Whether no two entries carry the same identifier.
pub open spec fn unique_poi_ids(pois: Seq<(String, String)>) -> bool {
    forall|i: int, j: int| 0 <= i < j < pois.len() ==> pois[i].0@ != pois[j].0@
}

/// An identifier is a member of digest `d`'s class exactly when some entry
/// pairs that identifier with `d`.
pub proof fn lemma_members_membership(pois: Seq<(String, String)>, d: Seq<char>, id: Seq<char>)
    ensures
        members_of(pois, d).contains(id) <==> exists|k: int|
            0 <= k < pois.len() && (#[trigger] pois[k].0@) == id && pois[k].1@ == d,
    decreases pois.len(),
{
    if pois.len() == 0 {
    } else {
        let prefix = pois.drop_last();
        lemma_members_membership(prefix, d, id);
        let n = pois.len() - 1;
        assert(forall|k: int| 0 <= k < n ==> pois[k] == prefix[k]);
        if members_of(pois, d).contains(id) {
            if pois.last().1@ == d {
                let s = members_of(prefix, d).push(pois.last().0@);
                let w = choose|w: int| 0 <= w < s.len() && s[w] == id;
                if w < s.len() - 1 {
                    assert(members_of(prefix, d).contains(id));
                } else {
                    assert(pois[n].0@ == id);
                }
            }
        }
        if exists|k: int| 0 <= k < pois.len() && (#[trigger] pois[k].0@) == id && pois[k].1@ == d {
            let k = choose|k: int|
                0 <= k < pois.len() && (#[trigger] pois[k].0@) == id && pois[k].1@ == d;
            if k < n {
                assert(prefix[k].0@ == id && prefix[k].1@ == d);
                let s0 = members_of(prefix, d);
                let w = choose|w: int| 0 <= w < s0.len() && s0[w] == id;
                if pois.last().1@ == d {
                    assert(members_of(pois, d)[w] == id);
                }
            } else {
                let s = members_of(pois, d);
                assert(s[s.len() - 1] == id);
            }
        }
    }
}

/// A digest has a class exactly when some entry reported it.
pub proof fn lemma_distinct_membership(pois: Seq<(String, String)>, d: Seq<char>)
    ensures
        distinct_digests(pois).contains(d) <==> exists|k: int|
            0 <= k < pois.len() && (#[trigger] pois[k].1@) == d,
    decreases pois.len(),
{
    if pois.len() == 0 {
    } else {
        let prefix = pois.drop_last();
        lemma_distinct_membership(prefix, d);
        let n = pois.len() - 1;
        assert(forall|k: int| 0 <= k < n ==> pois[k] == prefix[k]);
        if distinct_digests(pois).contains(d) {
            if !distinct_digests(prefix).contains(pois.last().1@) {
                let s = distinct_digests(prefix).push(pois.last().1@);
                let w = choose|w: int| 0 <= w < s.len() && s[w] == d;
                if w < s.len() - 1 {
                    assert(distinct_digests(prefix).contains(d));
                } else {
                    assert(pois[n].1@ == d);
                }
            }
        }
        if exists|k: int| 0 <= k < pois.len() && (#[trigger] pois[k].1@) == d {
            let k = choose|k: int| 0 <= k < pois.len() && (#[trigger] pois[k].1@) == d;
            if k < n {
                assert(prefix[k].1@ == d);
                let s0 = distinct_digests(prefix);
                let w = choose|w: int| 0 <= w < s0.len() && s0[w] == d;
                if !s0.contains(pois.last().1@) {
                    assert(distinct_digests(pois)[w] == d);
                }
            } else {
                if distinct_digests(prefix).contains(d) {
                } else {
                    let s = distinct_digests(pois);
                    assert(s[s.len() - 1] == d);
                }
            }
        }
    }
}

/// No digest value owns two classes.
pub proof fn lemma_distinct_no_duplicates(pois: Seq<(String, String)>)
    ensures
        forall|i: int, j: int|
            0 <= i < j < distinct_digests(pois).len()
                ==> distinct_digests(pois)[i] != distinct_digests(pois)[j],
    decreases pois.len(),
{
    if pois.len() == 0 {
    } else {
        let prefix = pois.drop_last();
        lemma_distinct_no_duplicates(prefix);
        let s0 = distinct_digests(prefix);
        if !s0.contains(pois.last().1@) {
            assert forall|i: int, j: int|
                0 <= i < j < distinct_digests(pois).len()
                implies distinct_digests(pois)[i] != distinct_digests(pois)[j] by {
                if j == distinct_digests(pois).len() - 1 {
                    assert(distinct_digests(pois)[i] == s0[i]);
                    if s0[i] == pois.last().1@ {
                        assert(s0.contains(pois.last().1@));
                    }
                }
            }
        }
    }
}

/// The first entry carrying `id` pairs it with `spec_digest_of(pois, id)`.
pub proof fn lemma_digest_of_entry(pois: Seq<(String, String)>, id: Seq<char>)
    requires
        exists|k: int| 0 <= k < pois.len() && (#[trigger] pois[k].0@) == id,
    ensures
        exists|k: int|
            0 <= k < pois.len() && (#[trigger] pois[k].0@) == id
                && pois[k].1@ == spec_digest_of(pois, id),
    decreases pois.len(),
{
    if pois.first().0@ == id {
        assert(pois[0].0@ == id && pois[0].1@ == spec_digest_of(pois, id));
    } else {
        let rest = pois.drop_first();
        let k0 = choose|k: int| 0 <= k < pois.len() && (#[trigger] pois[k].0@) == id;
        assert(rest[k0 - 1].0@ == id);
        lemma_digest_of_entry(rest, id);
        let k = choose|k: int|
            0 <= k < rest.len() && (#[trigger] rest[k].0@) == id
                && rest[k].1@ == spec_digest_of(rest, id);
        assert(pois[k + 1].0@ == id && pois[k + 1].1@ == spec_digest_of(pois, id));
    }
}

/// Law: when each node reported at most one digest and the trusted node is
/// among them, the class of the trusted node's digest holds every node that
/// reported that digest — the trusted node included — and no other class
/// holds the trusted node. With `group_pois_by_hash` marking a class correct
/// exactly when the trusted node is a member, exactly the one class of the
/// trusted digest is marked.
pub proof fn lemma_grouping_marks_trusted_class(pois: Seq<(String, String)>, tid: Seq<char>)
    requires
        unique_poi_ids(pois),
        exists|k: int| 0 <= k < pois.len() && (#[trigger] pois[k].0@) == tid,
    ensures
        distinct_digests(pois).contains(spec_digest_of(pois, tid)),
        members_of(pois, spec_digest_of(pois, tid)).contains(tid),
        forall|k: int|
            0 <= k < pois.len() && (#[trigger] pois[k].1@) == spec_digest_of(pois, tid)
                ==> members_of(pois, spec_digest_of(pois, tid)).contains(pois[k].0@),
        forall|d: Seq<char>|
            #[trigger] members_of(pois, d).contains(tid) ==> d == spec_digest_of(pois, tid),
{
    let td = spec_digest_of(pois, tid);
    lemma_digest_of_entry(pois, tid);
    let k0 = choose|k: int|
        0 <= k < pois.len() && (#[trigger] pois[k].0@) == tid && pois[k].1@ == td;
    lemma_distinct_membership(pois, td);
    lemma_members_membership(pois, td, tid);
    assert forall|k: int|
        0 <= k < pois.len() && (#[trigger] pois[k].1@) == td
        implies members_of(pois, td).contains(pois[k].0@) by {
        lemma_members_membership(pois, td, pois[k].0@);
    }
    assert forall|d: Seq<char>| #[trigger] members_of(pois, d).contains(tid)
        implies d == td by {
        lemma_members_membership(pois, d, tid);
        let k1 = choose|k: int|
            0 <= k < pois.len() && (#[trigger] pois[k].0@) == tid && pois[k].1@ == d;
        if k1 < k0 {
            assert(pois[k1].0@ != pois[k0].0@);
        } else if k0 < k1 {
            assert(pois[k0].0@ != pois[k1].0@);
        }
    }
}

/// When the trusted node reported no digest — its fetch failed at the
/// reporting block — no class holds it, so no class is marked correct.
pub proof fn lemma_absent_trusted_marks_nothing(pois: Seq<(String, String)>, tid: Seq<char>)
    requires
        forall|k: int| 0 <= k < pois.len() ==> (#[trigger] pois[k].0@) != tid,
    ensures
        forall|d: Seq<char>| !(#[trigger] members_of(pois, d).contains(tid)),
{
    assert forall|d: Seq<char>| !(#[trigger] members_of(pois, d).contains(tid)) by {
        lemma_members_membership(pois, d, tid);
    }
}

proof fn lemma_map_push_string(s: Seq<String>, x: String)
    ensures
        s.push(x).map_values(|t: String| t@) =~= s.map_values(|t: String| t@).push(x@),
{
}

proof fn lemma_map_push_pair(s: Seq<(String, String)>, x: (String, String))
    ensures
        s.push(x).map_values(|p: (String, String)| p.0@)
            =~= s.map_values(|p: (String, String)| p.0@).push(x.0@),
{
}

proof fn lemma_map_push_group(s: Seq<POIGroup>, x: POIGroup)
    ensures
        s.push(x).map_values(|g: POIGroup| g.poi@)
            =~= s.map_values(|g: POIGroup| g.poi@).push(x.poi@),
{
}

/// True exactly when some element of `v` views as `s`'s characters.
fn contains_string(v: &Vec<String>, s: &String) -> (r: bool)
    ensures
        r == v@.map_values(|t: String| t@).contains(s@),
{
    let n = v.len();
    for i in 0..n
        invariant
            n == v.len(),
            forall|p: int| 0 <= p < i ==> (#[trigger] v@[p])@ != s@,
    {
        if v[i] == *s {
            assert(v@.map_values(|t: String| t@)[i as int] == s@);
            return true;
        }
    }
    proof {
        let m = v@.map_values(|t: String| t@);
        assert forall|w: int| 0 <= w < m.len() implies #[trigger] m[w] != s@ by {
            assert(m[w] == v@[w]@);
        }
    }
    false
}

/// True exactly when some pair of `v` carries the identifier `id`.
fn contains_member_id(v: &Vec<(String, String)>, id: &String) -> (r: bool)
    ensures
        r == v@.map_values(|p: (String, String)| p.0@).contains(id@),
{
    let n = v.len();
    for i in 0..n
        invariant
            n == v.len(),
            forall|p: int| 0 <= p < i ==> (#[trigger] v@[p]).0@ != id@,
    {
        if v[i].0 == *id {
            assert(v@.map_values(|p: (String, String)| p.0@)[i as int] == id@);
            return true;
        }
    }
    proof {
        let m = v@.map_values(|p: (String, String)| p.0@);
        assert forall|w: int| 0 <= w < m.len() implies #[trigger] m[w] != id@ by {
            assert(m[w] == v@[w].0@);
        }
    }
    false
}

/// The endpoint recorded for `id` among `indexers`.
fn url_of(indexers: &Vec<Indexer>, id: &String) -> (r: String)
    requires
        spec_contains_id(indexers@, id@),
    ensures
        r@ == spec_url_of(indexers@, id@),
{
    let n = indexers.len();
    proof {
        assert(indexers@.skip(0) =~= indexers@);
    }
    for i in 0..n
        invariant
            n == indexers.len(),
            spec_contains_id(indexers@, id@),
            forall|p: int| 0 <= p < i ==> indexers@[p].id@ != id@,
            spec_url_of(indexers@, id@) == spec_url_of(indexers@.skip(i as int), id@),
    {
        proof {
            assert(indexers@.skip(i as int).first() == indexers@[i as int]);
            assert(indexers@.skip(i as int).drop_first() =~= indexers@.skip(i + 1));
        }
        if indexers[i].id == *id {
            return indexers[i].url.clone();
        }
    }
    proof {
        let w = choose|w: int| 0 <= w < indexers@.len() && indexers@[w].id@ == id@;
        assert(false);
    }
    unreached()
}

/// Group the digests obtained at a block into classes by exact digest value,
/// one class per distinct digest in first-occurrence order. A class lists the
/// `(id, endpoint)` pairs of its reporters, and is marked correct exactly
/// when the trusted node is among them. `pois` pairs each reporting node's
/// identifier with its digest; every reporter must appear in `indexers`.
pub fn group_pois_by_hash(
    indexers: &Vec<Indexer>,
    pois: &Vec<(String, String)>,
    correct_indexer_id: &String,
) -> (groups: Vec<POIGroup>)
    requires
        forall|k: int| 0 <= k < pois@.len() ==> spec_contains_id(indexers@, #[trigger] pois@[k].0@),
    ensures
        groups@.map_values(|g: POIGroup| g.poi@) == distinct_digests(pois@),
        forall|k: int|
            0 <= k < groups@.len()
                ==> (#[trigger] groups@[k]).indexers@.map_values(|p: (String, String)| p.0@)
                    == members_of(pois@, groups@[k].poi@),
        forall|k: int, m: int|
            0 <= k < groups@.len() && 0 <= m < groups@[k].indexers@.len()
                ==> (#[trigger] groups@[k].indexers@[m]).1@
                    == spec_url_of(indexers@, groups@[k].indexers@[m].0@),
        forall|k: int|
            0 <= k < groups@.len() ==> (#[trigger] groups@[k]).is_correct == members_of(
                pois@,
                groups@[k].poi@,
            ).contains(correct_indexer_id@),
{
    let n = pois.len();
    let mut digests: Vec<String> = Vec::new();
    for i in 0..n
        invariant
            n == pois.len(),
            digests@.map_values(|t: String| t@) == distinct_digests(pois@.take(i as int)),
    {
        proof {
            assert(pois@.take(i + 1).drop_last() =~= pois@.take(i as int));
            assert(pois@.take(i + 1).last() == pois@[i as int]);
        }
        if !contains_string(&digests, &pois[i].1) {
            proof {
                lemma_map_push_string(digests@, pois@[i as int].1);
            }
            digests.push(pois[i].1.clone());
        }
    }
    proof {
        assert(pois@.take(n as int) =~= pois@);
    }

    let dn = digests.len();
    let mut groups: Vec<POIGroup> = Vec::new();
    for k in 0..dn
        invariant
            dn == digests.len(),
            n == pois.len(),
            digests@.map_values(|t: String| t@) == distinct_digests(pois@),
            forall|kk: int|
                0 <= kk < pois@.len() ==> spec_contains_id(indexers@, #[trigger] pois@[kk].0@),
            groups@.len() == k,
            forall|kk: int|
                0 <= kk < k ==> (#[trigger] groups@[kk]).poi@ == digests@.map_values(
                    |t: String| t@,
                )[kk],
            forall|kk: int|
                0 <= kk < k
                    ==> (#[trigger] groups@[kk]).indexers@.map_values(|p: (String, String)| p.0@)
                        == members_of(pois@, groups@[kk].poi@),
            forall|kk: int, m: int|
                0 <= kk < k && 0 <= m < groups@[kk].indexers@.len()
                    ==> (#[trigger] groups@[kk].indexers@[m]).1@
                        == spec_url_of(indexers@, groups@[kk].indexers@[m].0@),
            forall|kk: int|
                0 <= kk < k ==> (#[trigger] groups@[kk]).is_correct == members_of(
                    pois@,
                    groups@[kk].poi@,
                ).contains(correct_indexer_id@),
    {
        let d: &String = &digests[k];
        let mut members: Vec<(String, String)> = Vec::new();
        for j in 0..n
            invariant
                n == pois.len(),
                d@ == digests@[k as int]@,
                forall|kk: int|
                    0 <= kk < pois@.len() ==> spec_contains_id(indexers@, #[trigger] pois@[kk].0@),
                members@.map_values(|p: (String, String)| p.0@)
                    == members_of(pois@.take(j as int), d@),
                forall|m: int|
                    0 <= m < members@.len() ==> (#[trigger] members@[m]).1@
                        == spec_url_of(indexers@, members@[m].0@),
        {
            proof {
                assert(pois@.take(j + 1).drop_last() =~= pois@.take(j as int));
                assert(pois@.take(j + 1).last() == pois@[j as int]);
            }
            if pois[j].1 == *d {
                let url = url_of(indexers, &pois[j].0);
                proof {
                    lemma_map_push_pair(members@, (pois@[j as int].0, url));
                }
                members.push((pois[j].0.clone(), url));
            }
        }
        proof {
            assert(pois@.take(n as int) =~= pois@);
        }
        let is_correct = contains_member_id(&members, correct_indexer_id);
        let g = POIGroup { poi: d.clone(), indexers: members, is_correct };
        proof {
            lemma_map_push_group(groups@, g);
        }
        groups.push(g);
    }
    proof {
        assert(groups@.map_values(|g: POIGroup| g.poi@) =~= distinct_digests(pois@));
    }
    groups
}

/// Shorten a deployment hash for display: a hash longer than sixteen
/// characters keeps its first and last eight with an ellipsis between;
/// a shorter one is returned unchanged.
pub fn format_deployment_hash(hash: &str) -> (r: String)
    ensures
        hash@.len() > 16 ==> r@ == hash@.subrange(0, 8) + "..."@ + hash@.subrange(
            hash@.len() - 8,
            hash@.len() as int,
        ),
        hash@.len() <= 16 ==> r@ == hash@,
{
    let n = hash.unicode_len();
    if n > 16 {
        let head = hash.substring_char(0, 8);
        let tail = hash.substring_char(n - 8, n);
        let mut out = head.to_owned();
        out.append("...");
        out.append(tail);
        out
    } else {
        hash.to_owned()
    }
}

} // verus!
