//! Per-block consensus check: ground truth first, then classification.
//!
//! A probe at one block first resolves the trusted node's digest; without it
//! the probe fails with `NoGroundTruth` and no peer is contacted — the typestate
//! here makes that order unavoidable, since only a `GroundTruth` value can
//! classify. With ground truth in hand, every peer outcome is classified:
//! a digest equal to the trusted one is agreeing, an unequal digest is
//! disagreeing, and a node that stayed unreachable after retries is reported
//! as such, never counted on either side. The trusted node itself is skipped
//! wherever it appears among the outcomes.

use vstd::prelude::*;

use crate::errors::FatalError;
use crate::models::{FetchOutcome, Indexer};
use crate::models::spec_contains_id;

verus! {

/// The three classification sets a peer can land in.
#[derive(Clone, Copy, Debug, PartialEq, Eq, Structural)]
pub enum PeerClass {
    Agreeing,
    Disagreeing,
    Unreachable,
}

/// How one outcome classifies against the trusted digest `tpoi`; the trusted
/// node `tid` itself classifies as nothing.
pub open spec fn spec_class(
    id: Seq<char>,
    outcome: FetchOutcome,
    tid: Seq<char>,
    tpoi: Seq<char>,
) -> Option<PeerClass> {
    if id == tid {
        None
    } else {
        match outcome {
            FetchOutcome::Digest(d) => if d@ == tpoi {
                Some(PeerClass::Agreeing)
            } else {
                Some(PeerClass::Disagreeing)
            },
            FetchOutcome::Unreachable => Some(PeerClass::Unreachable),
        }
    }
}

/// The identifiers among `outcomes` that classify as `c`, in order.
pub open spec fn class_ids(
    outcomes: Seq<(String, FetchOutcome)>,
    tid: Seq<char>,
    tpoi: Seq<char>,
    c: PeerClass,
) -> Seq<Seq<char>>
    decreases outcomes.len(),
{
    if outcomes.len() == 0 {
        Seq::<Seq<char>>::empty()
    } else {
        let prefix = class_ids(outcomes.drop_last(), tid, tpoi, c);
        let e = outcomes.last();
        if spec_class(e.0@, e.1, tid, tpoi) == Some(c) {
            prefix.push(e.0@)
        } else {
            prefix
        }
    }
}

/// The identifiers of the outcome list, in order.
pub open spec fn outcome_ids(outcomes: Seq<(String, FetchOutcome)>) -> Seq<Seq<char>> {
    outcomes.map_values(|e: (String, FetchOutcome)| e.0@)
}

/// Whether no two outcomes carry the same identifier.
pub open spec fn unique_outcome_ids(outcomes: Seq<(String, FetchOutcome)>) -> bool {
    forall|i: int, j: int|
        0 <= i < j < outcomes.len() ==> outcomes[i].0@ != outcomes[j].0@
}

/// An identifier is listed under class `c` exactly when some outcome carries
/// it and classifies as `c`.
pub proof fn lemma_class_ids_membership(
    outcomes: Seq<(String, FetchOutcome)>,
    tid: Seq<char>,
    tpoi: Seq<char>,
    c: PeerClass,
    id: Seq<char>,
)
    ensures
        class_ids(outcomes, tid, tpoi, c).contains(id) <==> exists|k: int|
            0 <= k < outcomes.len() && (#[trigger] outcomes[k].0@) == id
                && spec_class(outcomes[k].0@, outcomes[k].1, tid, tpoi) == Some(c),
    decreases outcomes.len(),
{
    if outcomes.len() == 0 {
    } else {
        let prefix = outcomes.drop_last();
        lemma_class_ids_membership(prefix, tid, tpoi, c, id);
        let e = outcomes.last();
        let n = outcomes.len() - 1;
        assert(forall|k: int| 0 <= k < n ==> outcomes[k] == prefix[k]);
        if class_ids(outcomes, tid, tpoi, c).contains(id) {
            if spec_class(e.0@, e.1, tid, tpoi) == Some(c) {
                let s = class_ids(prefix, tid, tpoi, c).push(e.0@);
                let w = choose|w: int| 0 <= w < s.len() && s[w] == id;
                if w < s.len() - 1 {
                    assert(class_ids(prefix, tid, tpoi, c).contains(id));
                } else {
                    assert(outcomes[n].0@ == id);
                }
            } else {
                assert(class_ids(prefix, tid, tpoi, c).contains(id));
            }
        }
        if exists|k: int|
            0 <= k < outcomes.len() && (#[trigger] outcomes[k].0@) == id
                && spec_class(outcomes[k].0@, outcomes[k].1, tid, tpoi) == Some(c) {
            let k = choose|k: int|
                0 <= k < outcomes.len() && (#[trigger] outcomes[k].0@) == id
                    && spec_class(outcomes[k].0@, outcomes[k].1, tid, tpoi) == Some(c);
            if k < n {
                assert(prefix[k].0@ == id);
                assert(class_ids(prefix, tid, tpoi, c).contains(id));
                let s0 = class_ids(prefix, tid, tpoi, c);
                let w = choose|w: int| 0 <= w < s0.len() && s0[w] == id;
                assert(class_ids(outcomes, tid, tpoi, c)[w] == id);
            } else {
                let s = class_ids(outcomes, tid, tpoi, c);
                assert(s[s.len() - 1] == id);
            }
        }
    }
}

/// The trusted node never appears in a classification set.
pub proof fn lemma_trusted_never_classified(
    outcomes: Seq<(String, FetchOutcome)>,
    tid: Seq<char>,
    tpoi: Seq<char>,
    c: PeerClass,
)
    ensures
        !class_ids(outcomes, tid, tpoi, c).contains(tid),
{
    lemma_class_ids_membership(outcomes, tid, tpoi, c, tid);
}

/// The three classification sets are pairwise disjoint, and together they
/// hold exactly the identifiers of the outcomes except the trusted node's.
pub proof fn lemma_classification_partitions(
    outcomes: Seq<(String, FetchOutcome)>,
    tid: Seq<char>,
    tpoi: Seq<char>,
)
    requires
        unique_outcome_ids(outcomes),
    ensures
        class_ids(outcomes, tid, tpoi, PeerClass::Agreeing).to_set().disjoint(
            class_ids(outcomes, tid, tpoi, PeerClass::Disagreeing).to_set(),
        ),
        class_ids(outcomes, tid, tpoi, PeerClass::Agreeing).to_set().disjoint(
            class_ids(outcomes, tid, tpoi, PeerClass::Unreachable).to_set(),
        ),
        class_ids(outcomes, tid, tpoi, PeerClass::Disagreeing).to_set().disjoint(
            class_ids(outcomes, tid, tpoi, PeerClass::Unreachable).to_set(),
        ),
        class_ids(outcomes, tid, tpoi, PeerClass::Agreeing).to_set().union(
            class_ids(outcomes, tid, tpoi, PeerClass::Disagreeing).to_set(),
        ).union(class_ids(outcomes, tid, tpoi, PeerClass::Unreachable).to_set())
            == outcome_ids(outcomes).to_set().remove(tid),
{
    let aset = class_ids(outcomes, tid, tpoi, PeerClass::Agreeing).to_set();
    let dset = class_ids(outcomes, tid, tpoi, PeerClass::Disagreeing).to_set();
    let uset = class_ids(outcomes, tid, tpoi, PeerClass::Unreachable).to_set();
    assert forall|id: Seq<char>, c1: PeerClass, c2: PeerClass|
        c1 != c2 && #[trigger] class_ids(outcomes, tid, tpoi, c1).to_set().contains(id)
        implies !(#[trigger] class_ids(outcomes, tid, tpoi, c2).to_set().contains(id)) by {
        lemma_class_ids_membership(outcomes, tid, tpoi, c1, id);
        lemma_class_ids_membership(outcomes, tid, tpoi, c2, id);
        if class_ids(outcomes, tid, tpoi, c2).contains(id) {
            let k1 = choose|k: int|
                0 <= k < outcomes.len() && (#[trigger] outcomes[k].0@) == id
                    && spec_class(outcomes[k].0@, outcomes[k].1, tid, tpoi) == Some(c1);
            let k2 = choose|k: int|
                0 <= k < outcomes.len() && (#[trigger] outcomes[k].0@) == id
                    && spec_class(outcomes[k].0@, outcomes[k].1, tid, tpoi) == Some(c2);
            assert(k1 == k2);
        }
    }
    let union = aset.union(dset).union(uset);
    let covered = outcome_ids(outcomes).to_set().remove(tid);
    assert forall|id: Seq<char>| union.contains(id) implies covered.contains(id) by {
        lemma_class_ids_membership(outcomes, tid, tpoi, PeerClass::Agreeing, id);
        lemma_class_ids_membership(outcomes, tid, tpoi, PeerClass::Disagreeing, id);
        lemma_class_ids_membership(outcomes, tid, tpoi, PeerClass::Unreachable, id);
        let c = if aset.contains(id) {
            PeerClass::Agreeing
        } else if dset.contains(id) {
            PeerClass::Disagreeing
        } else {
            PeerClass::Unreachable
        };
        let k = choose|k: int|
            0 <= k < outcomes.len() && (#[trigger] outcomes[k].0@) == id
                && spec_class(outcomes[k].0@, outcomes[k].1, tid, tpoi) == Some(c);
        assert(outcome_ids(outcomes)[k] == id);
        assert(outcome_ids(outcomes).contains(id));
    }
    assert forall|id: Seq<char>| covered.contains(id) implies union.contains(id) by {
        let k = choose|k: int| 0 <= k < outcome_ids(outcomes).len()
            && #[trigger] outcome_ids(outcomes)[k] == id;
        assert(outcomes[k].0@ == id);
        match spec_class(outcomes[k].0@, outcomes[k].1, tid, tpoi) {
            Some(c) => {
                lemma_class_ids_membership(outcomes, tid, tpoi, c, id);
                assert(class_ids(outcomes, tid, tpoi, c).to_set().contains(id));
            },
            None => {
                assert(id == tid);
            },
        }
    }
    assert(union =~= covered);
}

/// The disagreement set is empty exactly when no peer returned a digest
/// unequal to the trusted one.
pub proof fn lemma_no_divergence_characterization(
    outcomes: Seq<(String, FetchOutcome)>,
    tid: Seq<char>,
    tpoi: Seq<char>,
)
    ensures
        class_ids(outcomes, tid, tpoi, PeerClass::Disagreeing).len() == 0 <==> forall|k: int|
            0 <= k < outcomes.len() ==> spec_class(
                (#[trigger] outcomes[k]).0@,
                outcomes[k].1,
                tid,
                tpoi,
            ) != Some(PeerClass::Disagreeing),
{
    let s = class_ids(outcomes, tid, tpoi, PeerClass::Disagreeing);
    if s.len() == 0 {
        assert forall|k: int| 0 <= k < outcomes.len() implies spec_class(
            (#[trigger] outcomes[k]).0@,
            outcomes[k].1,
            tid,
            tpoi,
        ) != Some(PeerClass::Disagreeing) by {
            lemma_class_ids_membership(outcomes, tid, tpoi, PeerClass::Disagreeing, outcomes[k].0@);
            if spec_class(outcomes[k].0@, outcomes[k].1, tid, tpoi) == Some(
                PeerClass::Disagreeing,
            ) {
                assert(s.contains(outcomes[k].0@));
            }
        }
    } else {
        assert(s.contains(s[0]));
        lemma_class_ids_membership(outcomes, tid, tpoi, PeerClass::Disagreeing, s[0]);
    }
}

/// The classification of the peer set at one block, against the trusted
/// node's digest. Derived fresh per probe; never persisted.
#[derive(Debug)]
pub struct ConsensusResult {
    pub checkpoint: u32,
    pub trusted_poi: String,
    pub agreeing: Vec<String>,
    pub disagreeing: Vec<String>,
    pub unreachable: Vec<String>,
}

impl ConsensusResult {
    /// Whether at least one peer returned a digest unequal to the trusted
    /// one at this block.
    pub fn has_divergence(&self) -> (r: bool)
        ensures
            r == (self.disagreeing@.len() > 0),
    {
        self.disagreeing.len() > 0
    }
}

/// A pending probe at one block: the trusted digest is still owed. Only its
/// successful resolution yields a `GroundTruth`, so no classification — and
/// no peer fan-out that feeds one — can precede it.
#[derive(Debug)]
pub struct ConsensusProbe {
    pub checkpoint: u32,
    pub trusted_id: String,
}

/// A probe whose ground truth is resolved: peers can now be classified.
#[derive(Debug)]
pub struct GroundTruth {
    pub checkpoint: u32,
    pub trusted_id: String,
    pub trusted_poi: String,
}

impl ConsensusProbe {
    /// A fresh probe of the given block against the given trusted node.
    pub fn new(checkpoint: u32, trusted_id: String) -> (r: ConsensusProbe)
        ensures
            r.checkpoint == checkpoint,
            r.trusted_id == trusted_id,
    {
        ConsensusProbe { checkpoint, trusted_id }
    }

    /// Resolve the trusted node's own fetch outcome. A digest yields the
    /// ground truth to classify against; a trusted node that stayed
    /// unreachable after retries is fatal, and the whole check fails with
    /// `NoGroundTruth` before any peer is contacted.
    pub fn ground_truth(self, outcome: FetchOutcome) -> (r: Result<GroundTruth, FatalError>)
        ensures
            (outcome matches FetchOutcome::Digest(d) ==> r matches Ok(g)
                && g.checkpoint == self.checkpoint
                && g.trusted_id == self.trusted_id
                && g.trusted_poi == d),
            outcome is Unreachable ==> r == Err::<GroundTruth, FatalError>(
                FatalError::NoGroundTruth,
            ),
    {
        match outcome {
            FetchOutcome::Digest(d) => Ok(GroundTruth {
                checkpoint: self.checkpoint,
                trusted_id: self.trusted_id,
                trusted_poi: d,
            }),
            FetchOutcome::Unreachable => Err(FatalError::NoGroundTruth),
        }
    }
}

impl GroundTruth {
    /// Classify every peer outcome against the trusted digest: equal digests
    /// agree, unequal digests disagree, nodes that stayed unreachable are
    /// reported apart, and the trusted node itself is skipped. Each set
    /// keeps the order in which the outcomes were handed in.
    pub fn classify(&self, outcomes: &Vec<(String, FetchOutcome)>) -> (r: ConsensusResult)
        ensures
            r.checkpoint == self.checkpoint,
            r.trusted_poi == self.trusted_poi,
            r.agreeing@.map_values(|s: String| s@)
                == class_ids(outcomes@, self.trusted_id@, self.trusted_poi@, PeerClass::Agreeing),
            r.disagreeing@.map_values(|s: String| s@)
                == class_ids(outcomes@, self.trusted_id@, self.trusted_poi@, PeerClass::Disagreeing),
            r.unreachable@.map_values(|s: String| s@)
                == class_ids(outcomes@, self.trusted_id@, self.trusted_poi@, PeerClass::Unreachable),
    {
        let ghost tid = self.trusted_id@;
        let ghost tpoi = self.trusted_poi@;
        let mut agreeing: Vec<String> = Vec::new();
        let mut disagreeing: Vec<String> = Vec::new();
        let mut unreachable: Vec<String> = Vec::new();
        let n = outcomes.len();
        for i in 0..n
            invariant
                n == outcomes.len(),
                tid == self.trusted_id@,
                tpoi == self.trusted_poi@,
                agreeing@.map_values(|s: String| s@)
                    == class_ids(outcomes@.take(i as int), tid, tpoi, PeerClass::Agreeing),
                disagreeing@.map_values(|s: String| s@)
                    == class_ids(outcomes@.take(i as int), tid, tpoi, PeerClass::Disagreeing),
                unreachable@.map_values(|s: String| s@)
                    == class_ids(outcomes@.take(i as int), tid, tpoi, PeerClass::Unreachable),
        {
            let entry = &outcomes[i];
            proof {
                assert(outcomes@.take(i + 1).drop_last() =~= outcomes@.take(i as int));
                assert(outcomes@.take(i + 1).last() == outcomes@[i as int]);
            }
            if entry.0 != self.trusted_id {
                match &entry.1 {
                    FetchOutcome::Digest(d) => {
                        if *d == self.trusted_poi {
                            proof {
                                lemma_map_push(agreeing@, entry.0);
                            }
                            agreeing.push(entry.0.clone());
                        } else {
                            proof {
                                lemma_map_push(disagreeing@, entry.0);
                            }
                            disagreeing.push(entry.0.clone());
                        }
                    },
                    FetchOutcome::Unreachable => {
                        proof {
                            lemma_map_push(unreachable@, entry.0);
                        }
                        unreachable.push(entry.0.clone());
                    },
                }
            }
        }
        proof {
            assert(outcomes@.take(n as int) =~= outcomes@);
        }
        ConsensusResult {
            checkpoint: self.checkpoint,
            trusted_poi: self.trusted_poi.clone(),
            agreeing,
            disagreeing,
            unreachable,
        }
    }
}

/// Pushing an element onto a vector extends the view of its identifiers by
/// that element's view.
proof fn lemma_map_push(s: Seq<String>, x: String)
    ensures
        s.push(x).map_values(|t: String| t@) =~= s.map_values(|t: String| t@).push(x@),
{
}

/// The trusted node must be a member of the peer set; a search with an
/// unknown trusted node is rejected before any network activity.
pub fn validate_trusted_member(peers: &Vec<Indexer>, trusted_id: &String) -> (r: Result<
    (),
    FatalError,
>)
    ensures
        spec_contains_id(peers@, trusted_id@) ==> r == Ok::<(), FatalError>(()),
        !spec_contains_id(peers@, trusted_id@) ==> r == Err::<(), FatalError>(
            FatalError::UnknownTrustedNode,
        ),
{
    if crate::models::contains_indexer_id(peers, trusted_id) {
        Ok(())
    } else {
        Err(FatalError::UnknownTrustedNode)
    }
}

} // verus!
