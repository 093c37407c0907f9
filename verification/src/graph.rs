//! Build-graph bookkeeping: how a node's work was settled.
use vstd::prelude::*;

verus! {

/// Whether a node ran or hit the cache.
#[derive(Debug, Clone, Copy, PartialEq, Eq, Structural)]
pub enum NodeOutcome {
    Hit,
    Miss,
}

/// A node whose input hash has a cached entry is a hit (its output is
/// restored); any other node runs.
pub fn outcome_for(cached: bool) -> (r: NodeOutcome)
    ensures
        r == (if cached { NodeOutcome::Hit } else { NodeOutcome::Miss }),
{
    if cached {
        NodeOutcome::Hit
    } else {
        NodeOutcome::Miss
    }
}

/// The number of nodes a report covers.
pub fn total_nodes(hits: usize, misses: usize) -> (r: usize)
    requires
        hits + misses <= usize::MAX,
    ensures
        r == hits + misses,
{
    hits + misses
}


/// How many of `outcomes` are `o`.
pub open spec fn count_of(outcomes: Seq<NodeOutcome>, o: NodeOutcome) -> nat
    decreases outcomes.len(),
{
    if outcomes.len() == 0 {
        0
    } else {
        count_of(outcomes.drop_last(), o) + (if outcomes.last() == o { 1nat } else { 0nat })
    }
}

proof fn lemma_counts_cover(outcomes: Seq<NodeOutcome>)
    ensures
        count_of(outcomes, NodeOutcome::Hit) + count_of(outcomes, NodeOutcome::Miss) == outcomes.len(),
    decreases outcomes.len(),
{
    if outcomes.len() > 0 {
        lemma_counts_cover(outcomes.drop_last());
    }
}

/// The cache hits and misses among the outcomes of a run; together they
/// are every node.
pub fn tally(outcomes: &[NodeOutcome]) -> (r: (usize, usize))
    ensures
        r.0 == count_of(outcomes@, NodeOutcome::Hit),
        r.1 == count_of(outcomes@, NodeOutcome::Miss),
        r.0 + r.1 == outcomes@.len(),
{
    let mut hits: usize = 0;
    let mut misses: usize = 0;
    let mut i: usize = 0;
    while i < outcomes.len()
        invariant
            i <= outcomes@.len(),
            outcomes@.len() == outcomes.len(),
            hits == count_of(outcomes@.take(i as int), NodeOutcome::Hit),
            misses == count_of(outcomes@.take(i as int), NodeOutcome::Miss),
            hits + misses == i,
        decreases outcomes@.len() - i,
    {
        assert(outcomes@.take(i + 1).drop_last() =~= outcomes@.take(i as int));
        proof {
            lemma_counts_cover(outcomes@.take(i as int));
        }
        match outcomes[i] {
            NodeOutcome::Hit => hits = hits + 1,
            NodeOutcome::Miss => misses = misses + 1,
        }
        i = i + 1;
    }
    assert(outcomes@.take(i as int) =~= outcomes@);
    proof {
        lemma_counts_cover(outcomes@);
    }
    (hits, misses)
}

} // verus!
