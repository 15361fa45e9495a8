//! The mathematical model of the state machine.
//!
//! A state is three records: the total action count, the last contributor,
//! and the per-actor impact map. `spec_log` is the transition taken by one
//! successful logging operation; `apply_all` folds a whole sequence of
//! operations. The lemmas at the end state the laws the machine obeys.

use vstd::prelude::*;

verus! {

/// The observable state: the three records with their absent-value defaults
/// already applied (an unwritten counter reads as 0, an unwritten impact map
/// as empty, an unwritten last contributor as `None`).
#[verifier::ext_equal]
pub ghost struct StateView {
    /// Count of all logged actions across all actors.
    pub total: nat,
    /// Identity of the most recent actor to log an action, if any.
    pub last: Option<Seq<u8>>,
    /// Per-actor count of logged actions.
    pub impact: Map<Seq<u8>, nat>,
}

/// The state before any operation has ever run.
pub open spec fn empty_state() -> StateView {
    StateView { total: 0, last: None, impact: Map::empty() }
}

/// The impact count recorded for `who`: absent actors read as 0.
pub open spec fn impact_of(s: StateView, who: Seq<u8>) -> nat {
    if s.impact.contains_key(who) {
        s.impact[who]
    } else {
        0
    }
}

/// The state after one successful logging operation by `who`: the total
/// grows by one, `who` becomes the last contributor, and `who`'s impact
/// grows by one.
pub open spec fn spec_log(s: StateView, who: Seq<u8>) -> StateView {
    StateView {
        total: s.total + 1,
        last: Some(who),
        impact: s.impact.insert(who, impact_of(s, who) + 1),
    }
}

/// The state after a sequence of successful logging operations, applied in
/// order from `s`.
pub open spec fn apply_all(s: StateView, actors: Seq<Seq<u8>>) -> StateView
    decreases actors.len(),
{
    if actors.len() == 0 {
        s
    } else {
        spec_log(apply_all(s, actors.drop_last()), actors.last())
    }
}

/// The sum of all impact counts in a map.
pub open spec fn map_sum(m: Map<Seq<u8>, nat>) -> nat
    decreases m.dom().len()
        when m.dom().finite()
{
    if m.dom().finite() && m.dom().len() > 0 {
        let k = m.dom().choose();
        m[k] + map_sum(m.remove(k))
    } else {
        0
    }
}

/// Removing a present key takes exactly its count out of the sum.
pub proof fn lemma_map_sum_remove(m: Map<Seq<u8>, nat>, k: Seq<u8>)
    requires
        m.dom().finite(),
        m.contains_key(k),
    ensures
        map_sum(m) == m[k] + map_sum(m.remove(k)),
    decreases m.dom().len(),
{
    let c = m.dom().choose();
    assert(m.dom().len() > 0) by {
        assert(m.dom().contains(k));
    }
    assert(m.dom().contains(c));
    if c == k {
    } else {
        lemma_map_sum_remove(m.remove(c), k);
        lemma_map_sum_remove(m.remove(k), c);
        assert(m.remove(c).remove(k) =~= m.remove(k).remove(c));
    }
}

/// Inserting a count for a key replaces that key's old contribution to the
/// sum (an absent key contributed 0).
pub proof fn lemma_map_sum_insert(m: Map<Seq<u8>, nat>, k: Seq<u8>, v: nat)
    requires
        m.dom().finite(),
    ensures
        map_sum(m.insert(k, v)) == map_sum(m)
            - (if m.contains_key(k) { m[k] } else { 0 }) + v,
{
    lemma_map_sum_remove(m.insert(k, v), k);
    if m.contains_key(k) {
        lemma_map_sum_remove(m, k);
        assert(m.insert(k, v).remove(k) =~= m.remove(k));
    } else {
        assert(m.insert(k, v).remove(k) =~= m);
    }
}

/// One logging operation adds exactly one to the sum of all impact counts.
pub proof fn lemma_log_increments_sum(s: StateView, who: Seq<u8>)
    requires
        s.impact.dom().finite(),
    ensures
        spec_log(s, who).impact.dom().finite(),
        map_sum(spec_log(s, who).impact) == map_sum(s.impact) + 1,
{
    lemma_map_sum_insert(s.impact, who, impact_of(s, who) + 1);
}

/// Law: a sequence of successful logging operations increases the total
/// action count by exactly the number of operations; in particular, after N
/// operations from the empty state the total is exactly N.
pub proof fn lemma_total_counts_actions(s: StateView, actors: Seq<Seq<u8>>)
    ensures
        apply_all(s, actors).total == s.total + actors.len(),
    decreases actors.len(),
{
    if actors.len() > 0 {
        lemma_total_counts_actions(s, actors.drop_last());
    }
}

/// Law: after any successful logging operation, the actor who performed it
/// is the last contributor.
pub proof fn lemma_last_contributor_is_latest(s: StateView, who: Seq<u8>)
    ensures
        spec_log(s, who).last == Some(who),
{
}

/// Law: an actor that appears in none of the logged operations has an
/// impact count of 0.
pub proof fn lemma_unlogged_actor_has_no_impact(actors: Seq<Seq<u8>>, x: Seq<u8>)
    requires
        forall|i: int| 0 <= i < actors.len() ==> actors[i] != x,
    ensures
        impact_of(apply_all(empty_state(), actors), x) == 0,
    decreases actors.len(),
{
    if actors.len() > 0 {
        lemma_unlogged_actor_has_no_impact(actors.drop_last(), x);
    }
}

/// Law: over any sequence of successful logging operations from the empty
/// state, the impact counts keep summing exactly to the total action count.
pub proof fn lemma_sum_matches_total(actors: Seq<Seq<u8>>)
    ensures
        apply_all(empty_state(), actors).impact.dom().finite(),
        map_sum(apply_all(empty_state(), actors).impact)
            == apply_all(empty_state(), actors).total,
    decreases actors.len(),
{
    if actors.len() == 0 {
        assert(map_sum(empty_state().impact) == 0);
    } else {
        lemma_sum_matches_total(actors.drop_last());
        lemma_log_increments_sum(apply_all(empty_state(), actors.drop_last()), actors.last());
        lemma_total_counts_actions(empty_state(), actors);
        lemma_total_counts_actions(empty_state(), actors.drop_last());
    }
}

} // verus!
