//! The state machine itself.
//!
//! `DoGood` holds the three records as a store would: each is absent until
//! first written, and reads apply the record's default. The logging
//! operation acts on the authorization gate's verdict first, then runs the
//! read-modify-write sequence over all three records as one unit; queries
//! are single reads.

use vstd::prelude::*;
use crate::actor::ActorId;
use crate::model::{
    StateView, empty_state, impact_of, spec_log, map_sum,
    lemma_map_sum_insert,
};

verus! {

/// The one business-logic failure: the caller does not control the identity
/// it claims to act as.
#[derive(Debug, PartialEq, Eq, Structural)]
pub enum Error {
    Unauthorized,
}

/// The observational event a successful logging operation asks its caller
/// to publish. It carries the free-text description and is not read back.
pub struct LogEvent {
    /// The description of the logged action.
    pub description: String,
}

/// Whether a tally holds at most one entry per actor.
pub open spec fn keys_unique(s: Seq<(ActorId, u32)>) -> bool {
    forall|i: int, j: int| 0 <= i < j < s.len() ==> s[i].0@ != s[j].0@
}

/// The sum of all counts in a tally.
pub open spec fn sum_of(s: Seq<(ActorId, u32)>) -> nat
    decreases s.len(),
{
    if s.len() == 0 {
        0
    } else {
        sum_of(s.drop_last()) + s.last().1 as nat
    }
}

/// The per-actor map a tally denotes (a later entry for the same actor
/// would shadow an earlier one; with unique keys there is no shadowing).
pub open spec fn map_of(s: Seq<(ActorId, u32)>) -> Map<Seq<u8>, nat>
    decreases s.len(),
{
    if s.len() == 0 {
        Map::empty()
    } else {
        map_of(s.drop_last()).insert(s.last().0@, s.last().1 as nat)
    }
}

/// A tally's map contains exactly the actors that appear in it.
pub proof fn lemma_map_of_contains(s: Seq<(ActorId, u32)>, k: Seq<u8>)
    ensures
        map_of(s).contains_key(k) <==> exists|i: int| 0 <= i < s.len() && s[i].0@ == k,
    decreases s.len(),
{
    if s.len() > 0 {
        lemma_map_of_contains(s.drop_last(), k);
        if map_of(s).contains_key(k) {
            if s.last().0@ == k {
                assert(s[s.len() - 1].0@ == k);
            } else {
                let i = choose|i: int| 0 <= i < s.len() - 1 && s.drop_last()[i].0@ == k;
                assert(s[i].0@ == k);
            }
        }
        if exists|i: int| 0 <= i < s.len() && s[i].0@ == k {
            let i = choose|i: int| 0 <= i < s.len() && s[i].0@ == k;
            if i < s.len() - 1 {
                assert(s.drop_last()[i].0@ == k);
            }
        }
    }
}

/// With unique keys, the map's count for an actor in the tally is that
/// entry's count.
pub proof fn lemma_map_of_value(s: Seq<(ActorId, u32)>, i: int)
    requires
        keys_unique(s),
        0 <= i < s.len(),
    ensures
        map_of(s).contains_key(s[i].0@),
        map_of(s)[s[i].0@] == s[i].1 as nat,
    decreases s.len(),
{
    lemma_map_of_contains(s, s[i].0@);
    if i < s.len() - 1 {
        assert(s.drop_last()[i] == s[i]);
        lemma_map_of_value(s.drop_last(), i);
        assert(s.last().0@ != s[i].0@);
    }
}

/// Every single entry's count is at most the sum of all counts.
pub proof fn lemma_entry_le_sum(s: Seq<(ActorId, u32)>, i: int)
    requires
        0 <= i < s.len(),
    ensures
        s[i].1 as nat <= sum_of(s),
    decreases s.len(),
{
    if i < s.len() - 1 {
        assert(s.drop_last()[i] == s[i]);
        lemma_entry_le_sum(s.drop_last(), i);
    }
}

/// The sum over a prefix of a tally is at most the sum over the whole.
pub proof fn lemma_sum_take_le(s: Seq<(ActorId, u32)>, i: int)
    requires
        0 <= i <= s.len(),
    ensures
        sum_of(s.take(i)) <= sum_of(s),
    decreases s.len(),
{
    if i == s.len() {
        assert(s.take(i) =~= s);
    } else {
        assert(s.take(i) =~= s.drop_last().take(i));
        lemma_sum_take_le(s.drop_last(), i);
    }
}

/// Extending a prefix by one entry adds that entry's count to its sum.
pub proof fn lemma_sum_take_step(s: Seq<(ActorId, u32)>, i: int)
    requires
        0 <= i < s.len(),
    ensures
        sum_of(s.take(i + 1)) == sum_of(s.take(i)) + s[i].1,
{
    assert(s.take(i + 1).drop_last() =~= s.take(i));
    assert(s.take(i + 1).last() == s[i]);
}

/// Updating one entry's count moves the sum by the difference.
pub proof fn lemma_sum_update(s: Seq<(ActorId, u32)>, i: int, p: (ActorId, u32))
    requires
        0 <= i < s.len(),
    ensures
        sum_of(s.update(i, p)) == sum_of(s) - s[i].1 + p.1,
    decreases s.len(),
{
    if i == s.len() - 1 {
        assert(s.update(i, p).drop_last() =~= s.drop_last());
    } else {
        assert(s.update(i, p).drop_last() =~= s.drop_last().update(i, p));
        assert(s.update(i, p).last() == s.last());
        lemma_sum_update(s.drop_last(), i, p);
    }
}

/// Replacing one entry by another for the same actor updates that actor's
/// count in the map and nothing else.
pub proof fn lemma_map_of_update(s: Seq<(ActorId, u32)>, i: int, p: (ActorId, u32))
    requires
        keys_unique(s),
        0 <= i < s.len(),
        p.0@ == s[i].0@,
    ensures
        map_of(s.update(i, p)) =~= map_of(s).insert(p.0@, p.1 as nat),
    decreases s.len(),
{
    if i == s.len() - 1 {
        assert(s.update(i, p).drop_last() =~= s.drop_last());
        assert(s.update(i, p).last() == p);
    } else {
        assert(s.update(i, p).drop_last() =~= s.drop_last().update(i, p));
        assert(s.update(i, p).last() == s.last());
        lemma_map_of_update(s.drop_last(), i, p);
        assert(s.last().0@ != p.0@);
        assert(map_of(s.drop_last()).insert(p.0@, p.1 as nat).insert(s.last().0@, s.last().1 as nat)
            =~= map_of(s.drop_last()).insert(s.last().0@, s.last().1 as nat).insert(p.0@, p.1 as nat));
    }
}

/// With unique keys, the map's counts sum to the tally's sum.
pub proof fn lemma_map_of_sum(s: Seq<(ActorId, u32)>)
    requires
        keys_unique(s),
    ensures
        map_of(s).dom().finite(),
        map_sum(map_of(s)) == sum_of(s),
    decreases s.len(),
{
    if s.len() > 0 {
        lemma_map_of_sum(s.drop_last());
        lemma_map_of_contains(s.drop_last(), s.last().0@);
        assert(forall|i: int| 0 <= i < s.len() - 1 ==> s.drop_last()[i] == s[i]);
        assert(!map_of(s.drop_last()).contains_key(s.last().0@));
        lemma_map_sum_insert(map_of(s.drop_last()), s.last().0@, s.last().1 as nat);
    }
}

/// The state machine: the three records of the durable namespace. Each
/// field is `None` until the record is first written, exactly as the record
/// is absent until then; reads apply the record's default.
pub struct DoGood {
    total: Option<u32>,
    last: Option<ActorId>,
    impact: Option<Vec<(ActorId, u32)>>,
}

impl View for DoGood {
    type V = StateView;

    closed spec fn view(&self) -> StateView {
        StateView {
            total: match self.total {
                Some(t) => t as nat,
                None => 0,
            },
            last: match self.last {
                Some(a) => Some(a@),
                None => None,
            },
            impact: map_of(self.entries()),
        }
    }
}

impl DoGood {
    /// The tally entries of the `impact` record, an absent record reading
    /// as empty.
    closed spec fn entries(&self) -> Seq<(ActorId, u32)> {
        match self.impact {
            Some(v) => v@,
            None => Seq::empty(),
        }
    }

    /// Well-formedness: the tally names each actor at most once, and the
    /// recorded total equals the sum of all recorded impact counts.
    pub closed spec fn wf(&self) -> bool {
        &&& keys_unique(self.entries())
        &&& self@.total == sum_of(self.entries())
    }

    /// A state machine whose records have never been written.
    pub fn new() -> (r: DoGood)
        ensures
            r.wf(),
            r@ == empty_state(),
    {
        let r = DoGood { total: None, last: None, impact: None };
        proof {
            assert(r@ =~= empty_state());
        }
        r
    }

    /// Returns `total`, defaulting to 0 when never written.
    pub fn get_total_actions(&self) -> (r: u32)
        ensures
            r as nat == self@.total,
    {
        match self.total {
            Some(t) => t,
            None => 0,
        }
    }

    /// Returns `last`: the most recent contributor, or `None` when no
    /// logging operation has ever completed.
    pub fn get_last_contributor(&self) -> (r: Option<&ActorId>)
        ensures
            match r {
                Some(a) => self@.last == Some(a@),
                None => self@.last is None,
            },
    {
        match &self.last {
            Some(a) => Some(a),
            None => None,
        }
    }

    /// Returns the `impact` count recorded for `who`, defaulting to 0 when
    /// the record is absent or names no such actor.
    pub fn get_user_impact(&self, who: &ActorId) -> (r: u32)
        requires
            self.wf(),
        ensures
            r as nat == impact_of(self@, who@),
    {
        match &self.impact {
            None => {
                proof {
                    lemma_map_of_contains(self.entries(), who@);
                }
                0
            },
            Some(v) => {
                let found = find_actor(v, who);
                proof {
                    lemma_map_of_contains(self.entries(), who@);
                }
                match found {
                    Some(i) => {
                        proof {
                            lemma_map_of_value(self.entries(), i as int);
                        }
                        v[i].1
                    },
                    None => 0,
                }
            },
        }
    }
}

impl DoGood {
    /// Logs one action. `auth_ok` is the verdict of the authorization gate:
    /// whether the invocation is attributable to `who`'s controlling
    /// credential. On a positive verdict the three records are updated as
    /// one unit and the event to publish is returned; on a negative verdict
    /// every record is left untouched and the call fails as unauthorized.
    pub fn log_action(&mut self, who: ActorId, description: String, auth_ok: bool)
        -> (r: Result<LogEvent, Error>)
        requires
            old(self).wf(),
            old(self)@.total < u32::MAX,
        ensures
            final(self).wf(),
            auth_ok ==> r is Ok && r->Ok_0.description@ == description@
                && final(self)@ == spec_log(old(self)@, who@),
            !auth_ok ==> r == Err::<LogEvent, Error>(Error::Unauthorized)
                && *final(self) == *old(self),
    {
        if !auth_ok {
            return Err(Error::Unauthorized);
        }
        let ghost who_view = who@;
        let ghost old_entries = old(self).entries();

        // total: read with its default, increment by one, write back.
        let t: u32 = match self.total {
            Some(t) => t,
            None => 0,
        };
        self.total = Some(t + 1);

        // last: overwrite unconditionally.
        self.last = Some(who.duplicate());

        // impact: read with its default, bump the entry for `who` (creating
        // it at one), write back.
        let stored: Option<Vec<(ActorId, u32)>> = self.impact.take();
        let mut v: Vec<(ActorId, u32)> = match stored {
            Some(v) => v,
            None => Vec::new(),
        };
        match find_actor(&v, &who) {
            Some(i) => {
                let c: u32 = v[i].1;
                proof {
                    lemma_entry_le_sum(old_entries, i as int);
                    lemma_map_of_value(old_entries, i as int);
                }
                v[i] = (who, c + 1);
                proof {
                    let p = v@[i as int];
                    lemma_map_of_update(old_entries, i as int, p);
                    lemma_sum_update(old_entries, i as int, p);
                    assert(keys_unique(v@)) by {
                        assert(forall|a: int| 0 <= a < v@.len()
                            ==> v@[a].0@ == old_entries[a].0@);
                    }
                }
            },
            None => {
                proof {
                    lemma_map_of_contains(old_entries, who_view);
                }
                v.push((who, 1));
                proof {
                    assert(v@.drop_last() =~= old_entries);
                    assert(v@.last() == v@[v@.len() - 1]);
                    assert(keys_unique(v@)) by {
                        assert(forall|a: int| 0 <= a < v@.len() - 1
                            ==> v@[a] == old_entries[a]);
                    }
                }
            },
        }
        self.impact = Some(v);
        proof {
            assert(self@ =~= spec_log(old(self)@, who_view));
        }
        Ok(LogEvent { description })
    }
}

/// The value a stored `total` record denotes: absent reads as 0.
pub open spec fn stored_total(total: Option<u32>) -> nat {
    match total {
        Some(t) => t as nat,
        None => 0,
    }
}

/// The value a stored `last` record denotes: absent means no contributor
/// yet.
pub open spec fn stored_last(last: Option<ActorId>) -> Option<Seq<u8>> {
    match last {
        Some(a) => Some(a@),
        None => None,
    }
}

/// The tally a stored `impact` record denotes: absent reads as empty.
pub open spec fn stored_entries(impact: Option<Vec<(ActorId, u32)>>) -> Seq<(ActorId, u32)> {
    match impact {
        Some(v) => v@,
        None => Seq::empty(),
    }
}

/// Whether record values read back from a store satisfy the machine's
/// invariants: one tally entry per actor, and a total equal to the sum of
/// all impact counts.
pub open spec fn records_consistent(total: Option<u32>, impact: Option<Vec<(ActorId, u32)>>) -> bool {
    &&& keys_unique(stored_entries(impact))
    &&& stored_total(total) == sum_of(stored_entries(impact))
}

/// The state that record values read back from a store denote.
pub open spec fn records_state(
    total: Option<u32>,
    last: Option<ActorId>,
    impact: Option<Vec<(ActorId, u32)>>,
) -> StateView {
    StateView {
        total: stored_total(total),
        last: stored_last(last),
        impact: map_of(stored_entries(impact)),
    }
}

impl DoGood {
    /// Rebuilds a state machine from the three record values as read back
    /// from a store (`None` for a record never written). Returns `None`
    /// when the values do not satisfy the machine's invariants and so
    /// cannot have been written by it.
    pub fn from_parts(
        total: Option<u32>,
        last: Option<ActorId>,
        impact: Option<Vec<(ActorId, u32)>>,
    ) -> (r: Option<DoGood>)
        ensures
            r is Some <==> records_consistent(total, impact),
            r matches Some(g) ==> g.wf() && g@ == records_state(total, last, impact),
    {
        let ghost state = records_state(total, last, impact);
        let consistent: bool = match &impact {
            Some(v) => {
                if !tally_is_unique(v) {
                    false
                } else {
                    match tally_sum(v) {
                        Some(s) => {
                            let t: u32 = match total {
                                Some(t) => t,
                                None => 0,
                            };
                            s == t
                        },
                        None => false,
                    }
                }
            },
            None => {
                let t: u32 = match total {
                    Some(t) => t,
                    None => 0,
                };
                t == 0
            },
        };
        if consistent {
            let g = DoGood { total, last, impact };
            proof {
                assert(g@ =~= state);
            }
            Some(g)
        } else {
            None
        }
    }

    /// The tally entries of the `impact` record, for writing the record
    /// back to a store; `None` when the record was never written.
    pub fn impact_entries(&self) -> (r: Option<&Vec<(ActorId, u32)>>)
        ensures
            match r {
                Some(v) => self@.impact == map_of(v@),
                None => self@.impact == Map::<Seq<u8>, nat>::empty(),
            },
    {
        match &self.impact {
            Some(v) => Some(v),
            None => None,
        }
    }
}

/// Law: in any well-formed state, the per-actor impact counts sum exactly
/// to the total action count.
pub proof fn lemma_impact_sum_equals_total(g: &DoGood)
    requires
        g.wf(),
    ensures
        g@.impact.dom().finite(),
        map_sum(g@.impact) == g@.total,
{
    lemma_map_of_sum(g.entries());
}

/// Whether a tally names each actor at most once.
fn tally_is_unique(v: &Vec<(ActorId, u32)>) -> (r: bool)
    ensures
        r == keys_unique(v@),
{
    let mut i: usize = 0;
    while i < v.len()
        invariant
            i <= v.len(),
            forall|a: int, b: int| 0 <= a < b < v@.len() && a < i ==> v@[a].0@ != v@[b].0@,
        decreases v.len() - i,
    {
        let mut j: usize = i + 1;
        while j < v.len()
            invariant
                i < v.len(),
                i + 1 <= j <= v.len(),
                forall|a: int, b: int| 0 <= a < b < v@.len() && a < i ==> v@[a].0@ != v@[b].0@,
                forall|b: int| i < b < j ==> v@[i as int].0@ != v@[b].0@,
            decreases v.len() - j,
        {
            if v[i].0.same_as(&v[j].0) {
                return false;
            }
            j = j + 1;
        }
        i = i + 1;
    }
    true
}

/// The sum of all counts in a tally, or `None` when it exceeds the
/// counter's range.
fn tally_sum(v: &Vec<(ActorId, u32)>) -> (r: Option<u32>)
    ensures
        match r {
            Some(s) => s as nat == sum_of(v@),
            None => sum_of(v@) > u32::MAX,
        },
{
    let mut acc: u32 = 0;
    let mut k: usize = 0;
    while k < v.len()
        invariant
            k <= v.len(),
            acc as nat == sum_of(v@.take(k as int)),
        decreases v.len() - k,
    {
        let c: u32 = v[k].1;
        proof {
            lemma_sum_take_step(v@, k as int);
        }
        if c > u32::MAX - acc {
            proof {
                lemma_sum_take_le(v@, k as int + 1);
            }
            return None;
        }
        acc = acc + c;
        k = k + 1;
    }
    proof {
        assert(v@.take(v@.len() as int) =~= v@);
    }
    Some(acc)
}

/// The index of `who`'s entry in a tally, if it has one.
fn find_actor(v: &Vec<(ActorId, u32)>, who: &ActorId) -> (r: Option<usize>)
    ensures
        match r {
            Some(i) => 0 <= i < v@.len() && v@[i as int].0@ == who@,
            None => forall|j: int| 0 <= j < v@.len() ==> v@[j].0@ != who@,
        },
{
    let mut i: usize = 0;
    while i < v.len()
        invariant
            i <= v.len(),
            forall|j: int| 0 <= j < i ==> v@[j].0@ != who@,
        decreases v.len() - i,
    {
        if v[i].0.same_as(who) {
            return Some(i);
        }
        i = i + 1;
    }
    None
}

} // verus!
