use vstd::prelude::*;

use crate::id::StableId;
use crate::payload::Payload;

verus! {

/// A live-object population, or the body of a snapshot: identifier/state
/// pairs, at most one per identifier.
pub open spec fn unique_ids<P>(s: Seq<(StableId, P)>) -> bool {
    forall|i: int, j: int| 0 <= i < j < s.len() ==> (#[trigger] s[i]).0 != (#[trigger] s[j]).0
}

/// Whether some pair of `s` carries the identifier `id`.
pub open spec fn has_id<P>(s: Seq<(StableId, P)>, id: StableId) -> bool {
    exists|i: int| 0 <= i < s.len() && (#[trigger] s[i]).0 == id
}

/// The mapping that a sequence of identifier/state pairs denotes; a later
/// pair wins, though under `unique_ids` there is never more than one.
pub open spec fn as_map<P>(s: Seq<(StableId, P)>) -> Map<StableId, P>
    decreases s.len(),
{
    if s.len() == 0 {
        Map::empty()
    } else {
        as_map(s.drop_last()).insert(s.last().0, s.last().1)
    }
}

/// The domain of `as_map(s)` holds exactly the identifiers that occur in `s`.
pub proof fn lemma_as_map_dom<P>(s: Seq<(StableId, P)>)
    ensures
        forall|id: StableId| as_map(s).dom().contains(id) <==> has_id(s, id),
    decreases s.len(),
{
    if s.len() > 0 {
        lemma_as_map_dom(s.drop_last());
        assert forall|id: StableId| as_map(s).dom().contains(id) implies has_id(s, id) by {
            if id == s.last().0 {
                assert((#[trigger] s[s.len() - 1]).0 == id);
            } else {
                assert(as_map(s.drop_last()).dom().contains(id));
                assert(has_id(s.drop_last(), id));
                let i = choose|i: int| 0 <= i < s.drop_last().len() && (#[trigger] s.drop_last()[i]).0 == id;
                assert(s.drop_last()[i] == s[i]);
                assert((#[trigger] s[i]).0 == id);
            }
        }
        assert forall|id: StableId| has_id(s, id) implies as_map(s).dom().contains(id) by {
            let i = choose|i: int| 0 <= i < s.len() && (#[trigger] s[i]).0 == id;
            if i < s.len() - 1 {
                assert(s.drop_last()[i] == s[i]);
                assert((#[trigger] s.drop_last()[i]).0 == id);
                assert(has_id(s.drop_last(), id));
            }
        }
    }
}

/// Under `unique_ids`, every pair of `s` is reflected exactly in `as_map(s)`.
pub proof fn lemma_as_map_index<P>(s: Seq<(StableId, P)>, i: int)
    requires
        unique_ids(s),
        0 <= i < s.len(),
    ensures
        as_map(s).dom().contains(s[i].0),
        as_map(s)[s[i].0] == s[i].1,
    decreases s.len(),
{
    if i == s.len() - 1 {
        assert(as_map(s).dom().contains(s.last().0));
    } else {
        assert(unique_ids(s.drop_last())) by {
            assert forall|k: int, l: int| 0 <= k < l < s.drop_last().len()
                implies (#[trigger] s.drop_last()[k]).0 != (#[trigger] s.drop_last()[l]).0 by {
                assert(s[k] == s.drop_last()[k]);
                assert(s[l] == s.drop_last()[l]);
            }
        }
        lemma_as_map_index(s.drop_last(), i);
        assert(s.drop_last()[i] == s[i]);
        assert(s[i].0 != s.last().0);
    }
}

/// An immutable mapping from `StableId` to one state-category's payload:
/// every object of that category, as it stood at one frame.
pub struct ComponentSnapshot<P> {
    entries: Vec<(StableId, P)>,
}

impl<P> ComponentSnapshot<P> {
    /// The stored pairs, in capture order.
    pub closed spec fn entries_seq(&self) -> Seq<(StableId, P)> {
        self.entries@
    }

    /// Well-formed: at most one entry per identifier.
    pub open spec fn wf(&self) -> bool {
        unique_ids(self.entries_seq())
    }

    /// How many objects the snapshot holds.
    pub fn entry_count(&self) -> (n: usize)
        ensures
            n == self.entries_seq().len(),
    {
        self.entries.len()
    }

    /// The `i`-th stored pair.
    pub fn entry_at(&self, i: usize) -> (e: &(StableId, P))
        requires
            i < self.entries_seq().len(),
        ensures
            *e == self.entries_seq()[i as int],
    {
        &self.entries[i]
    }

    /// The stored payload for `id`, if the object existed at the snapshot's
    /// frame.
    pub fn get(&self, id: StableId) -> (r: Option<&P>)
        requires
            self.wf(),
        ensures
            match r {
                Some(p) => self@.dom().contains(id) && *p == self@[id],
                None => !self@.dom().contains(id),
            },
    {
        let n = self.entries.len();
        let mut i: usize = 0;
        while i < n
            invariant
                n == self.entries_seq().len(),
                i <= n,
                self.wf(),
                forall|k: int| 0 <= k < i ==> (#[trigger] self.entries_seq()[k]).0 != id,
            decreases n - i,
        {
            if self.entries[i].0 == id {
                proof {
                    lemma_as_map_index(self.entries_seq(), i as int);
                }
                return Some(&self.entries[i].1);
            }
            i += 1;
        }
        proof {
            lemma_as_map_dom(self.entries_seq());
            assert(!has_id(self.entries_seq(), id));
        }
        return None;
    }
}

impl<P> View for ComponentSnapshot<P> {
    type V = Map<StableId, P>;

    open spec fn view(&self) -> Map<StableId, P> {
        as_map(self.entries_seq())
    }
}

impl<P: Payload> ComponentSnapshot<P> {
    /// Capture the body of a snapshot: duplicate each live object's state
    /// under its identifier. The resulting mapping does not depend on the
    /// order in which the population is listed.
    pub fn capture(live: &Vec<(StableId, P)>) -> (s: Self)
        requires
            unique_ids(live@),
        ensures
            s.wf(),
            s@ == as_map(live@),
            s.entries_seq() == live@,
    {
        let n = live.len();
        let mut entries: Vec<(StableId, P)> = Vec::new();
        let mut i: usize = 0;
        while i < n
            invariant
                n == live@.len(),
                i <= n,
                unique_ids(live@),
                entries@ =~= live@.take(i as int),
            decreases n - i,
        {
            let dup = live[i].1.duplicate();
            entries.push((live[i].0, dup));
            proof {
                assert(live@.take(i + 1) =~= live@.take(i as int).push(live@[i as int]));
            }
            i += 1;
        }
        proof {
            assert(entries@ =~= live@);
        }
        ComponentSnapshot { entries }
    }
}

} // verus!
