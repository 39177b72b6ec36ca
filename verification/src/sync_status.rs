//! The persistent synchronization state: a mapping from source post ids to
//! destination post ids. An empty destination id marks a post as "handled but
//! not published" (a failed or filtered publish); once a key is present, the
//! reconciliation engine never publishes that source post again.
//!
//! The state is held as an association list in insertion order, so that a
//! caller can serialize and restore it; a later entry for the same key wins.
//! Its mathematical view is the map the list denotes.

use vstd::prelude::*;

use crate::model::Status;

verus! {

/// The map denoted by an association list: entries are read left to right,
/// a later entry for the same key overriding an earlier one.
pub open spec fn map_of(entries: Seq<(String, String)>) -> Map<Seq<char>, Seq<char>>
    decreases entries.len(),
{
    if entries.len() == 0 {
        Map::empty()
    } else {
        map_of(entries.drop_last()).insert(entries.last().0@, entries.last().1@)
    }
}

/// A key is in the denoted map exactly when some entry carries it.
pub proof fn lemma_map_of_contains(entries: Seq<(String, String)>, k: Seq<char>)
    ensures
        map_of(entries).contains_key(k) <==> exists|i: int|
            0 <= i < entries.len() && entries[i].0@ == k,
    decreases entries.len(),
{
    if entries.len() == 0 {
    } else {
        lemma_map_of_contains(entries.drop_last(), k);
        if entries.last().0@ == k {
            assert(entries[entries.len() - 1].0@ == k);
        } else if map_of(entries).contains_key(k) {
            let i = choose|i: int| 0 <= i < entries.drop_last().len()
                && entries.drop_last()[i].0@ == k;
            assert(entries[i].0@ == k);
        } else {
            assert forall|i: int| 0 <= i < entries.len() implies entries[i].0@ != k by {
                if i < entries.len() - 1 {
                    assert(entries.drop_last()[i].0@ != k);
                }
            }
        }
    }
}

/// The value at a key is the one of the last entry that carries the key.
pub proof fn lemma_map_of_last_match(entries: Seq<(String, String)>, i: int)
    requires
        0 <= i < entries.len(),
        forall|j: int| i < j < entries.len() ==> entries[j].0@ != entries[i].0@,
    ensures
        map_of(entries).contains_key(entries[i].0@),
        map_of(entries)[entries[i].0@] == entries[i].1@,
    decreases entries.len(),
{
    if i == entries.len() - 1 {
    } else {
        assert forall|j: int| i < j < entries.drop_last().len()
            implies entries.drop_last()[j].0@ != entries.drop_last()[i].0@ by {
            assert(entries[j].0@ != entries[i].0@);
        }
        lemma_map_of_last_match(entries.drop_last(), i);
        assert(entries.last().0@ != entries[i].0@);
    }
}

/// The persisted mapping from source post id to destination post id.
pub struct SyncState {
    entries: Vec<(String, String)>,
}

impl View for SyncState {
    type V = Map<Seq<char>, Seq<char>>;

    closed spec fn view(&self) -> Map<Seq<char>, Seq<char>> {
        map_of(self.entries@)
    }
}

impl SyncState {
    pub fn new() -> (s: SyncState)
        ensures
            s@ == Map::<Seq<char>, Seq<char>>::empty(),
    {
        SyncState { entries: Vec::new() }
    }

    /// True exactly when no post id has been recorded yet.
    pub fn is_empty(&self) -> (r: bool)
        ensures
            r <==> self@.dom() =~= Set::<Seq<char>>::empty(),
    {
        proof {
            if self.entries@.len() > 0 {
                lemma_map_of_last_match(self.entries@, self.entries@.len() - 1);
            }
        }
        self.entries.len() == 0
    }

    pub fn contains_key(&self, id: &String) -> (r: bool)
        ensures
            r == self@.contains_key(id@),
    {
        match self.get(id) {
            Some(_) => true,
            None => false,
        }
    }

    /// The destination id recorded for a source post id, if any.
    pub fn get(&self, id: &String) -> (r: Option<&String>)
        ensures
            match r {
                Some(v) => self@.contains_key(id@) && v@ == self@[id@],
                None => !self@.contains_key(id@),
            },
    {
        let mut i = self.entries.len();
        while i > 0
            invariant
                i <= self.entries@.len(),
                forall|j: int| i <= j < self.entries@.len() ==> self.entries@[j].0@ != id@,
            decreases i,
        {
            i -= 1;
            if self.entries[i].0 == *id {
                proof {
                    lemma_map_of_last_match(self.entries@, i as int);
                }
                return Some(&self.entries[i].1);
            }
        }
        proof {
            lemma_map_of_contains(self.entries@, id@);
        }
        None
    }

    /// Record (or overwrite) the destination id for a source post id.
    pub fn insert(&mut self, id: String, destination_id: String)
        ensures
            final(self)@ == old(self)@.insert(id@, destination_id@),
    {
        let ghost pre = self.entries@;
        self.entries.push((id, destination_id));
        proof {
            assert(self.entries@.drop_last() =~= pre);
        }
    }

    /// The entries in insertion order, for a caller that persists the state.
    /// A later entry for the same key overrides an earlier one.
    pub fn to_pairs(&self) -> (r: &Vec<(String, String)>)
        ensures
            map_of(r@) == self@,
    {
        &self.entries
    }

    /// Restore a state from persisted entries, read left to right.
    pub fn from_pairs(pairs: Vec<(String, String)>) -> (s: SyncState)
        ensures
            s@ == map_of(pairs@),
    {
        SyncState { entries: pairs }
    }
}

/// The bootstrap state: every fetched post id mapped to the empty destination
/// id, so that the first run marks the whole history handled without
/// publishing it.
pub open spec fn spec_bootstrap(posts: Seq<crate::model::StatusView>) -> Map<Seq<char>, Seq<char>>
    decreases posts.len(),
{
    if posts.len() == 0 {
        Map::empty()
    } else {
        spec_bootstrap(posts.drop_last()).insert(posts.last().id, Seq::empty())
    }
}

/// Initialize the synchronization state from a fetched post list: every post
/// id is marked handled with an empty destination id and nothing is published.
pub fn init_sync_status_from_statuses(statuses: &Vec<Status>) -> (s: SyncState)
    ensures
        s@ == spec_bootstrap(statuses.deep_view()),
{
    let mut s = SyncState::new();
    let mut i: usize = 0;
    while i < statuses.len()
        invariant
            i <= statuses@.len(),
            s@ == spec_bootstrap(statuses.deep_view().take(i as int)),
        decreases statuses@.len() - i,
    {
        s.insert(statuses[i].id.clone(), String::new());
        proof {
            let views = statuses.deep_view();
            assert(views.take(i + 1 as int).drop_last() =~= views.take(i as int));
            assert(views.take(i + 1 as int).last() == views[i as int]);
        }
        i += 1;
    }
    proof {
        assert(statuses.deep_view().take(statuses@.len() as int) =~= statuses.deep_view());
    }
    s
}

} // verus!
