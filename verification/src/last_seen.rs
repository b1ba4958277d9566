//! When each credential was last seen, as far as the registry file holds it.

use crate::text::same_text;
use vstd::prelude::*;

verus! {

/// The last-seen of credentials, by their ids.
#[derive(Debug)]
pub struct LastSeenIndex {
    entries: Vec<(String, u64)>,
}

spec fn index_map(entries: Seq<(String, u64)>) -> Map<Seq<char>, u64>
    decreases entries.len(),
{
    if entries.len() == 0 {
        Map::empty()
    } else {
        index_map(entries.drop_last()).insert(entries.last().0@, entries.last().1)
    }
}

spec fn without(entries: Seq<(String, u64)>, id: Seq<char>) -> Seq<(String, u64)>
    decreases entries.len(),
{
    if entries.len() == 0 {
        Seq::empty()
    } else if entries.last().0@ == id {
        without(entries.drop_last(), id)
    } else {
        without(entries.drop_last(), id).push(entries.last())
    }
}

proof fn lemma_without(entries: Seq<(String, u64)>, id: Seq<char>)
    ensures
        index_map(without(entries, id)) == index_map(entries).remove(id),
        without(entries, id).len() <= entries.len(),
    decreases entries.len(),
{
    if entries.len() > 0 {
        lemma_without(entries.drop_last(), id);
        let front = without(entries.drop_last(), id);
        assert(front.push(entries.last()).drop_last() =~= front);
    }
    assert(index_map(without(entries, id)) =~= index_map(entries).remove(id));
}

/// What an index holds of an id.
pub open spec fn seen_in(index: Map<Seq<char>, u64>, id: Seq<char>) -> Option<u64> {
    if index.dom().contains(id) {
        Some(index[id])
    } else {
        None
    }
}

impl View for LastSeenIndex {
    type V = Map<Seq<char>, u64>;

    closed spec fn view(&self) -> Map<Seq<char>, u64> {
        index_map(self.entries@)
    }
}

impl LastSeenIndex {
    pub fn new() -> (index: LastSeenIndex)
        ensures
            index@ == Map::<Seq<char>, u64>::empty(),
    {
        LastSeenIndex { entries: Vec::new() }
    }

    /// When a credential was last seen, where that is known.
    pub fn get(&self, id: &str) -> (seen: Option<u64>)
        ensures
            seen == seen_in(self@, id@),
    {
        let ghost all = self.entries@;
        let mut i: usize = self.entries.len();
        assert(all.take(i as int) =~= all);
        while i > 0
            invariant
                i <= all.len(),
                all == self.entries@,
                seen_in(index_map(all.take(i as int)), id@) == seen_in(self@, id@),
            decreases i,
        {
            assert(all.take(i as int).drop_last() =~= all.take(i - 1));
            assert(all.take(i as int).last() == all[i - 1]);
            if same_text(&self.entries[i - 1].0, id) {
                return Some(self.entries[i - 1].1);
            }
            i -= 1;
        }
        None
    }

    /// Forget a credential.
    pub fn remove(&mut self, id: &str)
        ensures
            final(self)@ == old(self)@.remove(id@),
    {
        let ghost before = self.entries@;
        let mut done: Ghost<int> = Ghost(0);
        let mut at: usize = 0;
        proof {
            assert(before.take(0) =~= Seq::<(String, u64)>::empty());
            assert(self.entries@ =~= without(before.take(0), id@) + before.skip(0));
        }
        while at < self.entries.len()
            invariant
                0 <= done@ <= before.len(),
                at == without(before.take(done@), id@).len(),
                self.entries@ == without(before.take(done@), id@) + before.skip(done@),
            decreases before.len() - done@,
        {
            let ghost k = done@;
            let ghost kept = without(before.take(k), id@);
            proof {
                assert(self.entries@[at as int] == before[k]);
                assert(before.take(k + 1).drop_last() =~= before.take(k));
                assert(before.take(k + 1).last() == before[k]);
            }
            if same_text(&self.entries[at].0, id) {
                self.entries.remove(at);
                assert(self.entries@ =~= kept + before.skip(k + 1));
            } else {
                at += 1;
                assert(self.entries@ =~= kept.push(before[k]) + before.skip(k + 1));
            }
            proof {
                done@ = k + 1;
            }
        }
        proof {
            assert(before.take(done@) =~= before);
            assert(self.entries@ =~= without(before, id@));
            lemma_without(before, id@);
        }
    }

    /// Record when a credential was last seen.
    pub fn insert(&mut self, id: &str, seen: u64)
        ensures
            final(self)@ == old(self)@.insert(id@, seen),
    {
        let ghost before = self@;
        self.remove(id);
        let ghost left = self.entries@;
        let entry = (id.to_owned(), seen);
        self.entries.push(entry);
        proof {
            assert(self.entries@.drop_last() =~= left);
            assert(self@ =~= before.insert(id@, seen));
        }
    }
}

} // verus!
