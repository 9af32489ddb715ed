//! A table from version lineages to versions, kept as a list of entries with
//! distinct keys.
use vstd::prelude::*;
use crate::types::{ConsensusObjectSequenceKey, ObjectID, SequenceNumber};

verus! {

/// A mapping from lineage to version.
#[derive(Debug)]
pub struct VersionTable {
    entries: Vec<(ConsensusObjectSequenceKey, SequenceNumber)>,
}

/// The map that a list of entries with distinct keys stands for.
pub open spec fn entries_map(s: Seq<(ConsensusObjectSequenceKey, SequenceNumber)>) -> Map<
    ConsensusObjectSequenceKey,
    SequenceNumber,
>
    decreases s.len(),
{
    if s.len() == 0 {
        Map::empty()
    } else {
        entries_map(s.drop_last()).insert(s.last().0, s.last().1)
    }
}

pub open spec fn keys_distinct(s: Seq<(ConsensusObjectSequenceKey, SequenceNumber)>) -> bool {
    forall|i: int, j: int| 0 <= i < j < s.len() ==> s[i].0 != s[j].0
}

proof fn lemma_entries_map_index(s: Seq<(ConsensusObjectSequenceKey, SequenceNumber)>, i: int)
    requires
        keys_distinct(s),
        0 <= i < s.len(),
    ensures
        entries_map(s).contains_key(s[i].0),
        entries_map(s)[s[i].0] == s[i].1,
    decreases s.len(),
{
    if i < s.len() - 1 {
        lemma_entries_map_index(s.drop_last(), i);
    }
}

proof fn lemma_entries_map_dom(
    s: Seq<(ConsensusObjectSequenceKey, SequenceNumber)>,
    k: ConsensusObjectSequenceKey,
)
    ensures
        entries_map(s).contains_key(k) <==> exists|i: int| 0 <= i < s.len() && s[i].0 == k,
    decreases s.len(),
{
    if s.len() > 0 {
        lemma_entries_map_dom(s.drop_last(), k);
        if entries_map(s.drop_last()).contains_key(k) {
            let i = choose|i: int| 0 <= i < s.drop_last().len() && s.drop_last()[i].0 == k;
            assert(s[i].0 == k);
        }
        if exists|i: int| 0 <= i < s.len() && s[i].0 == k {
            let i = choose|i: int| 0 <= i < s.len() && s[i].0 == k;
            if i < s.len() - 1 {
                assert(s.drop_last()[i].0 == k);
            }
        }
    }
}

proof fn lemma_entries_map_update(
    s: Seq<(ConsensusObjectSequenceKey, SequenceNumber)>,
    i: int,
    v: SequenceNumber,
)
    requires
        keys_distinct(s),
        0 <= i < s.len(),
    ensures
        keys_distinct(s.update(i, (s[i].0, v))),
        entries_map(s.update(i, (s[i].0, v))) == entries_map(s).insert(s[i].0, v),
    decreases s.len(),
{
    let t = s.update(i, (s[i].0, v));
    if i == s.len() - 1 {
        assert(t.drop_last() =~= s.drop_last());
        assert(entries_map(t) =~= entries_map(s).insert(s[i].0, v));
    } else {
        lemma_entries_map_update(s.drop_last(), i, v);
        assert(t.drop_last() =~= s.drop_last().update(i, (s[i].0, v)));
        assert(entries_map(t) =~= entries_map(s).insert(s[i].0, v));
    }
}

impl View for VersionTable {
    type V = Map<ConsensusObjectSequenceKey, SequenceNumber>;

    closed spec fn view(&self) -> Map<ConsensusObjectSequenceKey, SequenceNumber> {
        entries_map(self.entries@)
    }
}

impl VersionTable {
    /// No two entries share a lineage.
    pub closed spec fn wf(&self) -> bool {
        keys_distinct(self.entries@)
    }

    pub fn new() -> (r: Self)
        ensures
            r.wf(),
            r@ == Map::<ConsensusObjectSequenceKey, SequenceNumber>::empty(),
    {
        VersionTable { entries: Vec::new() }
    }

    /// Position of the entry for `key`, if there is one.
    fn find(&self, key: ConsensusObjectSequenceKey) -> (r: Option<usize>)
        requires
            self.wf(),
        ensures
            match r {
                Some(i) => i < self.entries@.len() && self.entries@[i as int].0 == key,
                None => !self@.contains_key(key),
            },
    {
        let mut i: usize = 0;
        while i < self.entries.len()
            invariant
                i <= self.entries@.len(),
                forall|j: int| 0 <= j < i ==> self.entries@[j].0 != key,
            decreases self.entries@.len() - i,
        {
            let e = self.entries[i];
            if e.0.0 == key.0 && e.0.1 == key.1 {
                return Some(i);
            }
            i = i + 1;
        }
        proof {
            lemma_entries_map_dom(self.entries@, key);
        }
        None
    }

    pub fn contains_key(&self, key: ConsensusObjectSequenceKey) -> (r: bool)
        requires
            self.wf(),
        ensures
            r == self@.contains_key(key),
    {
        match self.find(key) {
            Some(i) => {
                proof {
                    lemma_entries_map_index(self.entries@, i as int);
                }
                true
            },
            None => false,
        }
    }

    pub fn get(&self, key: ConsensusObjectSequenceKey) -> (r: Option<SequenceNumber>)
        requires
            self.wf(),
        ensures
            r == (if self@.contains_key(key) {
                Some(self@[key])
            } else {
                None::<SequenceNumber>
            }),
    {
        match self.find(key) {
            Some(i) => {
                proof {
                    lemma_entries_map_index(self.entries@, i as int);
                }
                Some(self.entries[i].1)
            },
            None => None,
        }
    }

    /// The version of lineage `(id, initial_shared_version)`, if it has one.
    pub fn get_next_object_version(&self, id: ObjectID, initial_shared_version: SequenceNumber) -> (r:
        Option<SequenceNumber>)
        requires
            self.wf(),
        ensures
            r == (if self@.contains_key((id, initial_shared_version)) {
                Some(self@[(id, initial_shared_version)])
            } else {
                None::<SequenceNumber>
            }),
    {
        self.get((id, initial_shared_version))
    }

    /// Sets the version of `key`, adding an entry where it has none.
    pub fn insert(&mut self, key: ConsensusObjectSequenceKey, v: SequenceNumber)
        requires
            old(self).wf(),
        ensures
            final(self).wf(),
            final(self)@ == old(self)@.insert(key, v),
    {
        match self.find(key) {
            Some(i) => {
                proof {
                    lemma_entries_map_update(self.entries@, i as int, v);
                }
                self.entries.set(i, (key, v));
            },
            None => {
                proof {
                    lemma_entries_map_dom(self.entries@, key);
                }
                self.entries.push((key, v));
                proof {
                    assert(self.entries@.drop_last() =~= old(self).entries@);
                }
            },
        }
    }

    /// Number of lineages in the table.
    pub fn len(&self) -> (r: usize)
        requires
            self.wf(),
        ensures
            r == self@.len(),
    {
        proof {
            lemma_entries_len(self.entries@);
        }
        self.entries.len()
    }
}

proof fn lemma_entries_len(s: Seq<(ConsensusObjectSequenceKey, SequenceNumber)>)
    requires
        keys_distinct(s),
    ensures
        entries_map(s).dom().finite(),
        entries_map(s).len() == s.len(),
    decreases s.len(),
{
    if s.len() > 0 {
        lemma_entries_len(s.drop_last());
        lemma_entries_map_dom(s.drop_last(), s.last().0);
    }
}

} // verus!
