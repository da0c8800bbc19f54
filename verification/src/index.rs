//! The Lookup Index: a fully materialized mapping from hash text to
//! occurrence count, keys unique, later insertions overwriting earlier ones.
use vstd::prelude::*;

verus! {

/// The mapping that a key/count sequence denotes, later pairs overwriting
/// earlier ones with the same key.
pub open spec fn map_of(s: Seq<(String, u64)>) -> Map<Seq<char>, u64>
    decreases s.len(),
{
    if s.len() == 0 {
        Map::empty()
    } else {
        map_of(s.drop_last()).insert(s.last().0@, s.last().1)
    }
}

proof fn lemma_map_of_contains(s: Seq<(String, u64)>, k: Seq<char>)
    ensures
        map_of(s).contains_key(k) <==> exists|i: int| 0 <= i < s.len() && #[trigger] s[i].0@ == k,
    decreases s.len(),
{
    if s.len() > 0 {
        lemma_map_of_contains(s.drop_last(), k);
        if s.last().0@ == k {
            assert(s[s.len() - 1].0@ == k);
        } else if map_of(s).contains_key(k) {
            let i = choose|i: int| 0 <= i < s.drop_last().len() && #[trigger] s.drop_last()[i].0@
                == k;
            assert(s[i].0@ == k);
        } else {
            if exists|i: int| 0 <= i < s.len() && #[trigger] s[i].0@ == k {
                let i = choose|i: int| 0 <= i < s.len() && #[trigger] s[i].0@ == k;
                assert(s.drop_last()[i].0@ == k);
            }
        }
    }
}

proof fn lemma_map_of_get(s: Seq<(String, u64)>, i: int)
    requires
        0 <= i < s.len(),
        forall|j: int| i < j < s.len() ==> #[trigger] s[j].0@ != s[i].0@,
    ensures
        map_of(s).contains_key(s[i].0@),
        map_of(s)[s[i].0@] == s[i].1,
    decreases s.len(),
{
    if i < s.len() - 1 {
        assert forall|j: int| i < j < s.drop_last().len() implies #[trigger] s.drop_last()[j].0@
            != s.drop_last()[i].0@ by {
            assert(s.drop_last()[j] == s[j]);
        }
        lemma_map_of_get(s.drop_last(), i);
        assert(s.last().0@ != s[i].0@);
    }
}

proof fn lemma_map_of_remove(s: Seq<(String, u64)>, j: int)
    requires
        0 <= j < s.len(),
        forall|l: int| 0 <= l < s.len() && l != j ==> #[trigger] s[l].0@ != s[j].0@,
    ensures
        map_of(s.remove(j)) =~= map_of(s).remove(s[j].0@),
    decreases s.len(),
{
    let k = s[j].0@;
    if j == s.len() - 1 {
        assert(s.remove(j) =~= s.drop_last());
        lemma_map_of_contains(s.drop_last(), k);
        if map_of(s.drop_last()).contains_key(k) {
            let i = choose|i: int| 0 <= i < s.drop_last().len() && #[trigger] s.drop_last()[i].0@
                == k;
            assert(s[i].0@ == k);
        }
    } else {
        assert(s.remove(j).drop_last() =~= s.drop_last().remove(j));
        assert forall|l: int| 0 <= l < s.drop_last().len() && l != j implies #[trigger] s.drop_last()[l].0@
            != s.drop_last()[j].0@ by {
            assert(s.drop_last()[l] == s[l]);
        }
        lemma_map_of_remove(s.drop_last(), j);
        assert(s.remove(j).last() == s.last());
        assert(s.last().0@ != k);
    }
}

/// The mapping that a sequence of entries builds: each hash text to the
/// occurrence count of the last entry bearing it.
pub open spec fn index_of_entries(es: Seq<crate::PasswordHashEntry>) -> Map<Seq<char>, u64>
    decreases es.len(),
{
    if es.len() == 0 {
        Map::empty()
    } else {
        index_of_entries(es.drop_last()).insert(es.last().hash@, es.last().occurrences)
    }
}

/// Law: the index built from a sequence of entries holds exactly the hashes
/// that occur among them.
pub proof fn lemma_index_holds_exactly_seen_hashes(es: Seq<crate::PasswordHashEntry>, k: Seq<char>)
    ensures
        index_of_entries(es).contains_key(k) <==> exists|i: int|
            0 <= i < es.len() && (#[trigger] es[i].hash@) == k,
    decreases es.len(),
{
    if es.len() > 0 {
        lemma_index_holds_exactly_seen_hashes(es.drop_last(), k);
        if es.last().hash@ == k {
            assert(es[es.len() - 1].hash@ == k);
        } else if index_of_entries(es).contains_key(k) {
            let i = choose|i: int| 0 <= i < es.drop_last().len() && (#[trigger] es.drop_last()[i].hash@)
                == k;
            assert(es[i].hash@ == k);
        } else {
            if exists|i: int| 0 <= i < es.len() && (#[trigger] es[i].hash@) == k {
                let i = choose|i: int| 0 <= i < es.len() && (#[trigger] es[i].hash@) == k;
                assert(es.drop_last()[i].hash@ == k);
            }
        }
    }
}

/// Law: among entries sharing a hash, the last one seen decides the count
/// the built index stores for it.
pub proof fn lemma_last_duplicate_wins(es: Seq<crate::PasswordHashEntry>, i: int)
    requires
        0 <= i < es.len(),
        forall|j: int| i < j < es.len() ==> (#[trigger] es[j].hash@) != es[i].hash@,
    ensures
        index_of_entries(es).contains_key(es[i].hash@),
        index_of_entries(es)[es[i].hash@] == es[i].occurrences,
    decreases es.len(),
{
    if i < es.len() - 1 {
        assert forall|j: int| i < j < es.drop_last().len() implies (#[trigger] es.drop_last()[j].hash@)
            != es.drop_last()[i].hash@ by {
            assert(es.drop_last()[j] == es[j]);
        }
        lemma_last_duplicate_wins(es.drop_last(), i);
        assert(es.last().hash@ != es[i].hash@);
    }
}

/// A mapping from hash text to occurrence count, keys unique, a query for an
/// absent key answered with zero.
pub struct HashCountIndex {
    entries: Vec<(String, u64)>,
}

impl View for HashCountIndex {
    type V = Map<Seq<char>, u64>;

    closed spec fn view(&self) -> Map<Seq<char>, u64> {
        map_of(self.entries@)
    }
}

impl HashCountIndex {
    /// Whether the stored keys are pairwise distinct.
    pub closed spec fn wf(&self) -> bool {
        forall|i: int, j: int|
            0 <= i < j < self.entries@.len() ==> (#[trigger] self.entries@[i].0@)
                != (#[trigger] self.entries@[j].0@)
    }

    /// An empty index.
    pub fn new() -> (r: HashCountIndex)
        ensures
            r.wf(),
            r@ == Map::<Seq<char>, u64>::empty(),
    {
        HashCountIndex { entries: Vec::new() }
    }

    /// Stores `count` under `hash`, overwriting any earlier count for it.
    pub fn insert(&mut self, hash: String, count: u64)
        requires
            old(self).wf(),
        ensures
            final(self).wf(),
            final(self)@ == old(self)@.insert(hash@, count),
    {
        let mut j: usize = 0;
        let n = self.entries.len();
        while j < n
            invariant
                j <= n,
                self.entries@ == old(self).entries@,
                old(self).wf(),
                n == self.entries@.len(),
                forall|l: int| 0 <= l < j ==> (#[trigger] self.entries@[l].0@) != hash@,
            decreases n - j,
        {
            if self.entries[j].0 == hash {
                let ghost s = self.entries@;
                proof {
                    assert(self.wf());
                    assert forall|l: int| 0 <= l < s.len() && l != j implies (#[trigger] s[l].0@)
                        != s[j as int].0@ by {
                        if l < j {
                            assert(s[l].0@ != hash@);
                        }
                    }
                    lemma_map_of_remove(s, j as int);
                }
                self.entries.remove(j);
                self.entries.push((hash, count));
                proof {
                    assert(self.entries@.drop_last() =~= s.remove(j as int));
                    assert(self@ =~= old(self)@.insert(s[j as int].0@, count));
                    assert forall|a: int, b: int|
                        0 <= a < b < self.entries@.len() implies (#[trigger] self.entries@[a].0@)
                        != (#[trigger] self.entries@[b].0@) by {
                        if b < self.entries@.len() - 1 {
                            assert(self.entries@[a] == s.remove(j as int)[a]);
                            assert(self.entries@[b] == s.remove(j as int)[b]);
                        } else {
                            assert(self.entries@[a] == s.remove(j as int)[a]);
                        }
                    }
                }
                return ;
            }
            j = j + 1;
        }
        let ghost s = self.entries@;
        self.entries.push((hash, count));
        proof {
            assert(self.entries@.drop_last() =~= s);
            assert forall|a: int, b: int|
                0 <= a < b < self.entries@.len() implies (#[trigger] self.entries@[a].0@)
                != (#[trigger] self.entries@[b].0@) by {
                assert(self.entries@[a] == s[a]);
                if b < self.entries@.len() - 1 {
                    assert(self.entries@[b] == s[b]);
                }
            }
        }
    }

    /// The count stored under `hash`, zero when the key is absent.
    pub fn get_count(&self, hash: &String) -> (r: u64)
        requires
            self.wf(),
        ensures
            r == if self@.contains_key(hash@) {
                self@[hash@]
            } else {
                0u64
            },
    {
        let mut j: usize = 0;
        let n = self.entries.len();
        while j < n
            invariant
                j <= n,
                n == self.entries@.len(),
                self.wf(),
                forall|l: int| 0 <= l < j ==> (#[trigger] self.entries@[l].0@) != hash@,
            decreases n - j,
        {
            if self.entries[j].0 == *hash {
                proof {
                    lemma_map_of_get(self.entries@, j as int);
                }
                return self.entries[j].1;
            }
            j = j + 1;
        }
        proof {
            lemma_map_of_contains(self.entries@, hash@);
        }
        0
    }
}

} // verus!
