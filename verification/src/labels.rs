//! The labels carried by the object under evaluation: a string-to-string
//! mapping with unique keys. An object with no labels is treated by the
//! evaluator as carrying the empty mapping.

use vstd::prelude::*;

verus! {

/// The mapping denoted by a sequence of key/value entries. A later entry for
/// the same key would win, but a well-formed `LabelSet` never holds two
/// entries with the same key.
pub open spec fn entries_map(entries: Seq<(String, String)>) -> Map<Seq<char>, Seq<char>>
    decreases entries.len(),
{
    if entries.len() == 0 {
        Map::empty()
    } else {
        entries_map(entries.drop_last()).insert(entries.last().0@, entries.last().1@)
    }
}

/// The label mapping of a candidate object. Keys are unique and insertion
/// order carries no meaning: the set is viewed as a `Map` from key to value.
pub struct LabelSet {
    entries: Vec<(String, String)>,
}

impl View for LabelSet {
    type V = Map<Seq<char>, Seq<char>>;

    closed spec fn view(&self) -> Map<Seq<char>, Seq<char>> {
        entries_map(self.entries@)
    }
}

/// A key is in the denoted mapping exactly when some entry carries it.
proof fn lemma_entries_map_contains(entries: Seq<(String, String)>, k: Seq<char>)
    ensures
        entries_map(entries).dom().contains(k) <==> exists|i: int|
            0 <= i < entries.len() && (#[trigger] entries[i]).0@ == k,
    decreases entries.len(),
{
    if entries.len() > 0 {
        let prefix = entries.drop_last();
        lemma_entries_map_contains(prefix, k);
        if entries.last().0@ == k {
            assert(entries[entries.len() - 1].0@ == k);
        } else {
            if entries_map(entries).dom().contains(k) {
                let i = choose|i: int| 0 <= i < prefix.len() && (#[trigger] prefix[i]).0@ == k;
                assert(entries[i].0@ == k);
            }
            if exists|i: int| 0 <= i < entries.len() && (#[trigger] entries[i]).0@ == k {
                let i = choose|i: int| 0 <= i < entries.len() && (#[trigger] entries[i]).0@ == k;
                assert(prefix[i].0@ == k);
            }
        }
    }
}

/// An entry whose key recurs in no later entry gives the key's value in the
/// denoted mapping.
proof fn lemma_entries_map_index(entries: Seq<(String, String)>, idx: int)
    requires
        0 <= idx < entries.len(),
        forall|j: int| idx < j < entries.len() ==> (#[trigger] entries[j]).0@ != entries[idx].0@,
    ensures
        entries_map(entries).dom().contains(entries[idx].0@),
        entries_map(entries)[entries[idx].0@] == entries[idx].1@,
    decreases entries.len(),
{
    if idx < entries.len() - 1 {
        let prefix = entries.drop_last();
        lemma_entries_map_index(prefix, idx);
        assert(entries.last().0@ != entries[idx].0@);
    }
}

/// Removing an entry of a duplicate-free sequence removes its key from the
/// denoted mapping.
proof fn lemma_entries_map_remove(entries: Seq<(String, String)>, idx: int)
    requires
        0 <= idx < entries.len(),
        forall|i: int, j: int|
            0 <= i < j < entries.len() ==> (#[trigger] entries[i]).0@ != (
            #[trigger] entries[j]).0@,
    ensures
        entries_map(entries.remove(idx)) == entries_map(entries).remove(entries[idx].0@),
    decreases entries.len(),
{
    let k = entries[idx].0@;
    if idx == entries.len() - 1 {
        assert(entries.remove(idx) =~= entries.drop_last());
        lemma_entries_map_contains(entries.drop_last(), k);
        assert(forall|i: int|
            0 <= i < entries.drop_last().len() ==> (#[trigger] entries.drop_last()[i]).0@ != k);
        assert(entries_map(entries.remove(idx)) =~= entries_map(entries).remove(k));
    } else {
        let prefix = entries.drop_last();
        lemma_entries_map_remove(prefix, idx);
        assert(entries.remove(idx).drop_last() =~= prefix.remove(idx));
        assert(entries.remove(idx).last() == entries.last());
        assert(entries.last().0@ != k);
        assert(entries_map(entries.remove(idx)) =~= entries_map(entries).remove(k));
    }
}

impl LabelSet {
    /// Well-formedness: no two entries carry the same key.
    pub closed spec fn wf(&self) -> bool {
        forall|i: int, j: int|
            0 <= i < j < self.entries@.len() ==> (#[trigger] self.entries@[i]).0@ != (
            #[trigger] self.entries@[j]).0@
    }

    /// The empty label mapping.
    pub fn new() -> (s: LabelSet)
        ensures
            s.wf(),
            s@ == Map::<Seq<char>, Seq<char>>::empty(),
    {
        let s = LabelSet { entries: Vec::new() };
        proof {
            assert(s@ =~= Map::<Seq<char>, Seq<char>>::empty());
        }
        s
    }

    /// Binds `key` to `value`, replacing any value the key was bound to.
    pub fn insert(&mut self, key: String, value: String)
        requires
            old(self).wf(),
        ensures
            final(self).wf(),
            final(self)@ == old(self)@.insert(key@, value@),
    {
        let ghost e0 = self.entries@;
        let mut i: usize = 0;
        let n = self.entries.len();
        while i < n
            invariant
                i <= n,
                self.entries@ == e0,
                e0 == old(self).entries@,
                old(self).wf(),
                n == e0.len(),
                forall|k: int| 0 <= k < i ==> (#[trigger] e0[k]).0@ != key@,
            decreases n - i,
        {
            if self.entries[i].0.eq(&key) {
                proof {
                    assert(old(self).wf());
                    lemma_entries_map_remove(e0, i as int);
                }
                let _ = self.entries.remove(i);
                let ghost e1 = self.entries@;
                proof {
                    assert forall|a: int| 0 <= a < e1.len() implies (#[trigger] e1[a]).0@
                        != key@ by {
                        if a < i {
                            assert(e1[a] == e0[a]);
                        } else {
                            assert(e1[a] == e0[a + 1]);
                        }
                    }
                    assert forall|a: int, b: int| 0 <= a < b < e1.len() implies (
                    #[trigger] e1[a]).0@ != (#[trigger] e1[b]).0@ by {
                        if b < i {
                            assert(e1[a] == e0[a] && e1[b] == e0[b]);
                        } else if a < i {
                            assert(e1[a] == e0[a] && e1[b] == e0[b + 1]);
                        } else {
                            assert(e1[a] == e0[a + 1] && e1[b] == e0[b + 1]);
                        }
                    }
                }
                self.entries.push((key, value));
                proof {
                    let e2 = self.entries@;
                    assert(e2.drop_last() =~= e1);
                    assert(e2.last().0@ == key@ && e2.last().1@ == value@);
                    assert forall|a: int, b: int| 0 <= a < b < e2.len() implies (
                    #[trigger] e2[a]).0@ != (#[trigger] e2[b]).0@ by {
                        if b == e2.len() - 1 {
                            assert(e2[a] == e1[a]);
                        } else {
                            assert(e2[a] == e1[a] && e2[b] == e1[b]);
                        }
                    }
                    assert(self@ =~= old(self)@.insert(key@, value@));
                }
                return ;
            }
            i += 1;
        }
        self.entries.push((key, value));
        proof {
            let e2 = self.entries@;
            assert(e2.drop_last() =~= e0);
            assert forall|a: int, b: int| 0 <= a < b < e2.len() implies (#[trigger] e2[a]).0@ != (
            #[trigger] e2[b]).0@ by {
                if b == e2.len() - 1 {
                    assert(e2[a] == e0[a]);
                } else {
                    assert(e2[a] == e0[a] && e2[b] == e0[b]);
                }
            }
            assert(self@ =~= old(self)@.insert(key@, value@));
        }
    }

    /// Looks the key up: the bound value, or `None` when the key is absent.
    pub fn get<'a>(&'a self, key: &String) -> (r: Option<&'a String>)
        requires
            self.wf(),
        ensures
            match r {
                Some(v) => self@.dom().contains(key@) && v@ == self@[key@],
                None => !self@.dom().contains(key@),
            },
    {
        let mut i: usize = 0;
        let n = self.entries.len();
        while i < n
            invariant
                i <= n,
                n == self.entries@.len(),
                self.wf(),
                forall|k: int| 0 <= k < i ==> (#[trigger] self.entries@[k]).0@ != key@,
            decreases n - i,
        {
            if self.entries[i].0.eq(key) {
                proof {
                    lemma_entries_map_index(self.entries@, i as int);
                }
                return Some(&self.entries[i].1);
            }
            i += 1;
        }
        proof {
            lemma_entries_map_contains(self.entries@, key@);
        }
        None
    }
}

} // verus!
