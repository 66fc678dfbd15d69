//! A small table of values indexed by 32-bit keys.
//!
//! Both the fd-indexed channel table and the pid-indexed process registry are
//! instances of this shape.  The table is modelled as a `Map` from keys to the
//! views of the stored values.

use vstd::prelude::*;

verus! {

/// The mathematical contents of an entry list.  A later entry shadows an
/// earlier one with the same key, so pushing implements map insertion.
pub open spec fn entries_map<V: View>(s: Seq<(u32, V)>) -> Map<u32, V::V>
    decreases s.len(),
{
    if s.len() == 0 {
        Map::empty()
    } else {
        entries_map(s.drop_last()).insert(s.last().0, s.last().1@)
    }
}

spec fn distinct_keys<V>(s: Seq<(u32, V)>) -> bool {
    forall|i: int, j: int| 0 <= i < j < s.len() ==> s[i].0 != s[j].0
}

proof fn lemma_contains<V: View>(s: Seq<(u32, V)>, k: u32)
    ensures
        entries_map(s).contains_key(k) <==> exists|i: int| 0 <= i < s.len() && s[i].0 == k,
    decreases s.len(),
{
    if s.len() > 0 {
        lemma_contains(s.drop_last(), k);
        if s.last().0 == k {
            assert(s[s.len() - 1].0 == k);
        } else if entries_map(s).contains_key(k) {
            let i = choose|i: int| 0 <= i < s.drop_last().len() && s.drop_last()[i].0 == k;
            assert(s[i].0 == k);
        } else if exists|i: int| 0 <= i < s.len() && s[i].0 == k {
            let i = choose|i: int| 0 <= i < s.len() && s[i].0 == k;
            assert(s.drop_last()[i].0 == k);
        }
    }
}

proof fn lemma_index<V: View>(s: Seq<(u32, V)>, k: u32, i: int)
    requires
        distinct_keys(s),
        0 <= i < s.len(),
        s[i].0 == k,
    ensures
        entries_map(s).contains_key(k),
        entries_map(s)[k] == s[i].1@,
    decreases s.len(),
{
    if i < s.len() - 1 {
        assert(distinct_keys(s.drop_last()));
        lemma_index(s.drop_last(), k, i);
        assert(s.last().0 != k);
    }
}

proof fn lemma_remove<V: View>(s: Seq<(u32, V)>, k: u32, i: int)
    requires
        distinct_keys(s),
        0 <= i < s.len(),
        s[i].0 == k,
    ensures
        entries_map(s.remove(i)) == entries_map(s).remove(k),
        distinct_keys(s.remove(i)),
    decreases s.len(),
{
    assert(distinct_keys(s.remove(i)));
    if i == s.len() - 1 {
        assert(s.remove(i) =~= s.drop_last());
        assert(distinct_keys(s.drop_last()));
        lemma_contains(s.drop_last(), k);
        assert(!entries_map(s.drop_last()).contains_key(k));
        assert(entries_map(s.drop_last()).insert(k, s.last().1@).remove(k) =~= entries_map(
            s.drop_last(),
        ));
    } else {
        assert(distinct_keys(s.drop_last()));
        lemma_remove(s.drop_last(), k, i);
        assert(s.remove(i).drop_last() =~= s.drop_last().remove(i));
        assert(s.remove(i).last() == s.last());
        assert(s.last().0 != k);
        assert(entries_map(s.drop_last()).remove(k).insert(s.last().0, s.last().1@)
            =~= entries_map(s.drop_last()).insert(s.last().0, s.last().1@).remove(k));
    }
}

/// A collection of values indexed by small integer keys.
pub struct Table<V> {
    entries: Vec<(u32, V)>,
}

impl<V> Table<V> {
    #[verifier::type_invariant]
    spec fn inv(self) -> bool {
        distinct_keys(self.entries@)
    }
}

impl<V: View> View for Table<V> {
    type V = Map<u32, V::V>;

    closed spec fn view(&self) -> Map<u32, V::V> {
        entries_map(self.entries@)
    }
}

impl<V: View> Table<V> {
    /// An empty table.
    pub fn new() -> (r: Self)
        ensures
            r@ == Map::<u32, V::V>::empty(),
    {
        Table { entries: Vec::new() }
    }

    /// Whether the table holds a binding for `key`.
    pub fn contains(&self, key: u32) -> (r: bool)
        ensures
            r == self@.contains_key(key),
    {
        proof {
            use_type_invariant(self);
        }
        let n = self.entries.len();
        let mut i: usize = 0;
        while i < n
            invariant
                n == self.entries@.len(),
                0 <= i <= n,
                distinct_keys(self.entries@),
                forall|j: int| 0 <= j < i ==> self.entries@[j].0 != key,
            decreases n - i,
        {
            if self.entries[i].0 == key {
                proof {
                    lemma_index(self.entries@, key, i as int);
                }
                return true;
            }
            i += 1;
        }
        proof {
            lemma_contains(self.entries@, key);
        }
        false
    }

    /// Adds a binding for a key that is not yet bound.
    pub fn insert(&mut self, key: u32, value: V)
        requires
            !old(self)@.contains_key(key),
        ensures
            final(self)@ == old(self)@.insert(key, value@),
    {
        proof {
            use_type_invariant(&*self);
        }
        let mut entries: Vec<(u32, V)> = Vec::new();
        std::mem::swap(&mut entries, &mut self.entries);
        proof {
            lemma_contains(entries@, key);
        }
        entries.push((key, value));
        proof {
            assert(entries@.drop_last() =~= old(self).entries@);
            assert(distinct_keys(entries@));
        }
        self.entries = entries;
    }

    /// Removes and returns the value bound to `key`, if any.
    pub fn take(&mut self, key: u32) -> (r: Option<V>)
        ensures
            final(self)@ == old(self)@.remove(key),
            r matches Some(v) ==> old(self)@.contains_key(key) && v@ == old(self)@[key],
            r is None <==> !old(self)@.contains_key(key),
    {
        proof {
            use_type_invariant(&*self);
        }
        let mut entries: Vec<(u32, V)> = Vec::new();
        std::mem::swap(&mut entries, &mut self.entries);
        let ghost orig = entries@;
        let n = entries.len();
        let mut i: usize = 0;
        while i < n
            invariant
                n == orig.len(),
                0 <= i <= n,
                entries@ == orig,
                orig == old(self).entries@,
                distinct_keys(orig),
                forall|j: int| 0 <= j < i ==> orig[j].0 != key,
            decreases n - i,
        {
            if entries[i].0 == key {
                let (_found_key, value) = entries.remove(i);
                proof {
                    lemma_index(orig, key, i as int);
                    lemma_remove(orig, key, i as int);
                }
                self.entries = entries;
                return Some(value);
            }
            i += 1;
        }
        proof {
            lemma_contains(orig, key);
            assert(entries_map(orig).remove(key) =~= entries_map(orig));
        }
        self.entries = entries;
        None
    }

    /// The keys currently bound, in unspecified order, without duplicates.
    pub fn keys(&self) -> (r: Vec<u32>)
        ensures
            forall|k: u32| r@.contains(k) <==> self@.contains_key(k),
            forall|i: int, j: int| 0 <= i < j < r@.len() ==> r@[i] != r@[j],
    {
        proof {
            use_type_invariant(self);
        }
        let n = self.entries.len();
        let mut r: Vec<u32> = Vec::new();
        let mut i: usize = 0;
        while i < n
            invariant
                n == self.entries@.len(),
                0 <= i <= n,
                r@.len() == i,
                forall|j: int| 0 <= j < i ==> r@[j] == self.entries@[j].0,
            decreases n - i,
        {
            r.push(self.entries[i].0);
            i += 1;
        }
        proof {
            assert forall|k: u32| r@.contains(k) <==> self@.contains_key(k) by {
                lemma_contains(self.entries@, k);
                if r@.contains(k) {
                    let j = choose|j: int| 0 <= j < r@.len() && r@[j] == k;
                    assert(self.entries@[j].0 == k);
                } else if self@.contains_key(k) {
                    let j = choose|j: int| 0 <= j < self.entries@.len() && self.entries@[j].0 == k;
                    assert(r@[j] == k);
                }
            }
        }
        r
    }
}

} // verus!
