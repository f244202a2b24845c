//! A map whose keys are texts.

use vstd::prelude::*;

use crate::text::same;

verus! {

/// A map from texts to values, kept as a list of entries in the order of their insertion.
#[derive(Debug)]
pub struct TextMap<V> {
    entries: Vec<(String, V)>,
}

/// The position of the entry with the key `k`; the number of entries if there is none.
pub open spec fn key_position<V>(s: Seq<(String, V)>, k: Seq<char>) -> int
    decreases s.len(),
{
    if s.len() == 0 {
        0
    } else if s[0].0@ == k {
        0
    } else {
        1 + key_position(s.subrange(1, s.len() as int), k)
    }
}

/// Whether `s` lists the entries of the map `m`: no key occurs twice, every entry is one of the
/// map, and no key of the map is left out.
pub open spec fn lists_entries<V>(s: Seq<(String, V)>, m: Map<Seq<char>, V>) -> bool {
    &&& forall|i: int, j: int|
        0 <= i < j < s.len() ==> (#[trigger] s[i]).0@ != (#[trigger] s[j]).0@
    &&& forall|i: int|
        0 <= i < s.len() ==> m.contains_key((#[trigger] s[i]).0@) && m[s[i].0@] == s[i].1
    &&& forall|k: Seq<char>| #[trigger]
        m.contains_key(k) ==> exists|i: int| 0 <= i < s.len() && (#[trigger] s[i]).0@ == k
}

/// A list of the entries of a map has as many entries as the map has keys.
pub proof fn entries_are_counted<V>(s: Seq<(String, V)>, m: Map<Seq<char>, V>)
    requires
        lists_entries(s, m),
    ensures
        m.dom().finite(),
        m.dom().len() == s.len(),
{
    let keys = s.map_values(|e: (String, V)| e.0@);
    assert forall|i: int, j: int| 0 <= i < keys.len() && 0 <= j < keys.len() && i != j implies keys[i]
        != keys[j] by {
        if i < j {
            assert(s[i].0@ != s[j].0@);
        } else {
            assert(s[j].0@ != s[i].0@);
        }
    }
    keys.unique_seq_to_set();
    assert forall|k: Seq<char>| keys.to_set().contains(k) == m.dom().contains(k) by {
        if keys.contains(k) {
            let i = choose|i: int| 0 <= i < keys.len() && keys[i] == k;
            assert(s[i].0@ == k);
        }
        if m.contains_key(k) {
            let i = choose|i: int| 0 <= i < s.len() && (#[trigger] s[i]).0@ == k;
            assert(keys[i] == k);
        }
    }
    assert(keys.to_set() =~= m.dom());
}

proof fn lemma_key_position<V>(s: Seq<(String, V)>, k: Seq<char>)
    ensures
        0 <= key_position(s, k) <= s.len(),
        key_position(s, k) < s.len() ==> s[key_position(s, k)].0@ == k,
        forall|j: int| 0 <= j < key_position(s, k) ==> #[trigger] s[j].0@ != k,
    decreases s.len(),
{
    if s.len() > 0 && s[0].0@ != k {
        let t = s.subrange(1, s.len() as int);
        lemma_key_position(t, k);
        assert forall|j: int| 0 <= j < key_position(s, k) implies #[trigger] s[j].0@ != k by {
            if j > 0 {
                assert(t[j - 1] == s[j]);
            }
        }
        if key_position(t, k) < t.len() {
            assert(t[key_position(t, k)] == s[key_position(s, k)]);
        }
    }
}

proof fn lemma_key_position_is<V>(s: Seq<(String, V)>, k: Seq<char>, i: int)
    requires
        0 <= i <= s.len(),
        i < s.len() ==> s[i].0@ == k,
        forall|j: int| 0 <= j < i ==> #[trigger] s[j].0@ != k,
    ensures
        key_position(s, k) == i,
{
    lemma_key_position(s, k);
    if key_position(s, k) < i {
        assert(s[key_position(s, k)].0@ != k);
    } else if i < key_position(s, k) {
        assert(s[i].0@ != k);
    }
}

impl<V> TextMap<V> {
    /// No key occurs twice.
    #[verifier::type_invariant]
    spec fn keys_are_distinct(self) -> bool {
        forall|i: int, j: int|
            0 <= i < j < self.entries@.len() ==> #[trigger] self.entries@[i].0@
                != #[trigger] self.entries@[j].0@
    }

    pub closed spec fn entry_list(self) -> Seq<(String, V)> {
        self.entries@
    }
}

impl<V> View for TextMap<V> {
    type V = Map<Seq<char>, V>;

    open spec fn view(&self) -> Map<Seq<char>, V> {
        Map::new(
            |k: Seq<char>| key_position(self.entry_list(), k) < self.entry_list().len(),
            |k: Seq<char>| self.entry_list()[key_position(self.entry_list(), k)].1,
        )
    }
}

impl<V> TextMap<V> {
    pub fn new() -> (r: Self)
        ensures
            r@ == Map::<Seq<char>, V>::empty(),
            r.entry_list() == Seq::<(String, V)>::empty(),
    {
        let r = TextMap { entries: Vec::new() };
        assert(r@ =~= Map::<Seq<char>, V>::empty());
        r
    }

    fn position(&self, k: &str) -> (r: usize)
        ensures
            r == key_position(self.entry_list(), k@),
            r <= self.entry_list().len(),
    {
        let mut i: usize = 0;
        while i < self.entries.len()
            invariant
                i <= self.entries@.len(),
                forall|j: int| 0 <= j < i ==> #[trigger] self.entries@[j].0@ != k@,
            decreases self.entries@.len() - i,
        {
            if same(self.entries[i].0.as_str(), k) {
                proof {
                    lemma_key_position_is(self.entries@, k@, i as int);
                }
                return i;
            }
            i = i + 1;
        }
        proof {
            lemma_key_position_is(self.entries@, k@, i as int);
        }
        i
    }

    /// The value of the key `k`, if it is in the map.
    pub fn get(&self, k: &str) -> (r: Option<&V>)
        ensures
            match r {
                Some(v) => self@.contains_key(k@) && *v == self@[k@],
                None => !self@.contains_key(k@),
            },
    {
        let i: usize = self.position(k);
        if i < self.entries.len() {
            Some(&self.entries[i].1)
        } else {
            None
        }
    }

    /// Whether the key `k` is in the map.
    pub fn contains_key(&self, k: &str) -> (r: bool)
        ensures
            r == self@.contains_key(k@),
    {
        self.position(k) < self.entries.len()
    }

    /// The entries in the order in which their keys were set first.
    pub fn entries(&self) -> (r: &Vec<(String, V)>)
        ensures
            r@ == self.entry_list(),
            lists_entries(r@, self@),
    {
        proof {
            use_type_invariant(self);
            let s = self.entries@;
            assert forall|i: int| 0 <= i < s.len() implies self@.contains_key((#[trigger] s[i]).0@)
                && self@[s[i].0@] == s[i].1 by {
                lemma_key_position_is(s, s[i].0@, i);
            }
            assert forall|k: Seq<char>| #[trigger] self@.contains_key(k) implies exists|i: int|
                0 <= i < s.len() && (#[trigger] s[i]).0@ == k by {
                lemma_key_position(s, k);
            }
        }
        &self.entries
    }

    /// Sets the value of the key `k`. A value that it had before is lost, and the key keeps its
    /// place among the entries; a new key comes last.
    pub fn insert(&mut self, k: String, v: V)
        ensures
            final(self)@ == old(self)@.insert(k@, v),
            final(self).entry_list() == (if old(self)@.contains_key(k@) {
                old(self).entry_list().update(key_position(old(self).entry_list(), k@), (k, v))
            } else {
                old(self).entry_list().push((k, v))
            }),
    {
        proof {
            use_type_invariant(&*self);
        }
        let i: usize = self.position(k.as_str());
        let ghost s = self.entries@;
        proof {
            lemma_key_position(s, k@);
        }
        let mut entries: Vec<(String, V)> = Vec::new();
        std::mem::swap(&mut entries, &mut self.entries);
        if i < entries.len() {
            entries.remove(i);
            entries.insert(i, (k, v));
        } else {
            entries.push((k, v));
        }
        let ghost u = entries@;
        proof {
            assert(forall|j: int| 0 <= j < s.len() && j != i ==> u[j] == s[j]);
            assert forall|a: int, b: int| 0 <= a < b < u.len() implies #[trigger] u[a].0@
                != #[trigger] u[b].0@ by {
                if a < s.len() && b < s.len() {
                    assert(s[a].0@ != s[b].0@);
                }
                if b == i && a < s.len() {
                    assert(s[a].0@ != k@);
                }
            }
        }
        self.entries = entries;
        proof {
            assert forall|x: Seq<char>|
                (key_position(u, x) < u.len()) == (x == k@ || key_position(s, x) < s.len()) && (x
                    != k@ && key_position(s, x) < s.len() ==> u[key_position(u, x)].1
                    == s[key_position(s, x)].1) by {
                lemma_key_position(s, x);
                lemma_key_position(u, x);
                if x == k@ {
                    lemma_key_position_is(u, x, i as int);
                } else {
                    let p = key_position(s, x);
                    if p < s.len() {
                        lemma_key_position_is(u, x, p);
                    } else {
                        lemma_key_position_is(u, x, u.len() as int);
                    }
                }
            }
            lemma_key_position_is(u, k@, i as int);
            assert(self@ =~= old(self)@.insert(k@, v));
            if i < s.len() {
                assert(u =~= s.update(i as int, (k, v)));
            }
        }
    }
}

} // verus!
