//! An ordered table with text keys: what a sorted map keeps, as a vector whose
//! keys stand in strict dictionary order.

use vstd::prelude::*;

use crate::text::{comes_before, same};

verus! {

broadcast use vstd::seq::group_seq_axioms;

/// A table from texts to values, walked in dictionary order of the texts.
pub struct Table<V> {
    entries: Vec<(String, V)>,
}

/// The keys, each strictly before the next.
pub open spec fn strictly_ascending(keys: Seq<Seq<char>>) -> bool {
    forall|i: int, j: int|
        0 <= i < j < keys.len() ==> crate::text::less(#[trigger] keys[i], #[trigger] keys[j])
}

/// The map that a list of entries with different keys stands for.
pub open spec fn table_map<V>(entries: Seq<(String, V)>) -> Map<Seq<char>, V>
    decreases entries.len(),
{
    if entries.len() == 0 {
        Map::empty()
    } else {
        table_map(entries.drop_last()).insert(entries.last().0@, entries.last().1)
    }
}

spec fn keys_of<V>(entries: Seq<(String, V)>) -> Seq<Seq<char>> {
    entries.map_values(|e: (String, V)| e.0@)
}

proof fn lemma_ordered<V>(entries: Seq<(String, V)>, i: int, j: int)
    requires
        strictly_ascending(keys_of(entries)),
        0 <= i < j < entries.len(),
    ensures
        crate::text::less(entries[i].0@, entries[j].0@),
        entries[i].0@ != entries[j].0@,
{
    let keys = keys_of(entries);
    assert(keys[i] == entries[i].0@);
    assert(keys[j] == entries[j].0@);
    assert(crate::text::less(keys[i], keys[j]));
    crate::text::dictionary_order_is_total(keys[i], keys[j], keys[i]);
}

proof fn lemma_at<V>(entries: Seq<(String, V)>, i: int)
    requires
        strictly_ascending(keys_of(entries)),
        0 <= i < entries.len(),
    ensures
        table_map(entries).contains_key(entries[i].0@),
        table_map(entries)[entries[i].0@] == entries[i].1,
    decreases entries.len(),
{
    let init = entries.drop_last();
    assert(keys_of(init) =~= keys_of(entries).drop_last());
    if i < init.len() {
        lemma_at(init, i);
        lemma_ordered(entries, i, entries.len() - 1);
    }
}

proof fn lemma_absent<V>(entries: Seq<(String, V)>, key: Seq<char>)
    requires
        forall|i: int| 0 <= i < entries.len() ==> (#[trigger] entries[i]).0@ != key,
    ensures
        !table_map(entries).contains_key(key),
    decreases entries.len(),
{
    if entries.len() > 0 {
        let init = entries.drop_last();
        assert forall|i: int| 0 <= i < init.len() implies (#[trigger] init[i]).0@ != key by {
            assert(init[i] == entries[i]);
        }
        assert(entries[entries.len() - 1].0@ != key);
        lemma_absent(init, key);
    }
}

proof fn lemma_present<V>(entries: Seq<(String, V)>, key: Seq<char>) -> (i: int)
    requires
        table_map(entries).contains_key(key),
    ensures
        0 <= i < entries.len(),
        entries[i].0@ == key,
    decreases entries.len(),
{
    if entries.last().0@ == key {
        entries.len() - 1
    } else {
        lemma_present(entries.drop_last(), key)
    }
}

proof fn lemma_same_map<V>(a: Seq<(String, V)>, b: Map<Seq<char>, V>)
    requires
        strictly_ascending(keys_of(a)),
        forall|i: int| #![trigger a[i]]
            0 <= i < a.len() ==> b.contains_key(a[i].0@) && b[a[i].0@] == a[i].1,
        forall|k: Seq<char>| #[trigger] b.contains_key(k) ==> exists|i: int|
            0 <= i < a.len() && (#[trigger] a[i]).0@ == k,
    ensures
        table_map(a) == b,
{
    assert forall|k: Seq<char>| table_map(a).contains_key(k) <==> #[trigger] b.contains_key(k) by {
        if b.contains_key(k) {
            let i = choose|i: int| 0 <= i < a.len() && (#[trigger] a[i]).0@ == k;
            lemma_at(a, i);
        }
        if table_map(a).contains_key(k) {
            let i = lemma_present(a, k);
            assert(a[i].0@ == k);
        }
    }
    assert forall|k: Seq<char>| #[trigger] b.contains_key(k) implies table_map(a)[k] == b[k] by {
        let i = choose|i: int| 0 <= i < a.len() && (#[trigger] a[i]).0@ == k;
        lemma_at(a, i);
    }
    assert(table_map(a) =~= b);
}

proof fn lemma_finite<V>(entries: Seq<(String, V)>)
    ensures
        table_map(entries).dom().finite(),
    decreases entries.len(),
{
    if entries.len() > 0 {
        lemma_finite(entries.drop_last());
    }
}

impl<V> View for Table<V> {
    type V = Map<Seq<char>, V>;

    closed spec fn view(&self) -> Map<Seq<char>, V> {
        table_map(self.entries@)
    }
}

impl<V> Table<V> {
    /// The keys in order.
    pub closed spec fn keys(&self) -> Seq<Seq<char>> {
        keys_of(self.entries@)
    }

    #[verifier::type_invariant]
    spec fn wf(&self) -> bool {
        strictly_ascending(keys_of(self.entries@))
    }

    pub fn new() -> (r: Self)
        ensures
            r@ == Map::<Seq<char>, V>::empty(),
            r.keys().len() == 0,
    {
        Table { entries: Vec::new() }
    }

    /// The number of keys.
    pub fn len(&self) -> (r: usize)
        ensures
            r == self.keys().len(),
    {
        self.entries.len()
    }

    /// What the keys in order say about the map: they are its whole domain, and
    /// none occurs twice.
    pub proof fn keys_are_the_domain(&self)
        ensures
            strictly_ascending(self.keys()) ==> forall|k: Seq<char>| #[trigger]
                self@.contains_key(k) <==> self.keys().contains(k),
            self@.dom().finite(),
    {
        lemma_finite(self.entries@);
        let keys = self.keys();
        if strictly_ascending(keys) {
            assert forall|k: Seq<char>| #[trigger] self@.contains_key(k) <==> keys.contains(k) by {
                if self@.contains_key(k) {
                    let i = lemma_present(self.entries@, k);
                    assert(keys[i] == k);
                }
                if keys.contains(k) {
                    let i = keys.index_of(k);
                    assert(keys[i] == self.entries@[i].0@);
                    lemma_at(self.entries@, i);
                }
            }
        }
    }

    /// The keys in order, as a list of their own.
    pub fn key_list(&self) -> (r: Vec<String>)
        ensures
            crate::text::strings(r@) == self.keys(),
            strictly_ascending(self.keys()),
            self.keys().no_duplicates(),
            forall|k: Seq<char>| #[trigger] self@.contains_key(k) <==> self.keys().contains(k),
    {
        proof {
            use_type_invariant(self);
            self.keys_are_the_domain();
            let keys = self.keys();
            assert forall|i: int, j: int|
                0 <= i < keys.len() && 0 <= j < keys.len() && i != j implies keys[i]
                != keys[j] by {
                assert(keys[i] == self.entries@[i].0@);
                assert(keys[j] == self.entries@[j].0@);
                if i < j {
                    lemma_ordered(self.entries@, i, j);
                } else {
                    lemma_ordered(self.entries@, j, i);
                }
            }
        }
        let mut out: Vec<String> = Vec::new();
        let mut i: usize = 0;
        while i < self.entries.len()
            invariant
                i <= self.entries.len(),
                out.len() == i,
                forall|k: int| 0 <= k < i ==> #[trigger] out@[k]@ == self.entries@[k].0@,
            decreases self.entries.len() - i,
        {
            out.push(self.entries[i].0.clone());
            i += 1;
        }
        assert(crate::text::strings(out@) =~= self.keys());
        out
    }

    /// The key at a position, with its value.
    pub fn at(&self, i: usize) -> (r: (&String, &V))
        requires
            i < self.keys().len(),
        ensures
            r.0@ == self.keys()[i as int],
            self@.contains_key(r.0@),
            self@[r.0@] == *r.1,
            strictly_ascending(self.keys()),
    {
        proof {
            use_type_invariant(self);
            lemma_at(self.entries@, i as int);
        }
        let e = &self.entries[i];
        (&e.0, &e.1)
    }

    /// Where the key stands, or would stand.
    fn position(&self, key: &str) -> (r: (usize, bool))
        ensures
            r.0 <= self.entries@.len(),
            r.1 ==> r.0 < self.entries@.len() && self.entries@[r.0 as int].0@ == key@,
            r.1 == self@.contains_key(key@),
            !r.1 ==> {
                &&& forall|i: int|
                    0 <= i < r.0 ==> crate::text::less((#[trigger] self.entries@[i]).0@, key@)
                &&& forall|i: int|
                    r.0 <= i < self.entries@.len() ==> crate::text::less(
                        key@,
                        (#[trigger] self.entries@[i]).0@,
                    )
            },
    {
        proof {
            use_type_invariant(self);
        }
        let mut i: usize = 0;
        while i < self.entries.len() && comes_before(self.entries[i].0.as_str(), key)
            invariant
                i <= self.entries.len(),
                strictly_ascending(keys_of(self.entries@)),
                forall|k: int|
                    0 <= k < i ==> crate::text::less((#[trigger] self.entries@[k]).0@, key@),
            decreases self.entries.len() - i,
        {
            i += 1;
        }
        if i < self.entries.len() && same(self.entries[i].0.as_str(), key) {
            proof {
                lemma_at(self.entries@, i as int);
            }
            (i, true)
        } else {
            proof {
                assert forall|k: int| i <= k < self.entries@.len() implies crate::text::less(
                    key@,
                    (#[trigger] self.entries@[k]).0@,
                ) by {
                    let here = self.entries@[i as int].0@;
                    let there = self.entries@[k].0@;
                    crate::text::dictionary_order_is_total(key@, here, there);
                    if k > i {
                        lemma_ordered(self.entries@, i as int, k);
                        crate::text::dictionary_order_is_total(here, there, key@);
                        crate::text::dictionary_order_is_total(there, key@, here);
                    }
                }
                assert forall|k: int| 0 <= k < self.entries@.len() implies (
                #[trigger] self.entries@[k]).0@ != key@ by {
                    crate::text::dictionary_order_is_total(self.entries@[k].0@, key@, key@);
                }
                lemma_absent(self.entries@, key@);
            }
            (i, false)
        }
    }

    pub fn get(&self, key: &str) -> (r: Option<&V>)
        ensures
            match r {
                Some(v) => self@.contains_key(key@) && *v == self@[key@],
                None => !self@.contains_key(key@),
            },
    {
        proof {
            use_type_invariant(self);
        }
        let (i, found) = self.position(key);
        if found {
            proof {
                lemma_at(self.entries@, i as int);
            }
            Some(&self.entries[i].1)
        } else {
            None
        }
    }

    pub fn contains_key(&self, key: &str) -> (r: bool)
        ensures
            r == self@.contains_key(key@),
    {
        self.position(key).1
    }

    /// Set the value of a key. The result tells whether the key was new.
    pub fn insert(&mut self, key: &str, value: V) -> (r: bool)
        ensures
            final(self)@ == old(self)@.insert(key@, value),
            r == !old(self)@.contains_key(key@),
            old(self)@.contains_key(key@) ==> final(self).keys() == old(self).keys(),
    {
        proof {
            use_type_invariant(&*self);
        }
        let (i, found) = self.position(key);
        let mut entries: Vec<(String, V)> = Vec::new();
        std::mem::swap(&mut entries, &mut self.entries);
        let ghost before = entries@;
        let ghost goal = table_map(before).insert(key@, value);
        if found {
            let name = entries[i].0.clone();
            entries.set(i, (name, value));
            proof {
                assert(keys_of(entries@) =~= keys_of(before));
                assert forall|k: int| #![trigger entries@[k]]
                    0 <= k < entries@.len() implies goal.contains_key(entries@[k].0@)
                    && goal[entries@[k].0@] == entries@[k].1 by {
                    lemma_at(before, k);
                    if k < i {
                        lemma_ordered(before, k, i as int);
                    } else if k > i {
                        lemma_ordered(before, i as int, k);
                    }
                }
                assert forall|k: Seq<char>| #[trigger] goal.contains_key(k) implies exists|j: int|
                    0 <= j < entries@.len() && (#[trigger] entries@[j]).0@ == k by {
                    if k == key@ {
                        assert(entries@[i as int].0@ == k);
                    } else {
                        let j = lemma_present(before, k);
                        assert(entries@[j].0@ == k);
                    }
                }
                lemma_same_map(entries@, goal);
            }
        } else {
            entries.insert(i, (key.to_owned(), value));
            proof {
                let after = entries@;
                assert forall|a: int, b: int|
                    0 <= a < b < keys_of(after).len() implies crate::text::less(
                    #[trigger] keys_of(after)[a],
                    #[trigger] keys_of(after)[b],
                ) by {
                    if b < i {
                        lemma_ordered(before, a, b);
                        assert(after[a] == before[a]);
                        assert(after[b] == before[b]);
                    } else if b == i {
                        assert(after[a] == before[a]);
                        assert(crate::text::less(before[a].0@, key@));
                    } else if a == i {
                        assert(after[b] == before[b - 1]);
                        assert(crate::text::less(key@, before[b - 1].0@));
                    } else {
                        let p = if a < i {
                            a
                        } else {
                            a - 1
                        };
                        lemma_ordered(before, p, b - 1);
                        assert(after[a] == before[p]);
                        assert(after[b] == before[b - 1]);
                    }
                }
                assert forall|k: int| #![trigger entries@[k]]
                    0 <= k < entries@.len() implies goal.contains_key(entries@[k].0@)
                    && goal[entries@[k].0@] == entries@[k].1 by {
                    if k < i {
                        assert(after[k] == before[k]);
                        lemma_at(before, k);
                    } else if k > i {
                        assert(after[k] == before[k - 1]);
                        lemma_at(before, k - 1);
                    }
                }
                assert forall|k: Seq<char>| #[trigger] goal.contains_key(k) implies exists|j: int|
                    0 <= j < entries@.len() && (#[trigger] entries@[j]).0@ == k by {
                    if k == key@ {
                        assert(entries@[i as int].0@ == k);
                    } else {
                        let j = lemma_present(before, k);
                        if j < i {
                            assert(entries@[j].0@ == k);
                        } else {
                            assert(entries@[j + 1].0@ == k);
                        }
                    }
                }
                lemma_same_map(entries@, goal);
            }
        }
        self.entries = entries;
        !found
    }

    /// Drop a key. The result tells whether it was there.
    pub fn remove(&mut self, key: &str) -> (r: bool)
        ensures
            final(self)@ == old(self)@.remove(key@),
            r == old(self)@.contains_key(key@),
    {
        proof {
            use_type_invariant(&*self);
        }
        let (i, found) = self.position(key);
        if !found {
            assert(self@.remove(key@) =~= self@);
            return false;
        }
        let mut entries: Vec<(String, V)> = Vec::new();
        std::mem::swap(&mut entries, &mut self.entries);
        let ghost before = entries@;
        let ghost goal = table_map(before).remove(key@);
        entries.remove(i);
        proof {
            let after = entries@;
            assert forall|a: int, b: int|
                0 <= a < b < keys_of(after).len() implies crate::text::less(
                #[trigger] keys_of(after)[a],
                #[trigger] keys_of(after)[b],
            ) by {
                let p = if a < i {
                    a
                } else {
                    a + 1
                };
                let q = if b < i {
                    b
                } else {
                    b + 1
                };
                lemma_ordered(before, p, q);
                assert(after[a] == before[p]);
                assert(after[b] == before[q]);
            }
            assert forall|k: int| #![trigger entries@[k]]
                0 <= k < entries@.len() implies goal.contains_key(entries@[k].0@)
                && goal[entries@[k].0@] == entries@[k].1 by {
                let p = if k < i {
                    k
                } else {
                    k + 1
                };
                assert(after[k] == before[p]);
                lemma_at(before, p);
                if p < i {
                    lemma_ordered(before, p, i as int);
                } else {
                    lemma_ordered(before, i as int, p);
                }
            }
            assert forall|k: Seq<char>| #[trigger] goal.contains_key(k) implies exists|j: int|
                0 <= j < entries@.len() && (#[trigger] entries@[j]).0@ == k by {
                let j = lemma_present(before, k);
                if j < i {
                    assert(entries@[j].0@ == k);
                } else {
                    assert(entries@[j - 1].0@ == k);
                }
            }
            lemma_same_map(entries@, goal);
        }
        self.entries = entries;
        true
    }
}

/// The texts of a table of strings.
pub open spec fn entries(table: Map<Seq<char>, String>) -> Map<Seq<char>, Seq<char>> {
    table.map_values(|s: String| s@)
}

pub proof fn lemma_entries_insert(table: Map<Seq<char>, String>, key: Seq<char>, value: String)
    ensures
        entries(table.insert(key, value)) == entries(table).insert(key, value@),
{
    assert(entries(table.insert(key, value)) =~= entries(table).insert(key, value@));
}

/// Every key of the first table is one of the second.
fn keys_within<V, W>(a: &Table<V>, b: &Table<W>) -> (r: bool)
    ensures
        r == forall|k: Seq<char>| #[trigger] a@.contains_key(k) ==> b@.contains_key(k),
{
    let keys = a.key_list();
    let ghost texts = a.keys();
    let mut i: usize = 0;
    while i < keys.len()
        invariant
            i <= keys.len(),
            texts == a.keys(),
            crate::text::strings(keys@) == texts,
            forall|k: Seq<char>| #[trigger] a@.contains_key(k) <==> texts.contains(k),
            forall|j: int| 0 <= j < i ==> b@.contains_key(#[trigger] texts[j]),
        decreases keys.len() - i,
    {
        assert(texts[i as int] == keys@[i as int]@);
        if !b.contains_key(keys[i].as_str()) {
            assert(texts.contains(texts[i as int]));
            assert(a@.contains_key(texts[i as int]));
            return false;
        }
        i += 1;
    }
    assert forall|k: Seq<char>| #[trigger] a@.contains_key(k) implies b@.contains_key(k) by {
        let j = texts.index_of(k);
        assert(texts[j] == k);
    }
    true
}

/// The two tables have the same keys.
pub fn same_keys<V, W>(a: &Table<V>, b: &Table<W>) -> (r: bool)
    ensures
        r == (a@.dom() == b@.dom()),
{
    let r = keys_within(a, b) && keys_within(b, a);
    proof {
        if r {
            assert(a@.dom() =~= b@.dom());
        } else if a@.dom() == b@.dom() {
            assert(forall|k: Seq<char>| a@.contains_key(k) == a@.dom().contains(k));
            assert(forall|k: Seq<char>| b@.contains_key(k) == b@.dom().contains(k));
        }
    }
    r
}

/// The two tables have the same keys with the same texts.
pub fn same_texts(a: &Table<String>, b: &Table<String>) -> (r: bool)
    ensures
        r == (entries(a@) == entries(b@)),
{
    if !same_keys(a, b) {
        assert(entries(a@).dom() =~= a@.dom());
        assert(entries(b@).dom() =~= b@.dom());
        return false;
    }
    let keys = a.key_list();
    let ghost texts = a.keys();
    let mut i: usize = 0;
    while i < keys.len()
        invariant
            i <= keys.len(),
            a@.dom() == b@.dom(),
            texts == a.keys(),
            crate::text::strings(keys@) == texts,
            forall|k: Seq<char>| #[trigger] a@.contains_key(k) <==> texts.contains(k),
            forall|j: int| 0 <= j < i ==> a@[#[trigger] texts[j]]@ == b@[texts[j]]@,
        decreases keys.len() - i,
    {
        assert(texts[i as int] == keys@[i as int]@);
        assert(texts.contains(texts[i as int]));
        assert(a@.contains_key(texts[i as int]));
        assert(a@.dom().contains(texts[i as int]));
        match (a.get(keys[i].as_str()), b.get(keys[i].as_str())) {
            (Some(x), Some(y)) => {
                if !same(x.as_str(), y.as_str()) {
                    assert(entries(a@)[texts[i as int]] != entries(b@)[texts[i as int]]);
                    return false;
                }
            },
            _ => {},
        }
        i += 1;
    }
    proof {
        assert forall|k: Seq<char>| #[trigger] a@.contains_key(k) implies a@[k]@ == b@[k]@ by {
            let j = texts.index_of(k);
            assert(texts[j] == k);
        }
        assert(entries(a@) =~= entries(b@));
    }
    true
}

/// A copy of a table of strings.
pub fn clone_texts(a: &Table<String>) -> (r: Table<String>)
    ensures
        r@ == a@,
{
    let keys = a.key_list();
    let ghost texts = a.keys();
    let mut out: Table<String> = Table::new();
    let mut i: usize = 0;
    while i < keys.len()
        invariant
            i <= keys.len(),
            texts == a.keys(),
            crate::text::strings(keys@) == texts,
            forall|k: Seq<char>| #[trigger] a@.contains_key(k) <==> texts.contains(k),
            forall|k: Seq<char>| #[trigger]
                out@.contains_key(k) <==> texts.take(i as int).contains(k),
            forall|k: Seq<char>| #[trigger] out@.contains_key(k) ==> out@[k] == a@[k],
        decreases keys.len() - i,
    {
        let ghost before = out@;
        let ghost key = texts[i as int];
        assert(key == keys@[i as int]@);
        assert(texts.contains(key));
        assert(a@.contains_key(key));
        match a.get(keys[i].as_str()) {
            Some(x) => {
                out.insert(keys[i].as_str(), x.clone());
            },
            None => {},
        }
        proof {
            let head = texts.take(i as int);
            let longer = texts.take(i + 1);
            assert(longer =~= head.push(key));
            assert forall|k: Seq<char>| #[trigger] out@.contains_key(k) <==> longer.contains(k) by {
                lemma_push_holds(head, key, k);
                assert(before.contains_key(k) <==> head.contains(k));
            }
        }
        i += 1;
    }
    assert(texts.take(texts.len() as int) =~= texts);
    assert(out@ =~= a@);
    out
}

pub proof fn lemma_push_holds(list: Seq<Seq<char>>, last: Seq<char>, k: Seq<char>)
    ensures
        list.push(last).contains(k) <==> (k == last || list.contains(k)),
{
    let longer = list.push(last);
    assert(longer[list.len() as int] == last);
    if list.contains(k) {
        assert(longer[list.index_of(k)] == k);
    }
    if longer.contains(k) && k != last {
        assert(list[longer.index_of(k)] == k);
    }
}

} // verus!
