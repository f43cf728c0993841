//! A verified association map keyed by entity identity (adapter name and
//! port number). It backs every per-entity table of the engine: histories,
//! cached snapshots and current rates.

use crate::text;
use vstd::map::*;
use vstd::prelude::*;

verus! {

/// One entry: an owned key and its value.
pub struct PortMapEntry<V> {
    pub adapter: String,
    pub port: u16,
    pub value: V,
}

impl<V> PortMapEntry<V> {
    /// The mathematical key of this entry.
    pub open spec fn key(&self) -> (Seq<char>, u16) {
        (self.adapter@, self.port)
    }
}

/// No two entries share a key.
pub open spec fn distinct_keys<V>(s: Seq<PortMapEntry<V>>) -> bool {
    forall|i: int, j: int| 0 <= i < j < s.len() ==> s[i].key() != s[j].key()
}

/// The mathematical map an entry sequence denotes.
pub open spec fn map_of<V>(s: Seq<PortMapEntry<V>>) -> Map<(Seq<char>, u16), V>
    decreases s.len(),
{
    if s.len() == 0 {
        Map::empty()
    } else {
        map_of(s.drop_last()).insert(s.last().key(), s.last().value)
    }
}

/// The set of keys named by an active-entity list.
pub open spec fn key_set(active: Seq<(String, u16)>) -> Set<(Seq<char>, u16)> {
    Set::new(
        |k: (Seq<char>, u16)|
            exists|i: int| 0 <= i < active.len() && k == (active[i].0@, active[i].1),
    )
}

/// The subsequence of `s` whose keys lie in `ks`, in order.
spec fn kept<V>(s: Seq<PortMapEntry<V>>, ks: Set<(Seq<char>, u16)>) -> Seq<
    PortMapEntry<V>,
>
    decreases s.len(),
{
    if s.len() == 0 {
        s
    } else {
        let r = kept(s.drop_last(), ks);
        if ks.contains(s.last().key()) {
            r.push(s.last())
        } else {
            r
        }
    }
}

proof fn lemma_map_of_contains<V>(s: Seq<PortMapEntry<V>>, k: (Seq<char>, u16))
    ensures
        map_of(s).contains_key(k) <==> exists|i: int| 0 <= i < s.len() && s[i].key() == k,
    decreases s.len(),
{
    if s.len() > 0 {
        lemma_map_of_contains(s.drop_last(), k);
        if map_of(s).contains_key(k) {
            if s.last().key() == k {
                assert(s[s.len() - 1].key() == k);
            } else {
                let i = choose|i: int| 0 <= i < s.drop_last().len() && s.drop_last()[i].key() == k;
                assert(s[i].key() == k);
            }
        }
        if exists|i: int| 0 <= i < s.len() && s[i].key() == k {
            let i = choose|i: int| 0 <= i < s.len() && s[i].key() == k;
            if i < s.len() - 1 {
                assert(s.drop_last()[i].key() == k);
            }
        }
    }
}

proof fn lemma_map_of_index<V>(s: Seq<PortMapEntry<V>>, i: int)
    requires
        distinct_keys(s),
        0 <= i < s.len(),
    ensures
        map_of(s).contains_key(s[i].key()),
        map_of(s)[s[i].key()] == s[i].value,
    decreases s.len(),
{
    lemma_map_of_contains(s, s[i].key());
    if i < s.len() - 1 {
        assert(s[i].key() != s[s.len() - 1].key());
        assert(s.drop_last()[i] == s[i]);
        assert(distinct_keys(s.drop_last())) by {
            assert(forall|a: int, b: int|
                0 <= a < b < s.drop_last().len() ==> s.drop_last()[a] == s[a] && s.drop_last()[b]
                    == s[b]);
        }
        lemma_map_of_index(s.drop_last(), i);
    }
}

proof fn lemma_distinct_drop_last<V>(s: Seq<PortMapEntry<V>>)
    requires
        distinct_keys(s),
        s.len() > 0,
    ensures
        distinct_keys(s.drop_last()),
{
    assert(forall|a: int, b: int|
        0 <= a < b < s.drop_last().len() ==> s.drop_last()[a] == s[a] && s.drop_last()[b] == s[b]);
}

proof fn lemma_map_of_dom_len<V>(s: Seq<PortMapEntry<V>>)
    requires
        distinct_keys(s),
    ensures
        map_of(s).dom().finite(),
        map_of(s).dom().len() == s.len(),
    decreases s.len(),
{
    if s.len() == 0 {
        assert(map_of(s).dom() =~= Set::<(Seq<char>, u16)>::empty());
    } else {
        lemma_distinct_drop_last(s);
        lemma_map_of_dom_len(s.drop_last());
        lemma_map_of_contains(s.drop_last(), s.last().key());
        assert(forall|i: int|
            0 <= i < s.drop_last().len() ==> #[trigger] s.drop_last()[i].key() == s[i].key());
        assert(!map_of(s.drop_last()).contains_key(s.last().key()));
        assert(map_of(s).dom() =~= map_of(s.drop_last()).dom().insert(s.last().key()));
    }
}

proof fn lemma_map_of_update<V>(s: Seq<PortMapEntry<V>>, i: int, e: PortMapEntry<V>)
    requires
        distinct_keys(s),
        0 <= i < s.len(),
        e.key() == s[i].key(),
    ensures
        distinct_keys(s.update(i, e)),
        map_of(s.update(i, e)) == map_of(s).insert(e.key(), e.value),
{
    let t = s.update(i, e);
    assert(forall|j: int| 0 <= j < s.len() ==> #[trigger] t[j].key() == s[j].key());
    assert(distinct_keys(t));
    let m2 = map_of(s).insert(e.key(), e.value);
    assert forall|k: (Seq<char>, u16)| #[trigger]
        map_of(t).contains_key(k) implies m2.contains_key(k) && map_of(t)[k] == m2[k] by {
        lemma_map_of_contains(t, k);
        lemma_map_of_contains(s, k);
        let j = choose|j: int| 0 <= j < t.len() && t[j].key() == k;
        assert(s[j].key() == k);
        lemma_map_of_index(t, j);
        if k == e.key() {
            assert(j == i);
        } else {
            assert(j != i);
            lemma_map_of_index(s, j);
        }
    }
    assert forall|k: (Seq<char>, u16)| #[trigger]
        m2.contains_key(k) implies map_of(t).contains_key(k) by {
        lemma_map_of_contains(t, k);
        lemma_map_of_contains(s, k);
        if k == e.key() {
            assert(t[i].key() == k);
        } else {
            let j = choose|j: int| 0 <= j < s.len() && s[j].key() == k;
            assert(t[j].key() == k);
        }
    }
    assert(map_of(t) =~= m2);
}

proof fn lemma_map_of_kept<V>(s: Seq<PortMapEntry<V>>, ks: Set<(Seq<char>, u16)>)
    requires
        distinct_keys(s),
    ensures
        distinct_keys(kept(s, ks)),
        map_of(kept(s, ks)) == map_of(s).restrict(ks),
    decreases s.len(),
{
    if s.len() == 0 {
        assert(map_of(kept(s, ks)) =~= map_of(s).restrict(ks));
    } else {
        lemma_distinct_drop_last(s);
        lemma_map_of_kept(s.drop_last(), ks);
        let r = kept(s.drop_last(), ks);
        if ks.contains(s.last().key()) {
            assert(distinct_keys(r.push(s.last()))) by {
                assert forall|a: int, b: int|
                    0 <= a < b < r.push(s.last()).len() implies r.push(s.last())[a].key() != r.push(
                    s.last(),
                )[b].key() by {
                    if b == r.len() {
                        lemma_map_of_contains(r, r[a].key());
                        lemma_map_of_contains(s.drop_last(), r[a].key());
                        if r[a].key() == s.last().key() {
                            let w = choose|w: int|
                                0 <= w < s.drop_last().len() && s.drop_last()[w].key() == r[a].key();
                            assert(s[w].key() == s[s.len() - 1].key());
                        }
                    }
                }
            }
            assert(map_of(r.push(s.last())) == map_of(r).insert(s.last().key(), s.last().value))
                by {
                assert(r.push(s.last()).drop_last() =~= r);
            }
            assert(map_of(r).insert(s.last().key(), s.last().value) =~= map_of(s).restrict(ks));
        } else {
            assert(map_of(r) =~= map_of(s).restrict(ks));
        }
    }
}

/// Mapping from entity key to a value; every key is present at most once.
pub struct PortMap<V> {
    entries: Vec<PortMapEntry<V>>,
}

impl<V> View for PortMap<V> {
    type V = Map<(Seq<char>, u16), V>;

    closed spec fn view(&self) -> Map<(Seq<char>, u16), V> {
        map_of(self.entries@)
    }
}

impl<V> PortMap<V> {
    pub closed spec fn inv(&self) -> bool {
        distinct_keys(self.entries@)
    }

    /// An empty map.
    pub fn new() -> (r: Self)
        ensures
            r.inv(),
            r@ == Map::<(Seq<char>, u16), V>::empty(),
    {
        PortMap { entries: Vec::new() }
    }

    fn find(&self, adapter: &str, port: u16) -> (r: Option<usize>)
        ensures
            match r {
                Some(i) => i < self.entries@.len() && self.entries@[i as int].key() == (
                    adapter@,
                    port,
                ),
                None => forall|j: int|
                    0 <= j < self.entries@.len() ==> #[trigger] self.entries@[j].key() != (
                        adapter@,
                        port,
                    ),
            },
    {
        let len = self.entries.len();
        let mut i: usize = 0;
        while i < len
            invariant
                len == self.entries@.len(),
                i <= len,
                forall|j: int|
                    0 <= j < i ==> #[trigger] self.entries@[j].key() != (adapter@, port),
            decreases len - i,
        {
            let e = &self.entries[i];
            if e.port == port && text::str_eq(e.adapter.as_str(), adapter) {
                return Some(i);
            }
            i = i + 1;
        }
        None
    }

    /// Whether `key` has an entry.
    pub fn contains(&self, adapter: &str, port: u16) -> (r: bool)
        requires
            self.inv(),
        ensures
            r == self@.contains_key((adapter@, port)),
    {
        proof {
            lemma_map_of_contains(self.entries@, (adapter@, port));
        }
        self.find(adapter, port).is_some()
    }

    /// The value stored under `key`, if any; never creates an entry.
    pub fn get(&self, adapter: &str, port: u16) -> (r: Option<&V>)
        requires
            self.inv(),
        ensures
            match r {
                Some(v) => self@.contains_key((adapter@, port)) && *v == self@[(adapter@, port)],
                None => !self@.contains_key((adapter@, port)),
            },
    {
        proof {
            lemma_map_of_contains(self.entries@, (adapter@, port));
        }
        match self.find(adapter, port) {
            Some(i) => {
                proof {
                    lemma_map_of_index(self.entries@, i as int);
                }
                Some(&self.entries[i].value)
            },
            None => None,
        }
    }

    /// Bind `key` to `value`, replacing any earlier binding.
    pub fn set(&mut self, adapter: &str, port: u16, value: V)
        requires
            old(self).inv(),
        ensures
            final(self).inv(),
            final(self)@ == old(self)@.insert((adapter@, port), value),
    {
        let entry = PortMapEntry { adapter: adapter.to_owned(), port, value };
        match self.find(adapter, port) {
            Some(i) => {
                proof {
                    lemma_map_of_update(self.entries@, i as int, entry);
                }
                self.entries.set(i, entry);
            },
            None => {
                proof {
                    let s = self.entries@;
                    assert(s.push(entry).drop_last() =~= s);
                    assert(forall|j: int|
                        0 <= j < s.len() ==> s.push(entry)[j] == #[trigger] s[j]);
                }
                self.entries.push(entry);
            },
        }
    }

    /// The value under `key`, created from `dflt` on first reference. The
    /// caller may mutate the returned value in place; the binding tracks it.
    pub fn get_mut_or_insert(&mut self, adapter: &str, port: u16, dflt: V) -> (r: &mut V)
        requires
            old(self).inv(),
        ensures
            final(self).inv(),
            *r == if old(self)@.contains_key((adapter@, port)) {
                old(self)@[(adapter@, port)]
            } else {
                dflt
            },
            final(self)@ == old(self)@.insert((adapter@, port), *final(r)),
    {
        let ghost k = (adapter@, port);
        if !self.contains(adapter, port) {
            self.set(adapter, port, dflt);
        }
        proof {
            assert forall|v: V|
                old(self)@.insert(k, v) == self@.insert(k, v) by {
                assert(old(self)@.insert(k, v) =~= self@.insert(k, v));
            }
        }
        match self.find(adapter, port) {
            Some(i) => {
                let ghost s = self.entries@;
                proof {
                    lemma_map_of_index(s, i as int);
                    assert forall|v: V|
                        map_of(
                            s.update(
                                i as int,
                                PortMapEntry { adapter: s[i as int].adapter, port, value: v },
                            ),
                        ) == map_of(s).insert(k, v) && distinct_keys(
                            s.update(
                                i as int,
                                PortMapEntry { adapter: s[i as int].adapter, port, value: v },
                            ),
                        ) by {
                        lemma_map_of_update(
                            s,
                            i as int,
                            PortMapEntry { adapter: s[i as int].adapter, port, value: v },
                        );
                    }
                }
                &mut self.entries[i].value
            },
            None => {
                proof {
                    lemma_map_of_contains(self.entries@, k);
                }
                vstd::pervasive::unreached()
            },
        }
    }

    /// Delete every entry whose key is not named by `active`.
    pub fn retain(&mut self, active: &Vec<(String, u16)>)
        requires
            old(self).inv(),
        ensures
            final(self).inv(),
            final(self)@ == old(self)@.restrict(key_set(active@)),
    {
        let ghost orig = self.entries@;
        let ghost ks = key_set(active@);
        let mut kept_entries: Vec<PortMapEntry<V>> = Vec::new();
        let ghost mut i: int = 0;
        proof {
            assert(orig.take(0) =~= Seq::<PortMapEntry<V>>::empty());
        }
        while self.entries.len() > 0
            invariant
                0 <= i <= orig.len(),
                self.entries@ == orig.skip(i),
                kept_entries@ == kept(orig.take(i), ks),
                ks == key_set(active@),
            decreases self.entries@.len(),
        {
            let e = self.entries.remove(0);
            proof {
                assert(orig.skip(i)[0] == orig[i]);
                assert(orig.skip(i).remove(0) =~= orig.skip(i + 1));
                assert(orig.take(i + 1).drop_last() =~= orig.take(i));
                assert(orig.take(i + 1).last() == orig[i]);
            }
            if key_list_contains(active, &e.adapter, e.port) {
                kept_entries.push(e);
            }
            proof {
                i = i + 1;
            }
        }
        proof {
            assert(orig.take(orig.len() as int) =~= orig);
            lemma_map_of_kept(orig, ks);
        }
        self.entries = kept_entries;
    }

    /// Number of entries.
    pub fn len(&self) -> (r: usize)
        requires
            self.inv(),
        ensures
            r == self@.dom().len(),
            self@.dom().finite(),
    {
        proof {
            lemma_map_of_dom_len(self.entries@);
        }
        self.entries.len()
    }

    /// Every key, as owned pairs. The result lists each bound key exactly
    /// once, in insertion order.
    pub fn keys(&self) -> (r: Vec<(String, u16)>)
        requires
            self.inv(),
        ensures
            r@.len() == self@.dom().len(),
            forall|j: int|
                0 <= j < r@.len() ==> self@.contains_key((#[trigger] r@[j].0@, r@[j].1)),
            forall|k: (Seq<char>, u16)| #[trigger]
                self@.contains_key(k) ==> exists|j: int|
                    0 <= j < r@.len() && (#[trigger] r@[j].0@, r@[j].1) == k,
    {
        let len = self.entries.len();
        let mut r: Vec<(String, u16)> = Vec::new();
        let mut i: usize = 0;
        while i < len
            invariant
                len == self.entries@.len(),
                i <= len,
                r@.len() == i,
                forall|j: int|
                    0 <= j < i ==> (#[trigger] r@[j].0@, r@[j].1) == self.entries@[j].key(),
            decreases len - i,
        {
            let e = &self.entries[i];
            r.push((e.adapter.clone(), e.port));
            i = i + 1;
        }
        proof {
            lemma_map_of_dom_len(self.entries@);
            assert forall|j: int|
                0 <= j < r@.len() implies self@.contains_key((#[trigger] r@[j].0@, r@[j].1)) by {
                lemma_map_of_index(self.entries@, j);
            }
            assert forall|k: (Seq<char>, u16)| #[trigger]
                self@.contains_key(k) implies exists|j: int|
                0 <= j < r@.len() && (#[trigger] r@[j].0@, r@[j].1) == k by {
                lemma_map_of_contains(self.entries@, k);
                let j = choose|j: int|
                    0 <= j < self.entries@.len() && self.entries@[j].key() == k;
                assert((r@[j].0@, r@[j].1) == k);
            }
        }
        r
    }
}

/// Whether `active` names the key `(adapter, port)`.
pub fn key_list_contains(active: &Vec<(String, u16)>, adapter: &String, port: u16) -> (r: bool)
    ensures
        r == key_set(active@).contains((adapter@, port)),
{
    let len = active.len();
    let mut i: usize = 0;
    while i < len
        invariant
            len == active@.len(),
            i <= len,
            forall|j: int|
                0 <= j < i ==> (#[trigger] active@[j].0@, active@[j].1) != (adapter@, port),
        decreases len - i,
    {
        let a = &active[i];
        if a.1 == port && text::str_eq(a.0.as_str(), adapter.as_str()) {
            proof {
                assert((active@[i as int].0@, active@[i as int].1) == (adapter@, port));
            }
            return true;
        }
        i = i + 1;
    }
    proof {
        assert(!key_set(active@).contains((adapter@, port)));
    }
    false
}

} // verus!
