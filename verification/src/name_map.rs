use vstd::prelude::*;

verus! {

/// No name occurs twice in `s`.
pub open spec fn names_distinct<V>(s: Seq<(Seq<char>, V)>) -> bool {
    forall|i: int, j: int|
        0 <= i < s.len() && 0 <= j < s.len() && i != j ==> #[trigger] s[i].0 != #[trigger] s[j].0
}

/// Some entry of `s` carries the name `k`.
pub open spec fn has_name<V>(s: Seq<(Seq<char>, V)>, k: Seq<char>) -> bool {
    exists|i: int| 0 <= i < s.len() && #[trigger] s[i].0 == k
}

/// The map from names to values that a sequence of entries describes.
pub open spec fn entries_to_map<V>(s: Seq<(Seq<char>, V)>) -> Map<Seq<char>, V> {
    Map::new(
        |k: Seq<char>| has_name(s, k),
        |k: Seq<char>| s[choose|i: int| 0 <= i < s.len() && #[trigger] s[i].0 == k].1,
    )
}

/// In a sequence without repeated names, each entry is what the map gives
/// for its name.
pub proof fn lemma_entry_in_map<V>(s: Seq<(Seq<char>, V)>, i: int)
    requires
        names_distinct(s),
        0 <= i < s.len(),
    ensures
        entries_to_map(s).contains_key(s[i].0),
        entries_to_map(s)[s[i].0] == s[i].1,
{
    let k = s[i].0;
    assert(has_name(s, k));
    let j = choose|j: int| 0 <= j < s.len() && #[trigger] s[j].0 == k;
    assert(j == i);
}

/// Replacing the value of an entry replaces the value of its name.
pub proof fn lemma_update_value<V>(s: Seq<(Seq<char>, V)>, i: int, v: V)
    requires
        names_distinct(s),
        0 <= i < s.len(),
    ensures
        names_distinct(s.update(i, (s[i].0, v))),
        entries_to_map(s.update(i, (s[i].0, v))) == entries_to_map(s).insert(s[i].0, v),
{
    let t = s.update(i, (s[i].0, v));
    assert(names_distinct(t)) by {
        assert forall|a: int, b: int|
            0 <= a < t.len() && 0 <= b < t.len() && a != b implies #[trigger] t[a].0
            != #[trigger] t[b].0 by {
            assert(s[a].0 != s[b].0);
        }
    }
    let m = entries_to_map(s).insert(s[i].0, v);
    assert forall|k: Seq<char>| #[trigger] entries_to_map(t).contains_key(k) <==> m.contains_key(k) by {
        if has_name(t, k) {
            let j = choose|j: int| 0 <= j < t.len() && #[trigger] t[j].0 == k;
            assert(s[j].0 == k);
        }
        if has_name(s, k) {
            let j = choose|j: int| 0 <= j < s.len() && #[trigger] s[j].0 == k;
            assert(t[j].0 == k);
        }
        if k == s[i].0 {
            assert(t[i].0 == k);
        }
    }
    assert forall|k: Seq<char>| #[trigger] entries_to_map(t).contains_key(k) implies entries_to_map(
        t,
    )[k] == m[k] by {
        let j = choose|j: int| 0 <= j < t.len() && #[trigger] t[j].0 == k;
        lemma_entry_in_map(t, j);
        if j != i {
            lemma_entry_in_map(s, j);
        }
    }
    assert(entries_to_map(t) =~= m);
}

/// Appending an entry under a new name adds that name to the map.
pub proof fn lemma_push_entry<V>(s: Seq<(Seq<char>, V)>, k: Seq<char>, v: V)
    requires
        names_distinct(s),
        !has_name(s, k),
    ensures
        names_distinct(s.push((k, v))),
        entries_to_map(s.push((k, v))) == entries_to_map(s).insert(k, v),
{
    let t = s.push((k, v));
    assert(names_distinct(t)) by {
        assert forall|a: int, b: int|
            0 <= a < t.len() && 0 <= b < t.len() && a != b implies #[trigger] t[a].0
            != #[trigger] t[b].0 by {
            if a < s.len() && b < s.len() {
                assert(s[a].0 != s[b].0);
            } else if a < s.len() {
                assert(s[a].0 != k);
            } else {
                assert(s[b].0 != k);
            }
        }
    }
    let m = entries_to_map(s).insert(k, v);
    assert forall|q: Seq<char>| #[trigger] entries_to_map(t).contains_key(q) <==> m.contains_key(q) by {
        if has_name(t, q) {
            let j = choose|j: int| 0 <= j < t.len() && #[trigger] t[j].0 == q;
            if j < s.len() {
                assert(s[j].0 == q);
            }
        }
        if has_name(s, q) {
            let j = choose|j: int| 0 <= j < s.len() && #[trigger] s[j].0 == q;
            assert(t[j].0 == q);
        }
        if q == k {
            assert(t[s.len() as int].0 == q);
        }
    }
    assert forall|q: Seq<char>| #[trigger] entries_to_map(t).contains_key(q) implies entries_to_map(
        t,
    )[q] == m[q] by {
        let j = choose|j: int| 0 <= j < t.len() && #[trigger] t[j].0 == q;
        lemma_entry_in_map(t, j);
        if j < s.len() {
            lemma_entry_in_map(s, j);
        }
    }
    assert(entries_to_map(t) =~= m);
}

/// The position of the entry named `k` in `s`.
pub open spec fn name_index<V>(s: Seq<(Seq<char>, V)>, k: Seq<char>) -> int {
    choose|i: int| 0 <= i < s.len() && #[trigger] s[i].0 == k
}

/// The entries after `v` is stored under `k`: the entry named `k` keeps its
/// place and takes the new value, or a new entry is appended.
pub open spec fn entries_after_insert<V>(s: Seq<(Seq<char>, V)>, k: Seq<char>, v: V) -> Seq<
    (Seq<char>, V),
> {
    if has_name(s, k) {
        s.update(name_index(s, k), (k, v))
    } else {
        s.push((k, v))
    }
}

/// A read gives back what the last write under that name stored, a write
/// leaves every other name as it was, and names never come to repeat.
pub proof fn law_read_after_write<V>(s: Seq<(Seq<char>, V)>, k: Seq<char>, v: V, other: Seq<char>)
    requires
        names_distinct(s),
        other != k,
    ensures
        names_distinct(entries_after_insert(s, k, v)),
        entries_to_map(entries_after_insert(s, k, v)).contains_key(k),
        entries_to_map(entries_after_insert(s, k, v))[k] == v,
        entries_to_map(entries_after_insert(s, k, v)).contains_key(other)
            == entries_to_map(s).contains_key(other),
        entries_to_map(s).contains_key(other) ==> entries_to_map(entries_after_insert(s, k, v))[other]
            == entries_to_map(s)[other],
{
    lemma_insert_entries(s, k, v);
}

/// Storing under a name in the entries stores under it in the map.
pub proof fn lemma_insert_entries<V>(s: Seq<(Seq<char>, V)>, k: Seq<char>, v: V)
    requires
        names_distinct(s),
    ensures
        names_distinct(entries_after_insert(s, k, v)),
        entries_to_map(entries_after_insert(s, k, v)) == entries_to_map(s).insert(k, v),
{
    if has_name(s, k) {
        let i = name_index(s, k);
        lemma_update_value(s, i, v);
    } else {
        lemma_push_entry(s, k, v);
    }
}

/// A table from names to values in which no name occurs twice. Entries keep
/// the order in which their names were first inserted.
#[derive(Debug)]
pub struct NameMap<V> {
    entries: Vec<(String, V)>,
}

impl<V> View for NameMap<V> {
    type V = Map<Seq<char>, V>;

    open spec fn view(&self) -> Map<Seq<char>, V> {
        entries_to_map(self.entries())
    }
}

impl<V> NameMap<V> {
    /// The names and values, in insertion order.
    pub closed spec fn entries(&self) -> Seq<(Seq<char>, V)> {
        self.entries@.map_values(|e: (String, V)| (e.0@, e.1))
    }

    #[verifier::type_invariant]
    closed spec fn no_repeated_name(&self) -> bool {
        names_distinct(self.entries())
    }

    /// An empty table.
    pub fn new() -> (r: Self)
        ensures
            r.entries() == Seq::<(Seq<char>, V)>::empty(),
            r@ == Map::<Seq<char>, V>::empty(),
    {
        let r = NameMap { entries: Vec::new() };
        assert(r.entries() =~= Seq::<(Seq<char>, V)>::empty());
        assert(r@ =~= Map::<Seq<char>, V>::empty());
        r
    }

    /// The number of entries.
    pub fn len(&self) -> (n: usize)
        ensures
            n == self.entries().len(),
            n == self@.len(),
            names_distinct(self.entries()),
    {
        proof {
            use_type_invariant(self);
            self.lemma_len();
        }
        self.entries.len()
    }

    proof fn lemma_len(&self)
        requires
            names_distinct(self.entries()),
        ensures
            self@.dom().finite(),
            self@.len() == self.entries().len(),
    {
        let s = self.entries();
        let names = s.map_values(|e: (Seq<char>, V)| e.0);
        assert(names.no_duplicates()) by {
            assert forall|i: int, j: int|
                0 <= i < names.len() && 0 <= j < names.len() && i != j implies names[i]
                != names[j] by {
                assert(s[i].0 != s[j].0);
            }
        }
        names.unique_seq_to_set();
        vstd::seq_lib::seq_to_set_is_finite(names);
        assert forall|k: Seq<char>| self@.dom().contains(k) <==> names.to_set().contains(k) by {
            if self@.dom().contains(k) {
                let i = choose|i: int| 0 <= i < s.len() && #[trigger] s[i].0 == k;
                assert(names[i] == k);
            }
            if names.to_set().contains(k) {
                let i = choose|i: int| 0 <= i < names.len() && names[i] == k;
                assert(s[i].0 == k);
            }
        }
        assert(self@.dom() =~= names.to_set());
    }

    /// The entry at position `i`.
    pub fn entry(&self, i: usize) -> (r: (&String, &V))
        requires
            i < self.entries().len(),
        ensures
            r.0@ == self.entries()[i as int].0,
            *r.1 == self.entries()[i as int].1,
            names_distinct(self.entries()),
    {
        proof {
            use_type_invariant(self);
        }
        let e = &self.entries[i];
        (&e.0, &e.1)
    }

    /// The position of the entry named `name`, if there is one.
    pub fn position(&self, name: &str) -> (r: Option<usize>)
        ensures
            r is Some <==> self@.contains_key(name@),
            r matches Some(i) ==> i < self.entries().len() && self.entries()[i as int].0 == name@,
            names_distinct(self.entries()),
    {
        proof {
            use_type_invariant(self);
        }
        let key = name.to_owned();
        let n = self.entries.len();
        let mut i: usize = 0;
        while i < n
            invariant
                n == self.entries@.len(),
                key@ == name@,
                i <= n,
                names_distinct(self.entries()),
                forall|j: int| 0 <= j < i ==> #[trigger] self.entries()[j].0 != name@,
            decreases n - i,
        {
            if self.entries[i].0 == key {
                assert(self.entries()[i as int].0 == name@);
                return Some(i);
            }
            i = i + 1;
        }
        None
    }

    /// The value stored under `name`, if there is one.
    pub fn get(&self, name: &str) -> (r: Option<&V>)
        ensures
            r is Some <==> self@.contains_key(name@),
            r matches Some(v) ==> *v == self@[name@],
    {
        proof {
            use_type_invariant(self);
        }
        match self.position(name) {
            Some(i) => {
                proof {
                    lemma_entry_in_map(self.entries(), i as int);
                }
                Some(&self.entries[i].1)
            },
            None => None,
        }
    }

    /// Stores `value` under `name`, replacing the value of an entry that
    /// already carries that name in its place, or appending a new entry.
    pub fn insert(&mut self, name: &str, value: V)
        ensures
            final(self)@ == old(self)@.insert(name@, value),
            final(self).entries() == entries_after_insert(old(self).entries(), name@, value),
    {
        proof {
            use_type_invariant(&*self);
            lemma_insert_entries(self.entries(), name@, value);
        }
        match self.position(name) {
            Some(i) => {
                proof {
                    let j = name_index(self.entries(), name@);
                    assert(self.entries()[j].0 == name@);
                    assert(j == i);
                }
                let ghost before = self.entries();
                let mut es: Vec<(String, V)> = Vec::new();
                std::mem::swap(&mut self.entries, &mut es);
                es[i].1 = value;
                assert(es@.map_values(|e: (String, V)| (e.0@, e.1)) =~= before.update(
                    i as int,
                    (name@, value),
                ));
                self.entries = es;
            },
            None => {
                let ghost before = self.entries();
                let mut es: Vec<(String, V)> = Vec::new();
                std::mem::swap(&mut self.entries, &mut es);
                es.push((name.to_owned(), value));
                assert(es@.map_values(|e: (String, V)| (e.0@, e.1)) =~= before.push(
                    (name@, value),
                ));
                self.entries = es;
            },
        }
    }

    /// Replaces the value of the entry at position `i`, keeping its name.
    pub fn set_value(&mut self, i: usize, value: V)
        requires
            i < old(self).entries().len(),
        ensures
            final(self).entries() == old(self).entries().update(
                i as int,
                (old(self).entries()[i as int].0, value),
            ),
            final(self)@ == old(self)@.insert(old(self).entries()[i as int].0, value),
    {
        proof {
            use_type_invariant(&*self);
            lemma_update_value(self.entries(), i as int, value);
        }
        let ghost before = self.entries();
        let mut es: Vec<(String, V)> = Vec::new();
        std::mem::swap(&mut self.entries, &mut es);
        es[i].1 = value;
        assert(es@.map_values(|e: (String, V)| (e.0@, e.1)) =~= before.update(
            i as int,
            (before[i as int].0, value),
        ));
        self.entries = es;
    }
}

impl<V: Clone> Clone for NameMap<V> {
    /// A copy with the same names in the same order; each value is a clone
    /// of the original one.
    fn clone(&self) -> (r: Self)
        ensures
            r.entries().len() == self.entries().len(),
            forall|i: int|
                0 <= i < self.entries().len() ==> #[trigger] r.entries()[i].0
                    == self.entries()[i].0 && cloned::<V>(self.entries()[i].1, r.entries()[i].1),
    {
        proof {
            use_type_invariant(self);
        }
        let n = self.entries.len();
        let mut out: Vec<(String, V)> = Vec::new();
        let mut i: usize = 0;
        while i < n
            invariant
                n == self.entries@.len(),
                i <= n,
                out@.len() == i,
                names_distinct(self.entries()),
                forall|j: int|
                    0 <= j < i ==> #[trigger] out@[j].0@ == self.entries@[j].0@ && cloned::<V>(
                        self.entries@[j].1,
                        out@[j].1,
                    ),
            decreases n - i,
        {
            let name = self.entries[i].0.clone();
            let value = self.entries[i].1.clone();
            out.push((name, value));
            i = i + 1;
        }
        let ghost outs = out@.map_values(|e: (String, V)| (e.0@, e.1));
        assert(names_distinct(outs)) by {
            assert forall|a: int, b: int|
                0 <= a < outs.len() && 0 <= b < outs.len() && a != b implies #[trigger] outs[a].0
                != #[trigger] outs[b].0 by {
                assert(self.entries()[a].0 != self.entries()[b].0);
            }
        }
        let r = NameMap { entries: out };
        r
    }
}

} // verus!
