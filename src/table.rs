//! A small table keyed by name: at most one entry per name, in no
//! particular order.
use vstd::prelude::*;
use crate::text::views;

verus! {

/// No two entries carry the same name.
pub open spec fn unique_names<V>(e: Seq<(String, V)>) -> bool {
    forall|i: int, j: int|
        0 <= i < e.len() && 0 <= j < e.len() && i != j ==> #[trigger] e[i].0@ != #[trigger] e[j].0@
}

/// Some entry carries the name `k`.
pub open spec fn has_name<V>(e: Seq<(String, V)>, k: Seq<char>) -> bool {
    exists|i: int| 0 <= i < e.len() && #[trigger] e[i].0@ == k
}

/// The map from each name to the value of its entry.
pub open spec fn entries_map<V>(e: Seq<(String, V)>) -> Map<Seq<char>, V> {
    Map::new(
        |k: Seq<char>| has_name(e, k),
        |k: Seq<char>| e[choose|i: int| 0 <= i < e.len() && #[trigger] e[i].0@ == k].1,
    )
}

proof fn lemma_entry_in_map<V>(e: Seq<(String, V)>, i: int)
    requires
        unique_names(e),
        0 <= i < e.len(),
    ensures
        entries_map(e).contains_key(e[i].0@),
        entries_map(e)[e[i].0@] == e[i].1,
{
    let k = e[i].0@;
    assert(has_name(e, k));
    let j = choose|j: int| 0 <= j < e.len() && #[trigger] e[j].0@ == k;
    assert(j == i);
}

/// A table of values keyed by name.
pub struct NameTable<V> {
    entries: Vec<(String, V)>,
}

impl<V> View for NameTable<V> {
    type V = Map<Seq<char>, V>;

    closed spec fn view(&self) -> Map<Seq<char>, V> {
        entries_map(self.entries@)
    }
}

impl<V> NameTable<V> {
    /// The table's invariant: one entry per name.
    pub closed spec fn wf(&self) -> bool {
        unique_names(self.entries@)
    }

    /// An empty table.
    pub fn new() -> (r: NameTable<V>)
        ensures
            r.wf(),
            r@ == Map::<Seq<char>, V>::empty(),
    {
        let r = NameTable { entries: Vec::new() };
        assert(r@ =~= Map::<Seq<char>, V>::empty());
        r
    }

    fn find(&self, name: &str) -> (r: Option<usize>)
        requires
            self.wf(),
        ensures
            match r {
                Some(i) => i < self.entries@.len() && self.entries@[i as int].0@ == name@,
                None => !self@.contains_key(name@),
            },
    {
        let key = name.to_owned();
        let mut i: usize = 0;
        while i < self.entries.len()
            invariant
                0 <= i <= self.entries@.len(),
                key@ == name@,
                forall|j: int| 0 <= j < i ==> #[trigger] self.entries@[j].0@ != name@,
            decreases self.entries@.len() - i,
        {
            if self.entries[i].0 == key {
                return Some(i);
            }
            i = i + 1;
        }
        None
    }

    /// Whether an entry carries `name`.
    pub fn contains(&self, name: &str) -> (r: bool)
        requires
            self.wf(),
        ensures
            r == self@.contains_key(name@),
    {
        match self.find(name) {
            Some(i) => {
                proof {
                    lemma_entry_in_map(self.entries@, i as int);
                }
                true
            },
            None => false,
        }
    }

    /// The value kept under `name`, if any.
    pub fn get(&self, name: &str) -> (r: Option<&V>)
        requires
            self.wf(),
        ensures
            match r {
                Some(v) => self@.contains_key(name@) && *v == self@[name@],
                None => !self@.contains_key(name@),
            },
    {
        match self.find(name) {
            Some(i) => {
                proof {
                    lemma_entry_in_map(self.entries@, i as int);
                }
                Some(&self.entries[i].1)
            },
            None => None,
        }
    }

    /// The number of entries.
    pub fn len(&self) -> (r: usize)
        requires
            self.wf(),
        ensures
            r == self@.len(),
    {
        proof {
            self.lemma_len();
        }
        self.entries.len()
    }

    proof fn lemma_len(&self)
        requires
            self.wf(),
        ensures
            self@.len() == self.entries@.len(),
            self@.dom() == views(self.entries@.map_values(|p: (String, V)| p.0)).to_set(),
            views(self.entries@.map_values(|p: (String, V)| p.0)).no_duplicates(),
    {
        let e = self.entries@;
        let names = views(e.map_values(|p: (String, V)| p.0));
        assert(names.no_duplicates()) by {
            assert forall|i: int, j: int|
                0 <= i < names.len() && 0 <= j < names.len() && i != j implies names[i]
                != names[j] by {
                assert(names[i] == e[i].0@);
                assert(names[j] == e[j].0@);
            }
        }
        assert(self@.dom() =~= names.to_set()) by {
            assert forall|k: Seq<char>| self@.dom().contains(k) implies names.to_set().contains(
                k,
            ) by {
                let i = choose|i: int| 0 <= i < e.len() && #[trigger] e[i].0@ == k;
                assert(names[i] == k);
            }
            assert forall|k: Seq<char>| names.to_set().contains(k) implies self@.dom().contains(
                k,
            ) by {
                let i = choose|i: int| 0 <= i < names.len() && names[i] == k;
                assert(e[i].0@ == k);
            }
        }
        names.unique_seq_to_set();
    }

    /// The names of all entries, each once.
    pub fn names(&self) -> (r: Vec<String>)
        requires
            self.wf(),
        ensures
            views(r@).no_duplicates(),
            views(r@).to_set() == self@.dom(),
    {
        proof {
            self.lemma_len();
        }
        let mut r: Vec<String> = Vec::new();
        let mut i: usize = 0;
        while i < self.entries.len()
            invariant
                0 <= i <= self.entries@.len(),
                r@.len() == i,
                forall|j: int| 0 <= j < i ==> #[trigger] r@[j]@ == self.entries@[j].0@,
            decreases self.entries@.len() - i,
        {
            r.push(self.entries[i].0.clone());
            i = i + 1;
        }
        assert(views(r@) =~= views(self.entries@.map_values(|p: (String, V)| p.0)));
        r
    }

    /// Keeps `value` under `name`, replacing what was kept there.
    pub fn insert(&mut self, name: String, value: V)
        requires
            old(self).wf(),
        ensures
            final(self).wf(),
            final(self)@ == old(self)@.insert(name@, value),
    {
        let ghost k = name@;
        let ghost old_e = self.entries@;
        match self.find(name.as_str()) {
            Some(i) => {
                self.entries.set(i, (name, value));
                let ghost e = self.entries@;
                assert(unique_names(e)) by {
                    assert forall|a: int, b: int|
                        0 <= a < e.len() && 0 <= b < e.len() && a != b implies #[trigger] e[a].0@
                        != #[trigger] e[b].0@ by {
                        if a != i as int && b != i as int {
                            assert(e[a] == old_e[a] && e[b] == old_e[b]);
                        } else if a == i as int {
                            assert(e[b] == old_e[b]);
                            assert(old_e[a].0@ == k);
                        } else {
                            assert(e[a] == old_e[a]);
                            assert(old_e[b].0@ == k);
                        }
                    }
                }
                assert(self@ =~= entries_map(old_e).insert(k, value)) by {
                    assert forall|q: Seq<char>| #[trigger]
                        entries_map(e).contains_key(q) == entries_map(old_e).insert(
                            k,
                            value,
                        ).contains_key(q) by {
                        if has_name(e, q) {
                            let j = choose|j: int| 0 <= j < e.len() && #[trigger] e[j].0@ == q;
                            if j != i as int {
                                assert(old_e[j] == e[j]);
                            }
                        }
                        if has_name(old_e, q) {
                            let j = choose|j: int| 0 <= j < old_e.len() && #[trigger] old_e[j].0@ == q;
                            if j != i as int {
                                assert(old_e[j] == e[j]);
                            } else {
                                assert(e[i as int].0@ == k);
                            }
                        }
                        if q == k {
                            assert(e[i as int].0@ == k);
                        }
                    }
                    assert forall|q: Seq<char>| #[trigger]
                        entries_map(e).contains_key(q) implies entries_map(e)[q]
                        == entries_map(old_e).insert(k, value)[q] by {
                        let j = choose|j: int| 0 <= j < e.len() && #[trigger] e[j].0@ == q;
                        lemma_entry_in_map(e, j);
                        if j != i as int {
                            assert(old_e[j] == e[j]);
                            lemma_entry_in_map(old_e, j);
                        }
                    }
                }
            },
            None => {
                self.entries.push((name, value));
                let ghost e = self.entries@;
                assert(unique_names(e)) by {
                    assert forall|a: int, b: int|
                        0 <= a < e.len() && 0 <= b < e.len() && a != b implies #[trigger] e[a].0@
                        != #[trigger] e[b].0@ by {
                        if a < old_e.len() && b < old_e.len() {
                            assert(e[a] == old_e[a] && e[b] == old_e[b]);
                        } else if a < old_e.len() {
                            assert(e[a] == old_e[a]);
                            assert(!has_name(old_e, k));
                        } else {
                            assert(e[b] == old_e[b]);
                            assert(!has_name(old_e, k));
                        }
                    }
                }
                assert(self@ =~= entries_map(old_e).insert(k, value)) by {
                    assert forall|q: Seq<char>| #[trigger]
                        entries_map(e).contains_key(q) == entries_map(old_e).insert(
                            k,
                            value,
                        ).contains_key(q) by {
                        if has_name(e, q) {
                            let j = choose|j: int| 0 <= j < e.len() && #[trigger] e[j].0@ == q;
                            if j < old_e.len() {
                                assert(old_e[j] == e[j]);
                            }
                        }
                        if has_name(old_e, q) {
                            let j = choose|j: int| 0 <= j < old_e.len() && #[trigger] old_e[j].0@ == q;
                            assert(old_e[j] == e[j]);
                        }
                        if q == k {
                            assert(e[old_e.len() as int].0@ == k);
                        }
                    }
                    assert forall|q: Seq<char>| #[trigger]
                        entries_map(e).contains_key(q) implies entries_map(e)[q]
                        == entries_map(old_e).insert(k, value)[q] by {
                        let j = choose|j: int| 0 <= j < e.len() && #[trigger] e[j].0@ == q;
                        lemma_entry_in_map(e, j);
                        if j < old_e.len() {
                            assert(old_e[j] == e[j]);
                            lemma_entry_in_map(old_e, j);
                        }
                    }
                }
            },
        }
    }

    /// Takes the entry for `name` out of the table, returning its value.
    pub fn remove(&mut self, name: &str) -> (r: Option<V>)
        requires
            old(self).wf(),
        ensures
            final(self).wf(),
            final(self)@ == old(self)@.remove(name@),
            match r {
                Some(v) => old(self)@.contains_key(name@) && v == old(self)@[name@],
                None => !old(self)@.contains_key(name@),
            },
    {
        let ghost k = name@;
        let ghost old_e = self.entries@;
        match self.find(name) {
            Some(i) => {
                proof {
                    lemma_entry_in_map(old_e, i as int);
                }
                let (_, v) = self.entries.remove(i);
                let ghost e = self.entries@;
                assert forall|a: int| 0 <= a < e.len() implies #[trigger] e[a] == (if a < i {
                    old_e[a]
                } else {
                    old_e[a + 1]
                }) by {}
                assert(unique_names(e)) by {
                    assert forall|a: int, b: int|
                        0 <= a < e.len() && 0 <= b < e.len() && a != b implies #[trigger] e[a].0@
                        != #[trigger] e[b].0@ by {
                        let oa = if a < i { a } else { a + 1 };
                        let ob = if b < i { b } else { b + 1 };
                        assert(e[a] == old_e[oa] && e[b] == old_e[ob]);
                    }
                }
                assert(self@ =~= entries_map(old_e).remove(k)) by {
                    assert forall|q: Seq<char>| #[trigger]
                        entries_map(e).contains_key(q) == entries_map(old_e).remove(
                            k,
                        ).contains_key(q) by {
                        if has_name(e, q) {
                            let j = choose|j: int| 0 <= j < e.len() && #[trigger] e[j].0@ == q;
                            let oj = if j < i { j } else { j + 1 };
                            assert(e[j] == old_e[oj]);
                        }
                        if has_name(old_e, q) && q != k {
                            let j = choose|j: int| 0 <= j < old_e.len() && #[trigger] old_e[j].0@ == q;
                            if j < i {
                                assert(e[j] == old_e[j]);
                            } else {
                                assert(j != i);
                                assert(e[j - 1] == old_e[j]);
                            }
                        }
                    }
                    assert forall|q: Seq<char>| #[trigger]
                        entries_map(e).contains_key(q) implies entries_map(e)[q]
                        == entries_map(old_e).remove(k)[q] by {
                        let j = choose|j: int| 0 <= j < e.len() && #[trigger] e[j].0@ == q;
                        let oj = if j < i { j } else { j + 1 };
                        assert(e[j] == old_e[oj]);
                        lemma_entry_in_map(e, j);
                        lemma_entry_in_map(old_e, oj);
                    }
                }
                Some(v)
            },
            None => {
                assert(self@ =~= old(self)@.remove(k));
                None
            },
        }
    }
}

} // verus!
