//! A table of running things by name: at most one under each name.

use crate::text;
use vstd::prelude::*;

verus! {

/// Values by name.
pub struct Registry<V> {
    entries: Vec<(String, V)>,
}

/// The map that a list of entries stands for; later entries win.
pub open spec fn entry_map<V>(entries: Seq<(String, V)>) -> Map<Seq<char>, V>
    decreases entries.len(),
{
    if entries.len() == 0 {
        Map::empty()
    } else {
        entry_map(entries.drop_last()).insert(entries.last().0@, entries.last().1)
    }
}

/// No name comes twice.
pub open spec fn distinct_names<V>(entries: Seq<(String, V)>) -> bool {
    forall|i: int, j: int|
        0 <= i < j < entries.len() ==> (#[trigger] entries[i]).0@ != (#[trigger] entries[j]).0@
}

proof fn lemma_entry_map<V>(entries: Seq<(String, V)>, name: Seq<char>)
    requires
        distinct_names(entries),
    ensures
        entry_map(entries).contains_key(name) <==> exists|i: int|
            0 <= i < entries.len() && (#[trigger] entries[i]).0@ == name,
        forall|i: int|
            0 <= i < entries.len() && (#[trigger] entries[i]).0@ == name ==> entry_map(
                entries,
            )[name] == entries[i].1,
    decreases entries.len(),
{
    if entries.len() > 0 {
        let front = entries.drop_last();
        assert(distinct_names(front)) by {
            assert forall|i: int, j: int| 0 <= i < j < front.len() implies (#[trigger] front[i]).0@
                != (#[trigger] front[j]).0@ by {
                assert(entries[i].0@ != entries[j].0@);
            }
        }
        lemma_entry_map(front, name);
        let last = entries.len() - 1;
        if entries[last].0@ != name {
            if entry_map(front).contains_key(name) {
                let i = choose|i: int| 0 <= i < front.len() && (#[trigger] front[i]).0@ == name;
                assert(entries[i].0@ == name);
            }
            assert forall|i: int| 0 <= i < entries.len() && (#[trigger] entries[i]).0@
                == name implies entry_map(entries)[name] == entries[i].1
                && entry_map(entries).contains_key(name) by {
                assert(i < last);
                assert(front[i].0@ == name);
            }
        } else {
            assert forall|i: int| 0 <= i < entries.len() && (#[trigger] entries[i]).0@
                == name implies entry_map(entries)[name] == entries[i].1 by {
                if i < last {
                    assert(entries[i].0@ != entries[last].0@);
                }
            }
        }
    }
}

/// Whether some values are those of a map in the order of some names: each name
/// of the map once.
pub open spec fn in_some_order<V>(
    map: Map<Seq<char>, V>,
    values: Seq<V>,
    names: Seq<Seq<char>>,
) -> bool {
    &&& names.no_duplicates()
    &&& forall|k: Seq<char>| #[trigger] names.contains(k) <==> map.contains_key(k)
    &&& values.len() == names.len()
    &&& forall|j: int| 0 <= j < names.len() ==> values[j] == map[#[trigger] names[j]]
}

/// Whether some values are those of a map, each once, in some order.
pub open spec fn handed_over<V>(map: Map<Seq<char>, V>, values: Seq<V>) -> bool {
    exists|names: Seq<Seq<char>>| in_some_order(map, values, names)
}

impl<V> View for Registry<V> {
    type V = Map<Seq<char>, V>;

    closed spec fn view(&self) -> Map<Seq<char>, V> {
        entry_map(self.entries@)
    }
}

impl<V> Registry<V> {
    /// No name comes twice.
    pub closed spec fn well_formed(&self) -> bool {
        distinct_names(self.entries@)
    }

    /// An empty table.
    pub fn new() -> (r: Self)
        ensures
            r.well_formed(),
            r@ == Map::<Seq<char>, V>::empty(),
    {
        Registry { entries: Vec::new() }
    }

    fn position(&self, name: &str) -> (r: Option<usize>)
        requires
            self.well_formed(),
        ensures
            match r {
                Some(i) => i < self.entries@.len() && self.entries@[i as int].0@ == name@
                    && self@.contains_key(name@) && self@[name@] == self.entries@[i as int].1,
                None => !self@.contains_key(name@),
            },
    {
        let mut i: usize = 0;
        proof {
            lemma_entry_map(self.entries@, name@);
        }
        while i < self.entries.len()
            invariant
                i <= self.entries@.len(),
                forall|j: int| 0 <= j < i ==> (#[trigger] self.entries@[j]).0@ != name@,
                self@.contains_key(name@) <==> exists|k: int|
                    0 <= k < self.entries@.len() && (#[trigger] self.entries@[k]).0@ == name@,
                forall|k: int|
                    0 <= k < self.entries@.len() && (#[trigger] self.entries@[k]).0@ == name@
                        ==> self@[name@] == self.entries@[k].1,
            decreases self.entries@.len() - i,
        {
            if text::same(self.entries[i].0.as_str(), name) {
                return Some(i);
            }
            i += 1;
        }
        None
    }

    /// Looks a name up.
    pub fn get(&self, name: &str) -> (r: Option<&V>)
        requires
            self.well_formed(),
        ensures
            match r {
                Some(v) => self@.contains_key(name@) && *v == self@[name@],
                None => !self@.contains_key(name@),
            },
    {
        match self.position(name) {
            Some(i) => Some(&self.entries[i].1),
            None => None,
        }
    }

    /// Takes a name out.
    pub fn remove(&mut self, name: &str) -> (r: Option<V>)
        requires
            old(self).well_formed(),
        ensures
            final(self).well_formed(),
            final(self)@ == old(self)@.remove(name@),
            match r {
                Some(v) => old(self)@.contains_key(name@) && v == old(self)@[name@],
                None => !old(self)@.contains_key(name@),
            },
    {
        match self.position(name) {
            None => {
                assert(self@.remove(name@) =~= self@);
                None
            },
            Some(i) => {
                let ghost before = self.entries@;
                let entry = self.entries.remove(i);
                proof {
                    let after = self.entries@;
                    assert(after =~= before.remove(i as int));
                    assert forall|a: int, b: int| 0 <= a < b < after.len() implies (
                    #[trigger] after[a]).0@ != (#[trigger] after[b]).0@ by {
                        let x = if a < i {
                            a
                        } else {
                            a + 1
                        };
                        let y = if b < i {
                            b
                        } else {
                            b + 1
                        };
                        assert(after[a] == before[x] && after[b] == before[y]);
                        assert(before[x].0@ != before[y].0@);
                    }
                    let shorter = entry_map(before).remove(name@);
                    assert forall|k: Seq<char>|
                        #![trigger entry_map(after).dom().contains(k)]
                        #![trigger shorter.dom().contains(k)]
                        entry_map(after).dom().contains(k) == shorter.dom().contains(k) && (
                        entry_map(after).dom().contains(k) ==> entry_map(after)[k]
                            == entry_map(before)[k]) by {
                        lemma_entry_map(after, k);
                        lemma_entry_map(before, k);
                        if entry_map(after).contains_key(k) {
                            let a = choose|a: int|
                                0 <= a < after.len() && (#[trigger] after[a]).0@ == k;
                            let x = if a < i {
                                a
                            } else {
                                a + 1
                            };
                            assert(after[a] == before[x]);
                            assert(before[x].0@ == k);
                            if x < i {
                                assert(before[x].0@ != before[i as int].0@);
                            } else {
                                assert(before[i as int].0@ != before[x].0@);
                            }
                        }
                        if entry_map(before).contains_key(k) && k != name@ {
                            let x = choose|x: int|
                                0 <= x < before.len() && (#[trigger] before[x]).0@ == k;
                            let a = if x < i {
                                x
                            } else {
                                x - 1
                            };
                            assert(after[a] == before[x]);
                            assert(after[a].0@ == k);
                        }
                    }
                    assert(entry_map(after) =~= shorter);
                }
                Some(entry.1)
            },
        }
    }

    /// Puts a value under a name, and hands back the one that it supersedes.
    pub fn insert(&mut self, name: &str, value: V) -> (r: Option<V>)
        requires
            old(self).well_formed(),
        ensures
            final(self).well_formed(),
            final(self)@ == old(self)@.insert(name@, value),
            match r {
                Some(v) => old(self)@.contains_key(name@) && v == old(self)@[name@],
                None => !old(self)@.contains_key(name@),
            },
    {
        let ghost first = self@;
        let superseded = self.remove(name);
        let ghost before = self.entries@;
        self.entries.push((text::owned(name), value));
        proof {
            let after = self.entries@;
            lemma_entry_map(before, name@);
            assert forall|a: int, b: int| 0 <= a < b < after.len() implies (
            #[trigger] after[a]).0@ != (#[trigger] after[b]).0@ by {
                assert(after[a] == before[a]);
                if b < before.len() {
                    assert(after[b] == before[b]);
                    assert(before[a].0@ != before[b].0@);
                }
            }
            assert(after.drop_last() =~= before);
            assert(self@ =~= first.insert(name@, value));
        }
        superseded
    }

    /// Empties the table, and hands every value back.
    pub fn take_all(&mut self) -> (r: Vec<V>)
        requires
            old(self).well_formed(),
        ensures
            final(self).well_formed(),
            final(self)@ == Map::<Seq<char>, V>::empty(),
            handed_over(old(self)@, r@),
    {
        let mut r: Vec<V> = Vec::new();
        let ghost first = self.entries@;
        let ghost whole = self@;
        assert(first.take(first.len() as int) =~= first);
        while self.entries.len() > 0
            invariant
                self.entries@.len() + r@.len() == first.len(),
                self.entries@ == first.take(self.entries@.len() as int),
                forall|j: int|
                    0 <= j < r@.len() ==> #[trigger] r@[j] == first[first.len() - 1 - j].1,
            decreases self.entries@.len(),
        {
            let ghost n = self.entries@.len() - 1;
            if let Some(entry) = self.entries.pop() {
                assert(entry == first[n]);
                r.push(entry.1);
                assert(self.entries@ =~= first.take(n));
            }
        }
        proof {
            let names = Seq::new(first.len(), |j: int| first[first.len() - 1 - j].0@);
            assert forall|k: Seq<char>| #[trigger] names.contains(k) <==> whole.contains_key(k) by {
                lemma_entry_map(first, k);
                if names.contains(k) {
                    let j = choose|j: int| 0 <= j < names.len() && names[j] == k;
                    assert(first[first.len() - 1 - j].0@ == k);
                }
                if whole.contains_key(k) {
                    let i = choose|i: int| 0 <= i < first.len() && (#[trigger] first[i]).0@ == k;
                    assert(names[first.len() - 1 - i] == k);
                }
            }
            assert forall|j: int| 0 <= j < names.len() implies r@[j] == whole[
                #[trigger] names[j]
            ] by {
                lemma_entry_map(first, names[j]);
                assert(first[first.len() - 1 - j].0@ == names[j]);
            }
            assert(in_some_order(whole, r@, names));
        }
        r
    }

    /// The names in the table, each once.
    pub fn names(&self) -> (r: Vec<String>)
        requires
            self.well_formed(),
        ensures
            text::texts(r@).no_duplicates(),
            forall|k: Seq<char>| #[trigger] text::texts(r@).contains(k) <==> self@.contains_key(k),
    {
        broadcast use text::lemma_texts_push;

        let mut r: Vec<String> = Vec::new();
        let mut i: usize = 0;
        while i < self.entries.len()
            invariant
                i <= self.entries@.len(),
                r@.len() == i,
                forall|j: int| 0 <= j < i ==> #[trigger] text::texts(r@)[j] == self.entries@[j].0@,
            decreases self.entries@.len() - i,
        {
            let ghost before = text::texts(r@);
            r.push(text::owned(self.entries[i].0.as_str()));
            assert(text::texts(r@) == before.push(self.entries@[i as int].0@));
            i += 1;
        }
        assert forall|k: Seq<char>| #[trigger] text::texts(r@).contains(k) <==> self@.contains_key(
            k,
        ) by {
            lemma_entry_map(self.entries@, k);
            if text::texts(r@).contains(k) {
                let j = choose|j: int| 0 <= j < text::texts(r@).len() && text::texts(r@)[j] == k;
                assert(self.entries@[j].0@ == k);
            }
            if self@.contains_key(k) {
                let j = choose|j: int|
                    0 <= j < self.entries@.len() && (#[trigger] self.entries@[j]).0@ == k;
                assert(text::texts(r@)[j] == k);
            }
        }
        r
    }
}

// ---------- laws ----------

/// What is put under a name is found under it, and nothing else changes.
pub proof fn law_what_is_put_is_found<V>(
    table: &mut Registry<V>,
    name: &str,
    value: V,
    superseded: Option<V>,
    after: &Registry<V>,
    other: &str,
    found: Option<&V>,
    beside: Option<&V>,
)
    requires
        call_ensures(Registry::<V>::insert, (table, name, value), superseded),
        *after == *final(table),
        call_ensures(Registry::<V>::get, (after, name), found),
        call_ensures(Registry::<V>::get, (after, other), beside),
        other@ != name@,
    ensures
        found is Some && *found->0 == value,
        beside is Some <==> old(table)@.contains_key(other@),
        beside matches Some(v) ==> *v == old(table)@[other@],
        superseded is Some <==> old(table)@.contains_key(name@),
        superseded matches Some(v) ==> v == old(table)@[name@],
{
}

/// What is taken out is handed back, and is not found again; the rest stays.
pub proof fn law_what_is_removed_is_gone<V>(
    table: &mut Registry<V>,
    name: &str,
    removed: Option<V>,
    after: &Registry<V>,
    other: &str,
    found: Option<&V>,
    beside: Option<&V>,
)
    requires
        call_ensures(Registry::<V>::remove, (table, name), removed),
        *after == *final(table),
        call_ensures(Registry::<V>::get, (after, name), found),
        call_ensures(Registry::<V>::get, (after, other), beside),
        other@ != name@,
    ensures
        found is None,
        removed is Some <==> old(table)@.contains_key(name@),
        removed matches Some(v) ==> v == old(table)@[name@],
        beside is Some <==> old(table)@.contains_key(other@),
        beside matches Some(v) ==> *v == old(table)@[other@],
{
}

/// An emptied table hands back as many values as it had names, and the names of
/// a table are its own, each once.
pub proof fn law_names_are_all_told<V>(table: &Registry<V>, r: Vec<String>, name: Seq<char>)
    requires
        call_ensures(Registry::<V>::names, (table,), r),
    ensures
        table@.contains_key(name) <==> exists|i: int|
            0 <= i < r@.len() && (#[trigger] r@[i])@ == name,
        forall|i: int, j: int|
            0 <= i < j < r@.len() ==> (#[trigger] r@[i])@ != (#[trigger] r@[j])@,
{
    let t = text::texts(r@);
    if table@.contains_key(name) {
        assert(t.contains(name));
        let i = choose|i: int| 0 <= i < t.len() && t[i] == name;
        assert(r@[i]@ == name);
    }
    if exists|i: int| 0 <= i < r@.len() && (#[trigger] r@[i])@ == name {
        let i = choose|i: int| 0 <= i < r@.len() && (#[trigger] r@[i])@ == name;
        assert(t[i] == name);
        assert(t.contains(name));
    }
    assert forall|i: int, j: int| 0 <= i < j < r@.len() implies (#[trigger] r@[i])@ != (
    #[trigger] r@[j])@ by {
        assert(t[i] == r@[i]@ && t[j] == r@[j]@);
    }
}

/// An emptied table is empty, and every value it held is handed back.
pub proof fn law_nothing_stays_in_an_emptied_table<V>(
    table: &mut Registry<V>,
    r: Vec<V>,
    name: Seq<char>,
)
    requires
        call_ensures(Registry::<V>::take_all, (table,), r),
    ensures
        !final(table)@.contains_key(name),
        old(table)@.contains_key(name) ==> exists|i: int|
            0 <= i < r@.len() && #[trigger] r@[i] == old(table)@[name],
{
    if old(table)@.contains_key(name) {
        let names = choose|names: Seq<Seq<char>>| in_some_order(old(table)@, r@, names);
        assert(names.contains(name));
        let i = choose|i: int| 0 <= i < names.len() && names[i] == name;
        assert(r@[i] == old(table)@[names[i]]);
    }
}

}
