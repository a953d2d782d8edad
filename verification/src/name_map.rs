//! A map from names to values, kept in the order of the names.

use vstd::prelude::*;

use crate::effective;
use crate::text;
use crate::text::{comes_before, same_text};

verus! {

/// A map from strings to values that lists its entries in the order of strings.
#[derive(Debug, PartialEq, Eq)]
pub struct NameMap<V> {
    entries: Vec<(String, V)>,
}

impl<V> NameMap<V> {
    /// The entries, in order.
    pub closed spec fn items(self) -> Seq<(Seq<char>, V)> {
        self.entries@.map_values(|e: (String, V)| (e.0@, e.1))
    }

    /// Every name stands once, and the names stand in order.
    pub closed spec fn wf(self) -> bool {
        sorted(self.items())
    }
}

/// Whether the names of `items` stand in strictly increasing order.
pub open spec fn sorted<V>(items: Seq<(Seq<char>, V)>) -> bool {
    forall|i: int, j: int|
        0 <= i < j < items.len() ==> text::text_before(
            (#[trigger] items[i]).0,
            (#[trigger] items[j]).0,
        )
}

/// Whether `items` holds an entry for `name`.
pub open spec fn has_name<V>(items: Seq<(Seq<char>, V)>, name: Seq<char>) -> bool {
    exists|i: int| 0 <= i < items.len() && (#[trigger] items[i]).0 == name
}

/// The map that `items` lists.
pub open spec fn map_of<V>(items: Seq<(Seq<char>, V)>) -> Map<Seq<char>, V> {
    Map::new(
        |name: Seq<char>| has_name(items, name),
        |name: Seq<char>|
            items[choose|i: int| 0 <= i < items.len() && (#[trigger] items[i]).0 == name].1,
    )
}

impl<V> View for NameMap<V> {
    type V = Map<Seq<char>, V>;

    open spec fn view(&self) -> Map<Seq<char>, V> {
        map_of(self.items())
    }
}

/// An entry of a sorted list is what the map gives its name, and stands there once.
pub proof fn sorted_entry<V>(items: Seq<(Seq<char>, V)>, i: int)
    requires
        sorted(items),
        0 <= i < items.len(),
    ensures
        map_of(items).contains_key(items[i].0),
        map_of(items)[items[i].0] == items[i].1,
        forall|j: int| 0 <= j < items.len() && (#[trigger] items[j]).0 == items[i].0 ==> j == i,
{
    let name = items[i].0;
    assert(has_name(items, name));
    text::text_before_is_total_order(name, name, name);
    let j = choose|j: int| 0 <= j < items.len() && (#[trigger] items[j]).0 == name;
    if j < i {
        assert(text::text_before(items[j].0, items[i].0));
    } else if i < j {
        assert(text::text_before(items[i].0, items[j].0));
    }
    assert forall|j: int| 0 <= j < items.len() && (#[trigger] items[j]).0 == name implies j
        == i by {
        if j < i {
            assert(text::text_before(items[j].0, items[i].0));
        } else if i < j {
            assert(text::text_before(items[i].0, items[j].0));
        }
    }
}

/// Replacing the value of entry `i` updates the map at its name.
proof fn lemma_replaced<V>(items: Seq<(Seq<char>, V)>, i: int, value: V)
    requires
        sorted(items),
        0 <= i < items.len(),
    ensures
        sorted(items.update(i, (items[i].0, value))),
        map_of(items.update(i, (items[i].0, value))) == map_of(items).insert(items[i].0, value),
{
    let after = items.update(i, (items[i].0, value));
    assert(forall|j: int| 0 <= j < items.len() ==> (#[trigger] after[j]).0 == items[j].0);
    assert forall|j: int, k: int| 0 <= j < k < after.len() implies text::text_before(
        (#[trigger] after[j]).0,
        (#[trigger] after[k]).0,
    ) by {
        assert(text::text_before(items[j].0, items[k].0));
    }
    let a = map_of(after);
    let b = map_of(items).insert(items[i].0, value);
    assert forall|name: Seq<char>|
        #![trigger a.dom().contains(name)]
        #![trigger b.dom().contains(name)]
        a.dom().contains(name) == b.dom().contains(name) && (a.dom().contains(name) ==> a[name]
            == b[name]) by {
        if has_name(after, name) {
            let j = choose|j: int| 0 <= j < after.len() && (#[trigger] after[j]).0 == name;
            sorted_entry(after, j);
            assert(items[j].0 == name);
            sorted_entry(items, j);
            sorted_entry(items, i);
        }
        if has_name(items, name) {
            let j = choose|j: int| 0 <= j < items.len() && (#[trigger] items[j]).0 == name;
            assert(after[j].0 == name);
        }
        assert(after[i].0 == items[i].0);
    }
    assert(a =~= b);
}

/// Inserting a new name at its place adds it to the map.
proof fn lemma_inserted<V>(items: Seq<(Seq<char>, V)>, i: int, name: Seq<char>, value: V)
    requires
        sorted(items),
        0 <= i <= items.len(),
        forall|j: int| 0 <= j < i ==> text::text_before((#[trigger] items[j]).0, name),
        forall|j: int| i <= j < items.len() ==> text::text_before(name, (#[trigger] items[j]).0),
    ensures
        sorted(items.insert(i, (name, value))),
        map_of(items.insert(i, (name, value))) == map_of(items).insert(name, value),
{
    let after = items.insert(i, (name, value));
    assert forall|j: int, k: int| 0 <= j < k < after.len() implies text::text_before(
        (#[trigger] after[j]).0,
        (#[trigger] after[k]).0,
    ) by {
        let j1 = if j < i { j } else { j - 1 };
        let k1 = if k < i { k } else { k - 1 };
        if j != i && k != i {
            assert(text::text_before(items[j1].0, items[k1].0));
        } else if j == i {
            assert(text::text_before(name, items[k1].0));
        } else {
            assert(text::text_before(items[j1].0, name));
        }
    }
    let a = map_of(after);
    let b = map_of(items).insert(name, value);
    assert forall|n: Seq<char>|
        #![trigger a.dom().contains(n)]
        #![trigger b.dom().contains(n)]
        a.dom().contains(n) == b.dom().contains(n) && (a.dom().contains(n) ==> a[n] == b[n]) by {
        if has_name(after, n) {
            let j = choose|j: int| 0 <= j < after.len() && (#[trigger] after[j]).0 == n;
            sorted_entry(after, j);
            sorted_entry(after, i);
            if j != i {
                let j1 = if j < i { j } else { j - 1 };
                assert(items[j1] == after[j]);
                sorted_entry(items, j1);
            }
        }
        if has_name(items, n) {
            let j = choose|j: int| 0 <= j < items.len() && (#[trigger] items[j]).0 == n;
            let j2 = if j < i { j } else { j + 1 };
            assert(after[j2] == items[j]);
        }
        assert(after[i].0 == name);
    }
    assert(a =~= b);
}

/// One more of the entries of a sorted list adds its name to the map.
pub proof fn taken_entry<V>(items: Seq<(Seq<char>, V)>, i: int)
    requires
        sorted(items),
        0 <= i < items.len(),
    ensures
        map_of(items.take(i + 1)) == map_of(items.take(i)).insert(items[i].0, items[i].1),
{
    let before = items.take(i);
    assert forall|j: int| 0 <= j < i implies text::text_before(
        (#[trigger] before[j]).0,
        items[i].0,
    ) by {
        assert(text::text_before(items[j].0, items[i].0));
    }
    assert forall|j: int, k: int| 0 <= j < k < before.len() implies text::text_before(
        (#[trigger] before[j]).0,
        (#[trigger] before[k]).0,
    ) by {
        assert(text::text_before(items[j].0, items[k].0));
    }
    lemma_inserted(before, i, items[i].0, items[i].1);
    assert(before.insert(i, (items[i].0, items[i].1)) =~= items.take(i + 1));
}

/// Removing entry `i` removes its name from the map.
proof fn lemma_removed<V>(items: Seq<(Seq<char>, V)>, i: int)
    requires
        sorted(items),
        0 <= i < items.len(),
    ensures
        sorted(items.remove(i)),
        map_of(items.remove(i)) == map_of(items).remove(items[i].0),
{
    let after = items.remove(i);
    assert forall|j: int, k: int| 0 <= j < k < after.len() implies text::text_before(
        (#[trigger] after[j]).0,
        (#[trigger] after[k]).0,
    ) by {
        let j1 = if j < i { j } else { j + 1 };
        let k1 = if k < i { k } else { k + 1 };
        assert(text::text_before(items[j1].0, items[k1].0));
    }
    let a = map_of(after);
    let b = map_of(items).remove(items[i].0);
    assert forall|n: Seq<char>|
        #![trigger a.dom().contains(n)]
        #![trigger b.dom().contains(n)]
        a.dom().contains(n) == b.dom().contains(n) && (a.dom().contains(n) ==> a[n] == b[n]) by {
        sorted_entry(items, i);
        if has_name(after, n) {
            let j = choose|j: int| 0 <= j < after.len() && (#[trigger] after[j]).0 == n;
            let j1 = if j < i { j } else { j + 1 };
            assert(items[j1] == after[j]);
            sorted_entry(after, j);
            sorted_entry(items, j1);
        }
        if has_name(items, n) {
            let j = choose|j: int| 0 <= j < items.len() && (#[trigger] items[j]).0 == n;
            if j != i {
                let j2 = if j < i { j } else { j - 1 };
                assert(after[j2] == items[j]);
            }
        }
    }
    assert(a =~= b);
}

impl<V> NameMap<V> {
    /// The names stand in order, and each stands for what the map gives it.
    pub proof fn wf_is_sorted(self)
        requires
            self.wf(),
        ensures
            sorted(self.items()),
    {
    }

    /// The map without entries.
    pub fn new() -> (r: NameMap<V>)
        ensures
            r.wf(),
            r@ == Map::<Seq<char>, V>::empty(),
            r.items().len() == 0,
    {
        let r = NameMap { entries: Vec::new() };
        assert(r@ =~= Map::<Seq<char>, V>::empty());
        r
    }

    /// The number of entries.
    pub fn len(&self) -> (r: usize)
        ensures
            r == self.items().len(),
    {
        self.entries.len()
    }

    /// The name of entry `i`.
    pub fn name_at(&self, i: usize) -> (r: &String)
        requires
            i < self.items().len(),
        ensures
            r@ == self.items()[i as int].0,
    {
        &self.entries[i].0
    }

    /// The value of entry `i`.
    pub fn value_at(&self, i: usize) -> (r: &V)
        requires
            i < self.items().len(),
        ensures
            *r == self.items()[i as int].1,
    {
        &self.entries[i].1
    }

    /// Where `name` stands, or else where it would be inserted.
    fn place(&self, name: &str) -> (r: (usize, bool))
        requires
            self.wf(),
        ensures
            r.0 <= self.items().len(),
            r.1 ==> r.0 < self.items().len() && self.items()[r.0 as int].0 == name@,
            !r.1 ==> forall|j: int|
                r.0 <= j < self.items().len() ==> text::text_before(
                    name@,
                    (#[trigger] self.items()[j]).0,
                ),
            !r.1 ==> forall|j: int|
                0 <= j < r.0 ==> text::text_before((#[trigger] self.items()[j]).0, name@),
    {
        let ghost items = self.items();
        let mut lo: usize = 0;
        let mut hi: usize = self.entries.len();
        while lo < hi
            invariant
                items == self.items(),
                sorted(items),
                items.len() == self.entries@.len(),
                lo <= hi <= items.len(),
                forall|j: int| 0 <= j < lo ==> text::text_before((#[trigger] items[j]).0, name@),
                forall|j: int|
                    hi <= j < items.len() ==> text::text_before(name@, (#[trigger] items[j]).0),
            decreases hi - lo,
        {
            let mid: usize = lo + (hi - lo) / 2;
            let key = self.entries[mid].0.as_str();
            assert(key@ == items[mid as int].0);
            if same_text(key, name) {
                return (mid, true);
            }
            if comes_before(key, name) {
                proof {
                    assert forall|j: int| 0 <= j < mid + 1 implies text::text_before(
                        (#[trigger] items[j]).0,
                        name@,
                    ) by {
                        if j < mid {
                            assert(text::text_before(items[j].0, items[mid as int].0));
                            text::text_before_is_total_order(items[j].0, key@, name@);
                        }
                    }
                }
                lo = mid + 1;
            } else {
                proof {
                    text::text_before_is_total_order(name@, key@, name@);
                    assert forall|j: int| mid <= j < items.len() implies text::text_before(
                        name@,
                        (#[trigger] items[j]).0,
                    ) by {
                        if j > mid {
                            assert(text::text_before(items[mid as int].0, items[j].0));
                            text::text_before_is_total_order(name@, key@, items[j].0);
                        }
                    }
                }
                hi = mid;
            }
        }
        (lo, false)
    }

    /// A name that would be inserted has no entry.
    proof fn lemma_absent(self, at: int, name: Seq<char>)
        requires
            0 <= at <= self.items().len(),
            forall|j: int|
                at <= j < self.items().len() ==> text::text_before(
                    name,
                    (#[trigger] self.items()[j]).0,
                ),
            forall|j: int|
                0 <= j < at ==> text::text_before((#[trigger] self.items()[j]).0, name),
        ensures
            !self@.contains_key(name),
    {
        text::text_before_is_total_order(name, name, name);
        if has_name(self.items(), name) {
            let j = choose|j: int|
                0 <= j < self.items().len() && (#[trigger] self.items()[j]).0 == name;
            assert(text::text_before(self.items()[j].0, name) || text::text_before(
                name,
                self.items()[j].0,
            ));
        }
    }

    /// The value of `name`.
    pub fn get(&self, name: &str) -> (r: Option<&V>)
        requires
            self.wf(),
        ensures
            match r {
                Some(v) => self@.contains_key(name@) && *v == self@[name@],
                None => !self@.contains_key(name@),
            },
    {
        let (at, found) = self.place(name);
        if found {
            proof {
                sorted_entry(self.items(), at as int);
            }
            Some(&self.entries[at].1)
        } else {
            proof {
                self.lemma_absent(at as int, name@);
            }
            None
        }
    }

    /// Whether `name` has an entry.
    pub fn contains(&self, name: &str) -> (r: bool)
        requires
            self.wf(),
        ensures
            r == self@.contains_key(name@),
    {
        self.get(name).is_some()
    }

    /// Gives `name` a value, in place of the one that it had.
    pub fn insert(&mut self, name: &str, value: V)
        requires
            old(self).wf(),
        ensures
            final(self).wf(),
            final(self)@ == old(self)@.insert(name@, value),
    {
        let (at, found) = self.place(name);
        let ghost items = self.items();
        if found {
            self.entries[at].1 = value;
            proof {
                assert(self.items() =~= items.update(at as int, (items[at as int].0, value)));
                lemma_replaced(items, at as int, value);
            }
        } else {
            let key = name.to_owned();
            self.entries.insert(at, (key, value));
            proof {
                assert(self.items() =~= items.insert(at as int, (name@, value)));
                lemma_inserted(items, at as int, name@, value);
            }
        }
    }

    /// Takes the entry of `name` out.
    pub fn remove(&mut self, name: &str) -> (r: Option<V>)
        requires
            old(self).wf(),
        ensures
            final(self).wf(),
            final(self)@ == old(self)@.remove(name@),
            match r {
                Some(v) => old(self)@.contains_key(name@) && v == old(self)@[name@],
                None => !old(self)@.contains_key(name@),
            },
    {
        let (at, found) = self.place(name);
        let ghost items = self.items();
        if found {
            let (_, value) = self.entries.remove(at);
            proof {
                sorted_entry(items, at as int);
                assert(self.items() =~= items.remove(at as int));
                lemma_removed(items, at as int);
            }
            Some(value)
        } else {
            proof {
                self.lemma_absent(at as int, name@);
                assert(self@.remove(name@) =~= self@);
            }
            None
        }
    }
}

/// The entries of a map of strings, in order.
pub open spec fn text_items(m: NameMap<String>) -> Seq<(Seq<char>, Seq<char>)> {
    m.items().map_values(|e: (Seq<char>, String)| (e.0, e.1@))
}

/// What a map of strings holds.
pub open spec fn texts(m: NameMap<String>) -> Map<Seq<char>, Seq<char>> {
    m@.map_values(|s: String| s@)
}

/// The entries of a map of strings list what it holds, each name once, in order.
pub proof fn text_items_list_texts(m: NameMap<String>)
    requires
        m.wf(),
    ensures
        effective::lists_text(text_items(m), texts(m)),
{
    let s = text_items(m);
    let items = m.items();
    assert forall|i: int, j: int| 0 <= i < j < s.len() implies text::text_before(
        (#[trigger] s[i]).0,
        (#[trigger] s[j]).0,
    ) by {
        assert(text::text_before(items[i].0, items[j].0));
    }
    assert forall|i: int| 0 <= i < s.len() implies texts(m).contains_key((#[trigger] s[i]).0)
        && texts(m)[s[i].0] == s[i].1 by {
        sorted_entry(items, i);
    }
    assert forall|k: Seq<char>| #[trigger] texts(m).contains_key(k) implies exists|i: int|
        0 <= i < s.len() && (#[trigger] s[i]).0 == k by {
        assert(has_name(items, k));
        let i = choose|i: int| 0 <= i < items.len() && (#[trigger] items[i]).0 == k;
        assert(s[i].0 == k);
    }
}

/// A map of strings is finite.
pub proof fn texts_are_finite(m: NameMap<String>)
    ensures
        texts(m).dom().finite(),
{
    let names = m.items().map_values(|e: (Seq<char>, String)| e.0);
    vstd::seq_lib::seq_to_set_is_finite(names);
    assert forall|name: Seq<char>| texts(m).dom().contains(name) implies #[trigger] names.to_set()
        .contains(name) by {
        assert(has_name(m.items(), name));
        let i = choose|i: int| 0 <= i < m.items().len() && (#[trigger] m.items()[i]).0 == name;
        assert(names[i] == name);
    }
    assert(texts(m).dom() =~= texts(m).dom().intersect(names.to_set()));
}

impl Clone for NameMap<String> {
    fn clone(&self) -> (r: Self)
        ensures
            r.items() == self.items(),
            r@ == self@,
            self.wf() ==> r.wf(),
    {
        let mut entries: Vec<(String, String)> = Vec::new();
        let mut i: usize = 0;
        while i < self.entries.len()
            invariant
                i <= self.entries@.len(),
                entries@ == self.entries@.take(i as int),
            decreases self.entries@.len() - i,
        {
            let name = self.entries[i].0.clone();
            let value = self.entries[i].1.clone();
            entries.push((name, value));
            i += 1;
            assert(entries@ =~= self.entries@.take(i as int));
        }
        let r = NameMap { entries };
        assert(r.entries@ =~= self.entries@);
        r
    }
}

} // verus!
