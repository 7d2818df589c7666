//! Sets that keep their items in order, and maps from names.
use crate::order::Ordered;
use crate::text::same;
use vstd::prelude::*;

verus! {

/// Every item comes before all that follow it, so none occurs twice.
pub open spec fn ascending<T: Ordered>(items: Seq<T::V>) -> bool {
    forall|i: int, j: int|
        0 <= i < j < items.len() ==> T::before(#[trigger] items[i], #[trigger] items[j])
}

/// `items` lists `set` in order.
pub open spec fn lists<T: Ordered>(items: Seq<T::V>, set: Set<T::V>) -> bool {
    ascending::<T>(items) && items.to_set() == set
}

/// The items of a finite set, in order.
pub open spec fn sorted<T: Ordered>(set: Set<T::V>) -> Seq<T::V> {
    choose|items: Seq<T::V>| lists::<T>(items, set)
}

proof fn lemma_lists_unique<T: Ordered>(a: Seq<T::V>, b: Seq<T::V>)
    requires
        ascending::<T>(a),
        ascending::<T>(b),
        a.to_set() == b.to_set(),
    ensures
        a == b,
    decreases a.len(),
{
    if a.len() == 0 {
        if b.len() > 0 {
            assert(b.to_set().contains(b[0]));
            assert(a.contains(b[0]));
        }
        assert(a =~= b);
    } else {
        assert(a.to_set().contains(a[0]));
        assert(b.contains(a[0]));
        let k = choose|k: int| 0 <= k < b.len() && b[k] == a[0];
        assert(b.to_set().contains(b[0]));
        assert(a.contains(b[0]));
        let m = choose|m: int| 0 <= m < a.len() && a[m] == b[0];
        T::irreflexive(a[0]);
        if k > 0 && m > 0 {
            assert(T::before(b[0], b[k]));
            assert(T::before(a[0], a[m]));
            T::transitive(a[0], b[0], a[0]);
        }
        assert(a[0] == b[0]);
        let x = a.skip(1);
        let y = b.skip(1);
        assert forall|v: T::V| x.contains(v) implies y.contains(v) by {
            let i = choose|i: int| 0 <= i < x.len() && x[i] == v;
            assert(a[i + 1] == v);
            assert(T::before(a[0], a[i + 1]));
            assert(a.to_set().contains(v));
            assert(b.contains(v));
            let j = choose|j: int| 0 <= j < b.len() && b[j] == v;
            assert(j > 0);
            assert(y[j - 1] == v);
        }
        assert forall|v: T::V| y.contains(v) implies x.contains(v) by {
            let i = choose|i: int| 0 <= i < y.len() && y[i] == v;
            assert(b[i + 1] == v);
            assert(T::before(b[0], b[i + 1]));
            assert(b.to_set().contains(v));
            assert(a.contains(v));
            let j = choose|j: int| 0 <= j < a.len() && a[j] == v;
            assert(j > 0);
            assert(x[j - 1] == v);
        }
        assert(x.to_set() =~= y.to_set());
        lemma_lists_unique::<T>(x, y);
        assert(a =~= seq![a[0]] + x);
        assert(b =~= seq![b[0]] + y);
    }
}

/// A set has one ordered list of its items.
pub proof fn lemma_sorted<T: Ordered>(items: Seq<T::V>, set: Set<T::V>)
    requires
        lists::<T>(items, set),
    ensures
        sorted::<T>(set) == items,
{
    lemma_lists_unique::<T>(sorted::<T>(set), items);
}

/// `items` with `item` put where it belongs.
spec fn placed<T: Ordered>(items: Seq<T::V>, item: T::V) -> Seq<T::V>
    decreases items.len(),
{
    if items.len() == 0 || T::before(item, items[0]) {
        seq![item] + items
    } else {
        seq![items[0]] + placed::<T>(items.skip(1), item)
    }
}

proof fn lemma_placed<T: Ordered>(items: Seq<T::V>, item: T::V)
    requires
        ascending::<T>(items),
        !items.contains(item),
    ensures
        ascending::<T>(placed::<T>(items, item)),
        placed::<T>(items, item).to_set() == items.to_set().insert(item),
    decreases items.len(),
{
    let all = placed::<T>(items, item);
    if items.len() == 0 || T::before(item, items[0]) {
        assert forall|i: int, j: int| 0 <= i < j < all.len() implies T::before(
            #[trigger] all[i],
            #[trigger] all[j],
        ) by {
            if i > 0 {
                assert(T::before(items[i - 1], items[j - 1]));
            } else if j > 1 {
                assert(T::before(items[0], items[j - 1]));
                T::transitive(item, items[0], items[j - 1]);
            }
        }
        assert forall|v: T::V| all.contains(v) <==> items.to_set().insert(item).contains(v) by {
            if items.contains(v) {
                let k = choose|k: int| 0 <= k < items.len() && items[k] == v;
                assert(all[k + 1] == v);
            }
            assert(all[0] == item);
        }
    } else {
        let rest = items.skip(1);
        let tail = placed::<T>(rest, item);
        assert forall|i: int, j: int| 0 <= i < j < rest.len() implies T::before(
            #[trigger] rest[i],
            #[trigger] rest[j],
        ) by {
            assert(T::before(items[i + 1], items[j + 1]));
        }
        if rest.contains(item) {
            let k = choose|k: int| 0 <= k < rest.len() && rest[k] == item;
            assert(items[k + 1] == item);
        }
        lemma_placed::<T>(rest, item);
        T::connected(item, items[0]);
        assert(items.contains(items[0]));
        assert forall|i: int, j: int| 0 <= i < j < all.len() implies T::before(
            #[trigger] all[i],
            #[trigger] all[j],
        ) by {
            assert(all[j] == tail[j - 1]);
            if i > 0 {
                assert(all[i] == tail[i - 1]);
            } else {
                assert(tail.to_set().contains(tail[j - 1]));
                if tail[j - 1] != item {
                    assert(rest.contains(tail[j - 1]));
                    let k = choose|k: int| 0 <= k < rest.len() && rest[k] == tail[j - 1];
                    assert(T::before(items[0], items[k + 1]));
                }
            }
        }
        assert forall|v: T::V| all.contains(v) <==> items.to_set().insert(item).contains(v) by {
            if all.contains(v) {
                let k = choose|k: int| 0 <= k < all.len() && all[k] == v;
                if k > 0 {
                    assert(tail[k - 1] == v);
                    assert(tail.to_set().contains(v));
                    if v != item {
                        assert(rest.contains(v));
                        let m = choose|m: int| 0 <= m < rest.len() && rest[m] == v;
                        assert(items[m + 1] == v);
                    }
                } else {
                    assert(items[0] == v);
                }
            }
            if items.contains(v) || v == item {
                if v != items[0] {
                    if items.contains(v) {
                        let m = choose|m: int| 0 <= m < items.len() && items[m] == v;
                        assert(rest[m - 1] == v);
                    }
                    assert(tail.to_set().contains(v));
                    let k = choose|k: int| 0 <= k < tail.len() && tail[k] == v;
                    assert(all[k + 1] == v);
                } else {
                    assert(all[0] == v);
                }
            }
        }
    }
    assert(all.to_set() =~= items.to_set().insert(item));
}

/// A finite set has an ordered list of its items.
pub proof fn lemma_sorted_lists<T: Ordered>(set: Set<T::V>)
    requires
        set.finite(),
    ensures
        lists::<T>(sorted::<T>(set), set),
    decreases set.len(),
{
    if set.len() == 0 {
        let none = Seq::<T::V>::empty();
        assert(none.to_set() =~= set);
        assert(lists::<T>(none, set));
    } else {
        let item = set.choose();
        let rest = set.remove(item);
        lemma_sorted_lists::<T>(rest);
        let items = sorted::<T>(rest);
        if items.contains(item) {
            assert(items.to_set().contains(item));
        }
        lemma_placed::<T>(items, item);
        assert(rest.insert(item) =~= set);
        assert(lists::<T>(placed::<T>(items, item), set));
    }
}

/// A set that keeps its items in order.
pub struct SortedSet<T: Ordered> {
    items: Vec<T>,
}

impl<T: Ordered> DeepView for SortedSet<T> {
    type V = Set<T::V>;

    closed spec fn deep_view(&self) -> Set<T::V> {
        self.items.deep_view().to_set()
    }
}

impl<T: Ordered> SortedSet<T> {
    #[verifier::type_invariant]
    spec fn in_order(self) -> bool {
        ascending::<T>(self.items.deep_view())
    }

    pub fn new() -> (r: Self)
        ensures
            r.deep_view() == Set::<T::V>::empty(),
    {
        let r = SortedSet { items: Vec::new() };
        assert(r.deep_view() =~= Set::<T::V>::empty());
        r
    }

    /// Where `item` stands, or would stand.
    fn position(items: &Vec<T>, item: &T) -> (r: usize)
        requires
            ascending::<T>(items.deep_view()),
        ensures
            r <= items.len(),
            forall|i: int|
                0 <= i < r ==> T::before(#[trigger] items.deep_view()[i], item.deep_view()),
            forall|i: int|
                r <= i < items.len() ==> !T::before(
                    #[trigger] items.deep_view()[i],
                    item.deep_view(),
                ),
            items.deep_view().contains(item.deep_view()) <==> r < items.len()
                && items.deep_view()[r as int] == item.deep_view(),
    {
        let ghost model = items.deep_view();
        let ghost v = item.deep_view();
        let mut i: usize = 0;
        while i < items.len() && items[i].precedes(item)
            invariant
                i <= items.len(),
                model == items.deep_view(),
                v == item.deep_view(),
                forall|j: int| 0 <= j < i ==> T::before(#[trigger] model[j], v),
            decreases items.len() - i,
        {
            assert(model[i as int] == items@[i as int].deep_view());
            i = i + 1;
        }
        proof {
            assert forall|j: int| i <= j < items.len() implies !T::before(#[trigger] model[j], v) by {
                assert(model[i as int] == items@[i as int].deep_view());
                if T::before(model[j], v) && j > i {
                    assert(T::before(model[i as int], model[j]));
                    T::transitive(model[i as int], model[j], v);
                }
            }
            if model.contains(v) {
                let k = choose|k: int| 0 <= k < model.len() && model[k] == v;
                T::irreflexive(v);
                if k < i {
                    assert(T::before(model[k], v));
                } else if k > i {
                    assert(T::before(model[i as int], model[k]));
                    assert(!T::before(model[i as int], v));
                }
            }
        }
        i
    }

    /// Whether `item` is in the set.
    pub fn contains(&self, item: &T) -> (r: bool)
        ensures
            r == self.deep_view().contains(item.deep_view()),
    {
        proof {
            use_type_invariant(self);
        }
        let ghost model = self.items.deep_view();
        let i = Self::position(&self.items, item);
        if i < self.items.len() {
            proof {
                T::connected(model[i as int], item.deep_view());
                assert(model[i as int] == self.items@[i as int].deep_view());
                T::irreflexive(item.deep_view());
            }
            !item.precedes(&self.items[i])
        } else {
            false
        }
    }

    /// Adds `item`, and says whether it was not yet there.
    pub fn insert(&mut self, item: T) -> (r: bool)
        ensures
            final(self).deep_view() == old(self).deep_view().insert(item.deep_view()),
            r == !old(self).deep_view().contains(item.deep_view()),
    {
        proof {
            use_type_invariant(&*self);
        }
        let mut items: Vec<T> = Vec::new();
        std::mem::swap(&mut items, &mut self.items);
        let ghost model = items.deep_view();
        let ghost v = item.deep_view();
        let i = Self::position(&items, &item);
        let found: bool = if i < items.len() {
            proof {
                T::connected(model[i as int], v);
                assert(model[i as int] == items@[i as int].deep_view());
                T::irreflexive(v);
            }
            !item.precedes(&items[i])
        } else {
            false
        };
        if found {
            assert(model.to_set().insert(v) =~= model.to_set());
        } else {
            items.insert(i, item);
            proof {
                let next = items.deep_view();
                assert(next =~= model.insert(i as int, v));
                assert forall|a: int, b: int| 0 <= a < b < next.len() implies T::before(
                    #[trigger] next[a],
                    #[trigger] next[b],
                ) by {
                    if a < i && b < i {
                        assert(T::before(model[a], model[b]));
                    } else if a < i && b == i {
                        assert(T::before(model[a], v));
                    } else if a < i {
                        assert(T::before(model[a], model[b - 1]));
                    } else if a == i {
                        T::connected(model[b - 1], v);
                        assert(!T::before(model[b - 1], v));
                        assert(model.contains(model[b - 1]));
                    } else {
                        assert(T::before(model[a - 1], model[b - 1]));
                    }
                }
                assert forall|w: T::V| next.contains(w) <==> model.to_set().insert(v).contains(w) by {
                    if next.contains(w) {
                        let k = choose|k: int| 0 <= k < next.len() && next[k] == w;
                        if k < i {
                            assert(model[k] == w);
                        } else if k > i {
                            assert(model[k - 1] == w);
                        }
                    }
                    if model.contains(w) {
                        let k = choose|k: int| 0 <= k < model.len() && model[k] == w;
                        if k < i {
                            assert(next[k] == w);
                        } else {
                            assert(next[k + 1] == w);
                        }
                    }
                    assert(next[i as int] == v);
                }
                assert(next.to_set() =~= model.to_set().insert(v));
            }
        }
        self.items = items;
        !found
    }

    /// The items, in order.
    pub fn as_vec(&self) -> (r: &Vec<T>)
        ensures
            r.deep_view() == sorted::<T>(self.deep_view()),
            lists::<T>(r.deep_view(), self.deep_view()),
    {
        proof {
            use_type_invariant(self);
            lemma_sorted::<T>(self.items.deep_view(), self.deep_view());
        }
        &self.items
    }

    /// The items, in order.
    pub fn into_vec(self) -> (r: Vec<T>)
        ensures
            r.deep_view() == sorted::<T>(self.deep_view()),
            lists::<T>(r.deep_view(), self.deep_view()),
    {
        proof {
            use_type_invariant(&self);
            lemma_sorted::<T>(self.items.deep_view(), self.deep_view());
        }
        self.items
    }
}

/// A map from names, in which no name occurs twice.
pub struct NameMap<V: DeepView> {
    entries: Vec<(String, V)>,
}

/// What `entries` says of `name`, by its first entry for it.
spec fn entry_of<V: DeepView>(entries: Seq<(String, V)>, name: Seq<char>) -> Option<V::V>
    decreases entries.len(),
{
    if entries.len() == 0 {
        None
    } else if entries[0].0@ == name {
        Some(entries[0].1.deep_view())
    } else {
        entry_of(entries.skip(1), name)
    }
}

impl<V: DeepView> DeepView for NameMap<V> {
    type V = Map<Seq<char>, V::V>;

    closed spec fn deep_view(&self) -> Map<Seq<char>, V::V> {
        Map::new(
            |name: Seq<char>| entry_of(self.entries@, name) is Some,
            |name: Seq<char>| entry_of(self.entries@, name)->0,
        )
    }
}

proof fn lemma_entry_at<V: DeepView>(entries: Seq<(String, V)>, i: int)
    requires
        0 <= i < entries.len(),
        forall|j: int| 0 <= j < i ==> (#[trigger] entries[j]).0@ != entries[i].0@,
    ensures
        entry_of(entries, entries[i].0@) == Some(entries[i].1.deep_view()),
    decreases i,
{
    if i > 0 {
        let rest = entries.skip(1);
        assert forall|j: int| 0 <= j < i - 1 implies (#[trigger] rest[j]).0@ != rest[i - 1].0@ by {
            assert(rest[j] == entries[j + 1]);
        }
        assert(entries[0].0@ != entries[i].0@);
        lemma_entry_at(rest, i - 1);
    }
}

proof fn lemma_entry_none<V: DeepView>(entries: Seq<(String, V)>, name: Seq<char>)
    requires
        forall|j: int| 0 <= j < entries.len() ==> (#[trigger] entries[j]).0@ != name,
    ensures
        entry_of(entries, name) is None,
    decreases entries.len(),
{
    if entries.len() > 0 {
        let rest = entries.skip(1);
        assert forall|j: int| 0 <= j < rest.len() implies (#[trigger] rest[j]).0@ != name by {
            assert(rest[j] == entries[j + 1]);
        }
        assert(entries[0].0@ != name);
        lemma_entry_none(rest, name);
    }
}

proof fn lemma_entry_update<V: DeepView>(
    entries: Seq<(String, V)>,
    i: int,
    value: V,
    name: Seq<char>,
)
    requires
        0 <= i < entries.len(),
        forall|j: int| 0 <= j < i ==> (#[trigger] entries[j]).0@ != entries[i].0@,
    ensures
        entry_of(entries.update(i, (entries[i].0, value)), name) == (if name == entries[i].0@ {
            Some(value.deep_view())
        } else {
            entry_of(entries, name)
        }),
    decreases i,
{
    let next = entries.update(i, (entries[i].0, value));
    if i > 0 {
        let rest = entries.skip(1);
        assert forall|j: int| 0 <= j < i - 1 implies (#[trigger] rest[j]).0@ != rest[i - 1].0@ by {
            assert(rest[j] == entries[j + 1]);
        }
        assert(entries[0].0@ != entries[i].0@);
        lemma_entry_update(rest, i - 1, value, name);
        assert(next.skip(1) =~= rest.update(i - 1, (rest[i - 1].0, value)));
    } else {
        assert(next.skip(1) =~= entries.skip(1));
    }
}

proof fn lemma_entry_push<V: DeepView>(entries: Seq<(String, V)>, entry: (String, V), name: Seq<char>)
    ensures
        entry_of(entries.push(entry), name) == (if entry_of(entries, name) is Some {
            entry_of(entries, name)
        } else if entry.0@ == name {
            Some(entry.1.deep_view())
        } else {
            None
        }),
    decreases entries.len(),
{
    reveal_with_fuel(entry_of, 2);
    let next = entries.push(entry);
    if entries.len() > 0 {
        lemma_entry_push(entries.skip(1), entry, name);
        assert(next.skip(1) =~= entries.skip(1).push(entry));
    } else {
        assert(next.skip(1) =~= Seq::<(String, V)>::empty());
    }
}

proof fn lemma_entry_names<V: DeepView>(entries: Seq<(String, V)>, name: Seq<char>)
    ensures
        entry_of(entries, name) is Some ==> entries.map_values(
            |entry: (String, V)| entry.0@,
        ).contains(name),
    decreases entries.len(),
{
    let names = entries.map_values(|entry: (String, V)| entry.0@);
    if entries.len() > 0 {
        let rest = entries.skip(1).map_values(|entry: (String, V)| entry.0@);
        lemma_entry_names(entries.skip(1), name);
        assert(rest =~= names.skip(1));
        if rest.contains(name) {
            let i = choose|i: int| 0 <= i < rest.len() && rest[i] == name;
            assert(names[i + 1] == name);
        }
        if entries[0].0@ == name {
            assert(names[0] == name);
        }
    }
}

impl<V: DeepView> NameMap<V> {
    /// A map holds finitely many names.
    pub proof fn lemma_finite(&self)
        ensures
            self.deep_view().dom().finite(),
    {
        let names = self.entries@.map_values(|entry: (String, V)| entry.0@);
        assert forall|name: Seq<char>| self.deep_view().dom().contains(name) implies
            names.to_set().contains(name) by {
            lemma_entry_names(self.entries@, name);
        }
        vstd::seq_lib::seq_to_set_is_finite(names);
        vstd::set_lib::lemma_set_subset_finite(names.to_set(), self.deep_view().dom());
    }

    #[verifier::type_invariant]
    spec fn names_differ(self) -> bool {
        forall|i: int, j: int|
            0 <= i < j < self.entries.len() ==> (#[trigger] self.entries[i]).0@ != (
            #[trigger] self.entries[j]).0@
    }

    pub fn new() -> (r: Self)
        ensures
            r.deep_view() == Map::<Seq<char>, V::V>::empty(),
    {
        let r = NameMap { entries: Vec::new() };
        assert(r.deep_view() =~= Map::<Seq<char>, V::V>::empty());
        r
    }

    /// What the map holds under `name`.
    pub fn get(&self, name: &str) -> (r: Option<&V>)
        ensures
            match r {
                Some(value) => self.deep_view().contains_key(name@)
                    && self.deep_view()[name@] == value.deep_view(),
                None => !self.deep_view().contains_key(name@),
            },
    {
        let mut i: usize = 0;
        while i < self.entries.len()
            invariant
                i <= self.entries.len(),
                forall|j: int| 0 <= j < i ==> (#[trigger] self.entries@[j]).0@ != name@,
            decreases self.entries.len() - i,
        {
            if same(self.entries[i].0.as_str(), name) {
                proof {
                    lemma_entry_at(self.entries@, i as int);
                }
                return Some(&self.entries[i].1);
            }
            i = i + 1;
        }
        proof {
            lemma_entry_none(self.entries@, name@);
        }
        None
    }

    /// Puts `value` under `name`, in place of what stood there.
    pub fn insert(&mut self, name: String, value: V)
        ensures
            final(self).deep_view() == old(self).deep_view().insert(name@, value.deep_view()),
    {
        proof {
            use_type_invariant(&*self);
        }
        let mut entries: Vec<(String, V)> = Vec::new();
        std::mem::swap(&mut entries, &mut self.entries);
        let ghost before = entries@;
        let mut i: usize = 0;
        while i < entries.len() && !same(entries[i].0.as_str(), name.as_str())
            invariant
                entries@ == before,
                i <= entries.len(),
                forall|j: int| 0 <= j < i ==> (#[trigger] entries@[j]).0@ != name@,
            decreases entries.len() - i,
        {
            i = i + 1;
        }
        if i < entries.len() {
            let key = entries[i].0.clone();
            entries[i] = (key, value);
            proof {
                assert forall|w: Seq<char>| #[trigger] entry_of(entries@, w) == (if w == name@ {
                    Some(value.deep_view())
                } else {
                    entry_of(before, w)
                }) by {
                    lemma_entry_update(before, i as int, value, w);
                }
            }
        } else {
            entries.push((name, value));
            proof {
                lemma_entry_none(before, name@);
                assert forall|w: Seq<char>| #[trigger] entry_of(entries@, w) == (if w == name@ {
                    Some(value.deep_view())
                } else {
                    entry_of(before, w)
                }) by {
                    lemma_entry_push(before, entries@[i as int], w);
                }
            }
        }
        self.entries = entries;
        assert(self.deep_view() =~= old(self).deep_view().insert(name@, value.deep_view()));
    }
}

} // verus!
