//! Sets and maps of names that are walked in name order.

use vstd::prelude::*;
use crate::text;
use crate::text::{chars_of, str_eq};

verus! {

/// The order of strings: by the first character in which they differ, a prefix
/// before what it is a prefix of.
pub open spec fn name_less(a: Seq<char>, b: Seq<char>) -> bool
    decreases a.len(),
{
    if b.len() == 0 {
        false
    } else if a.len() == 0 {
        true
    } else if a[0] == b[0] {
        name_less(a.drop_first(), b.drop_first())
    } else {
        a[0] < b[0]
    }
}

pub proof fn lemma_name_less_irreflexive(a: Seq<char>)
    ensures
        !name_less(a, a),
    decreases a.len(),
{
    if a.len() > 0 {
        lemma_name_less_irreflexive(a.drop_first());
    }
}

pub proof fn lemma_name_less_transitive(a: Seq<char>, b: Seq<char>, c: Seq<char>)
    requires
        name_less(a, b),
        name_less(b, c),
    ensures
        name_less(a, c),
    decreases a.len(),
{
    if a.len() > 0 && a[0] == b[0] && b[0] == c[0] {
        lemma_name_less_transitive(a.drop_first(), b.drop_first(), c.drop_first());
    }
}

pub proof fn lemma_name_less_total(a: Seq<char>, b: Seq<char>)
    ensures
        name_less(a, b) || a == b || name_less(b, a),
    decreases a.len(),
{
    if a.len() == 0 || b.len() == 0 {
        if a.len() == 0 && b.len() == 0 {
            assert(a =~= b);
        }
    } else if a[0] == b[0] {
        lemma_name_less_total(a.drop_first(), b.drop_first());
        if a.drop_first() == b.drop_first() {
            assert(a =~= seq![a[0]] + a.drop_first());
            assert(b =~= seq![b[0]] + b.drop_first());
        }
    }
}

/// Whether the first name comes before the second.
pub fn name_before(a: &str, b: &str) -> (less: bool)
    ensures
        less == name_less(a@, b@),
{
    let x = chars_of(a);
    let y = chars_of(b);
    let mut i: usize = 0;
    assert(a@.skip(0) =~= a@);
    assert(b@.skip(0) =~= b@);
    while i < x.len() && i < y.len()
        invariant
            i <= x@.len(),
            i <= y@.len(),
            x@ == a@,
            y@ == b@,
            name_less(a@, b@) == name_less(a@.skip(i as int), b@.skip(i as int)),
        decreases x@.len() - i,
    {
        if x[i] != y[i] {
            return x[i] < y[i];
        }
        assert(a@.skip(i as int).drop_first() =~= a@.skip(i + 1));
        assert(b@.skip(i as int).drop_first() =~= b@.skip(i + 1));
        i += 1;
    }
    i < y.len()
}

/// Names in strictly increasing order.
pub open spec fn in_order(names: Seq<Seq<char>>) -> bool {
    forall|i: int, j: int|
        0 <= i < j < names.len() ==> name_less(#[trigger] names[i], #[trigger] names[j])
}

/// Two increasing sequences with the same members are the same.
pub proof fn lemma_order_is_unique(a: Seq<Seq<char>>, b: Seq<Seq<char>>)
    requires
        in_order(a),
        in_order(b),
        forall|n: Seq<char>| a.contains(n) <==> b.contains(n),
    ensures
        a == b,
    decreases a.len(),
{
    if a.len() == 0 {
        if b.len() > 0 {
            assert(b.contains(b[0]));
            assert(a.contains(b[0]));
        }
        assert(a =~= b);
    } else {
        assert(a.contains(a[0]));
        assert(b.contains(a[0]));
        let i = choose|i: int| 0 <= i < b.len() && b[i] == a[0];
        assert(b.contains(b[0]));
        assert(a.contains(b[0]));
        let j = choose|j: int| 0 <= j < a.len() && a[j] == b[0];
        lemma_name_less_irreflexive(a[0]);
        if i > 0 && j > 0 {
            lemma_name_less_transitive(a[0], a[j], a[0]);
        }
        assert(a[0] == b[0]);
        let ta = a.drop_first();
        let tb = b.drop_first();
        assert forall|n: Seq<char>| ta.contains(n) <==> tb.contains(n) by {
            if ta.contains(n) {
                let k = choose|k: int| 0 <= k < ta.len() && ta[k] == n;
                assert(a[k + 1] == n);
                assert(a.contains(n));
                let m = choose|m: int| 0 <= m < b.len() && b[m] == n;
                if m == 0 {
                    lemma_name_less_irreflexive(a[0]);
                }
                assert(tb[m - 1] == n);
            }
            if tb.contains(n) {
                let k = choose|k: int| 0 <= k < tb.len() && tb[k] == n;
                assert(b[k + 1] == n);
                assert(b.contains(n));
                let m = choose|m: int| 0 <= m < a.len() && a[m] == n;
                if m == 0 {
                    lemma_name_less_irreflexive(a[0]);
                }
                assert(ta[m - 1] == n);
            }
        }
        assert(in_order(ta)) by {
            assert forall|x: int, y: int| 0 <= x < y < ta.len() implies name_less(
                #[trigger] ta[x],
                #[trigger] ta[y],
            ) by {
                assert(name_less(a[x + 1], a[y + 1]));
            }
        }
        assert(in_order(tb)) by {
            assert forall|x: int, y: int| 0 <= x < y < tb.len() implies name_less(
                #[trigger] tb[x],
                #[trigger] tb[y],
            ) by {
                assert(name_less(b[x + 1], b[y + 1]));
            }
        }
        lemma_order_is_unique(ta, tb);
        assert(a =~= seq![a[0]] + ta);
        assert(b =~= seq![b[0]] + tb);
    }
}

/// The names of a set in order.
pub open spec fn sorted(names: Set<Seq<char>>) -> Seq<Seq<char>> {
    choose|list: Seq<Seq<char>>|
        in_order(list) && forall|n: Seq<char>| #[trigger] list.contains(n) <==> names.contains(n)
}

/// Names that stand in order, and are those of the set, are the names of the set
/// in order.
pub proof fn lemma_sorted(list: Seq<Seq<char>>, names: Set<Seq<char>>)
    requires
        in_order(list),
        forall|n: Seq<char>| #[trigger] list.contains(n) <==> names.contains(n),
    ensures
        sorted(names) == list,
{
    lemma_order_is_unique(sorted(names), list);
}

/// Where a further name belongs among names that stand in order.
proof fn lemma_place(list: Seq<Seq<char>>, name: Seq<char>) -> (place: int)
    requires
        in_order(list),
        !list.contains(name),
    ensures
        0 <= place <= list.len(),
        forall|i: int| 0 <= i < place ==> name_less(#[trigger] list[i], name),
        forall|i: int| place <= i < list.len() ==> name_less(name, #[trigger] list[i]),
    decreases list.len(),
{
    let last = list.last();
    let rest = list.drop_last();
    if list.len() > 0 {
        assert(list.contains(last));
        lemma_name_less_total(last, name);
    }
    if list.len() == 0 {
        0
    } else if name_less(last, name) {
        assert forall|i: int| 0 <= i < list.len() implies name_less(#[trigger] list[i], name) by {
            if i < list.len() - 1 {
                lemma_name_less_transitive(list[i], last, name);
            }
        }
        list.len() as int
    } else {
        assert(!rest.contains(name)) by {
            if rest.contains(name) {
                let i = choose|i: int| 0 <= i < rest.len() && rest[i] == name;
                assert(list[i] == name);
            }
        }
        let place = lemma_place(rest, name);
        assert forall|i: int| 0 <= i < place implies name_less(#[trigger] list[i], name) by {
            assert(rest[i] == list[i]);
        }
        assert forall|i: int| place <= i < list.len() implies name_less(
            name,
            #[trigger] list[i],
        ) by {
            if i < rest.len() {
                assert(rest[i] == list[i]);
            }
        }
        place
    }
}

proof fn lemma_order_exists(names: Set<Seq<char>>) -> (list: Seq<Seq<char>>)
    requires
        names.finite(),
    ensures
        in_order(list),
        list.len() == names.len(),
        forall|n: Seq<char>| #[trigger] list.contains(n) <==> names.contains(n),
    decreases names.len(),
{
    if names.len() == 0 {
        assert(names =~= Set::<Seq<char>>::empty());
        Seq::empty()
    } else {
        let name = names.choose();
        let rest = lemma_order_exists(names.remove(name));
        assert(!rest.contains(name));
        let place = lemma_place(rest, name);
        let list = rest.insert(place, name);
        assert forall|i: int, j: int| 0 <= i < j < list.len() implies name_less(
            #[trigger] list[i],
            #[trigger] list[j],
        ) by {
            let a = if i < place {
                i
            } else {
                i - 1
            };
            let b = if j < place {
                j
            } else {
                j - 1
            };
            if i == place {
                assert(list[j] == rest[b]);
            } else if j == place {
                assert(list[i] == rest[a]);
            } else {
                assert(list[i] == rest[a] && list[j] == rest[b]);
            }
        }
        assert forall|n: Seq<char>| #[trigger] list.contains(n) <==> names.contains(n) by {
            if list.contains(n) {
                let i = choose|i: int| 0 <= i < list.len() && list[i] == n;
                if i < place {
                    assert(rest[i] == n);
                    assert(rest.contains(n));
                } else if i > place {
                    assert(rest[i - 1] == n);
                    assert(rest.contains(n));
                }
            }
            if names.contains(n) {
                if n == name {
                    assert(list[place] == n);
                } else {
                    assert(rest.contains(n));
                    let i = choose|i: int| 0 <= i < rest.len() && rest[i] == n;
                    if i < place {
                        assert(list[i] == n);
                    } else {
                        assert(list[i + 1] == n);
                    }
                }
            }
        }
        list
    }
}

/// The names of a finite set in order: each of them stands there once.
pub proof fn lemma_sorted_lists_all(names: Set<Seq<char>>)
    requires
        names.finite(),
    ensures
        in_order(sorted(names)),
        sorted(names).len() == names.len(),
        forall|n: Seq<char>| #[trigger] sorted(names).contains(n) <==> names.contains(n),
{
    let list = lemma_order_exists(names);
    lemma_sorted(list, names);
}

/// A map from names to values, walked in name order.
#[derive(Debug, Clone, PartialEq, Eq)]
pub struct NameMap<V> {
    keys: Vec<String>,
    values: Vec<V>,
}

impl<V> View for NameMap<V> {
    type V = Map<Seq<char>, V>;

    closed spec fn view(&self) -> Map<Seq<char>, V> {
        Map::new(
            |k: Seq<char>| text::texts(self.keys@).contains(k),
            |k: Seq<char>| self.values@[text::texts(self.keys@).index_of(k)],
        )
    }
}

impl<V> NameMap<V> {
    /// The names, in order.
    pub closed spec fn names(&self) -> Seq<Seq<char>> {
        text::texts(self.keys@)
    }

    /// The names stand in order, each with one value.
    pub closed spec fn wf(&self) -> bool {
        &&& self.keys@.len() == self.values@.len()
        &&& in_order(text::texts(self.keys@))
    }

    /// The names are those of the map, in order, each once.
    pub proof fn lemma_names(&self)
        requires
            self.wf(),
        ensures
            in_order(self.names()),
            forall|k: Seq<char>| #[trigger] self.names().contains(k) <==> self@.dom().contains(k),
    {
    }

    /// There are as many names as the map has entries.
    pub proof fn lemma_len(&self)
        requires
            self.wf(),
        ensures
            self@.dom().finite(),
            self@.dom().len() == self.names().len(),
            self.names().len() <= usize::MAX,
    {
        assert(self.keys.len() == self.keys@.len());
        let names = self.names();
        assert(names.no_duplicates()) by {
            assert forall|i: int, j: int|
                0 <= i < names.len() && 0 <= j < names.len() && i != j implies names[i]
                != names[j] by {
                lemma_name_less_irreflexive(names[i]);
                if i < j {
                    assert(name_less(names[i], names[j]));
                } else {
                    assert(name_less(names[j], names[i]));
                }
            }
        }
        names.unique_seq_to_set();
        assert(names.to_set() =~= self@.dom());
    }

    proof fn lemma_at(&self, i: int)
        requires
            self.wf(),
            0 <= i < self.keys@.len(),
        ensures
            self@.dom().contains(self.keys@[i]@),
            self@[self.keys@[i]@] == self.values@[i],
            text::texts(self.keys@).index_of(self.keys@[i]@) == i,
    {
        let names = text::texts(self.keys@);
        assert(names[i] == self.keys@[i]@);
        assert(names.contains(names[i]));
        let j = names.index_of(names[i]);
        assert(0 <= j < names.len() && names[j] == names[i]);
        lemma_name_less_irreflexive(names[i]);
    }

    pub fn new() -> (map: NameMap<V>)
        ensures
            map.wf(),
            map@ == Map::<Seq<char>, V>::empty(),
            map.names().len() == 0,
    {
        let map = NameMap { keys: Vec::new(), values: Vec::new() };
        assert(map@ =~= Map::<Seq<char>, V>::empty());
        map
    }

    pub fn len(&self) -> (len: usize)
        requires
            self.wf(),
        ensures
            len == self.names().len(),
            self@.dom().finite(),
            len == self@.dom().len(),
    {
        proof {
            self.lemma_len();
        }
        self.keys.len()
    }

    /// The name at the given place of the order.
    pub fn name_at(&self, index: usize) -> (name: &str)
        requires
            self.wf(),
            index < self.names().len(),
        ensures
            name@ == self.names()[index as int],
            self@.dom().contains(name@),
    {
        proof {
            self.lemma_at(index as int);
        }
        self.keys[index].as_str()
    }

    /// The value under the name at the given place of the order.
    pub fn value_at(&self, index: usize) -> (value: &V)
        requires
            self.wf(),
            index < self.names().len(),
        ensures
            *value == self@[self.names()[index as int]],
            self@.dom().contains(self.names()[index as int]),
    {
        proof {
            self.lemma_at(index as int);
        }
        &self.values[index]
    }

    /// Where the name stands, or where it would have to be inserted.
    fn place(&self, name: &str) -> (place: (bool, usize))
        requires
            self.wf(),
        ensures
            place.1 <= self.keys@.len(),
            place.0 == self@.dom().contains(name@),
            place.0 ==> place.1 < self.keys@.len() && self.keys@[place.1 as int]@ == name@,
            forall|i: int| 0 <= i < place.1 ==> name_less(#[trigger] self.keys@[i]@, name@),
            !place.0 ==> forall|i: int|
                place.1 <= i < self.keys@.len() ==> name_less(name@, #[trigger] self.keys@[i]@),
    {
        let mut i: usize = 0;
        while i < self.keys.len() && name_before(self.keys[i].as_str(), name)
            invariant
                i <= self.keys@.len(),
                forall|k: int| 0 <= k < i ==> name_less(#[trigger] self.keys@[k]@, name@),
            decreases self.keys@.len() - i,
        {
            i += 1;
        }
        let found = i < self.keys.len() && str_eq(self.keys[i].as_str(), name);
        proof {
            let names = text::texts(self.keys@);
            lemma_name_less_irreflexive(name@);
            if found {
                self.lemma_at(i as int);
            } else {
                assert forall|k: int| i <= k < self.keys@.len() implies name_less(
                    name@,
                    #[trigger] self.keys@[k]@,
                ) by {
                    lemma_name_less_total(self.keys@[i as int]@, name@);
                    if k > i {
                        assert(name_less(names[i as int], names[k]));
                        lemma_name_less_transitive(name@, names[i as int], names[k]);
                    }
                }
                if names.contains(name@) {
                    let k = names.index_of(name@);
                    assert(self.keys@[k]@ == name@);
                }
            }
        }
        (found, i)
    }

    pub fn contains(&self, name: &str) -> (found: bool)
        requires
            self.wf(),
        ensures
            found == self@.dom().contains(name@),
    {
        self.place(name).0
    }

    /// The value under the name.
    pub fn get(&self, name: &str) -> (value: Option<&V>)
        requires
            self.wf(),
        ensures
            match value {
                Some(v) => self@.dom().contains(name@) && *v == self@[name@],
                None => !self@.dom().contains(name@),
            },
    {
        let place = self.place(name);
        if place.0 {
            proof {
                self.lemma_at(place.1 as int);
            }
            Some(&self.values[place.1])
        } else {
            None
        }
    }

    /// Put a value under the name, in place of an earlier one.
    pub fn insert(&mut self, name: String, value: V)
        requires
            old(self).wf(),
        ensures
            final(self).wf(),
            final(self)@ == old(self)@.insert(name@, value),
            old(self)@.dom().contains(name@) ==> final(self).names() == old(self).names(),
    {
        let place = self.place(name.as_str());
        let at: usize = place.1;
        let ghost was = *self;
        let ghost key = name@;
        let ghost names = text::texts(self.keys@);
        if place.0 {
            self.values.set(at, value);
            proof {
                assert(text::texts(self.keys@) =~= names);
                assert forall|k: Seq<char>| was@.dom().contains(k) implies self@[k]
                    == was@.insert(key, value)[k] by {
                    let i = names.index_of(k);
                    was.lemma_at(i);
                    self.lemma_at(i);
                    was.lemma_at(at as int);
                }
                was.lemma_at(at as int);
                self.lemma_at(at as int);
                assert(self@ =~= was@.insert(key, value));
            }
        } else {
            self.keys.insert(at, name);
            self.values.insert(at, value);
            proof {
                let now = text::texts(self.keys@);
                assert(now =~= names.insert(at as int, key));
                assert forall|i: int, j: int| 0 <= i < j < now.len() implies name_less(
                    #[trigger] now[i],
                    #[trigger] now[j],
                ) by {
                    let i0 = if i < at { i } else { i - 1 };
                    let j0 = if j < at { j } else { j - 1 };
                    if i != at && j != at {
                        assert(now[i] == names[i0] && now[j] == names[j0]);
                    } else if i == at {
                        assert(now[j] == was.keys@[j0]@);
                    } else {
                        assert(now[i] == was.keys@[i0]@);
                    }
                }
                assert(self.wf());
                assert forall|k: Seq<char>| was@.insert(key, value).dom().contains(k) <==> self@.dom().contains(
                    k,
                ) by {
                    if names.contains(k) {
                        let i = names.index_of(k);
                        assert(now[if i < at { i } else { i + 1 }] == k);
                    }
                    if k == key {
                        assert(now[at as int] == k);
                    }
                    if now.contains(k) && k != key {
                        let i = now.index_of(k);
                        assert(names[if i < at { i } else { i - 1 }] == k);
                    }
                }
                assert forall|k: Seq<char>| self@.dom().contains(k) implies self@[k] == was@.insert(
                    key,
                    value,
                )[k] by {
                    let i = now.index_of(k);
                    self.lemma_at(i);
                    if k != key {
                        was.lemma_at(if i < at { i } else { i - 1 });
                    } else {
                        self.lemma_at(at as int);
                    }
                }
                assert(self@ =~= was@.insert(key, value));
            }
        }
    }

    /// Take the value under the name out of the map.
    pub fn remove(&mut self, name: &str) -> (value: Option<V>)
        requires
            old(self).wf(),
        ensures
            final(self).wf(),
            final(self)@ == old(self)@.remove(name@),
            match value {
                Some(v) => old(self)@.dom().contains(name@) && v == old(self)@[name@]
                    && final(self).names().len() == old(self).names().len() - 1,
                None => !old(self)@.dom().contains(name@) && *final(self) == *old(self),
            },
    {
        let place = self.place(name);
        let at: usize = place.1;
        let ghost was = *self;
        let ghost key = name@;
        let ghost names = text::texts(self.keys@);
        if !place.0 {
            assert(self@ =~= was@.remove(key));
            return None;
        }
        let _ = self.keys.remove(at);
        let value = self.values.remove(at);
        proof {
            let now = text::texts(self.keys@);
            assert(now =~= names.remove(at as int));
            was.lemma_at(at as int);
            assert forall|i: int, j: int| 0 <= i < j < now.len() implies name_less(
                #[trigger] now[i],
                #[trigger] now[j],
            ) by {
                let i0 = if i < at { i } else { i + 1 };
                let j0 = if j < at { j } else { j + 1 };
                assert(now[i] == names[i0] && now[j] == names[j0]);
            }
            assert forall|k: Seq<char>| was@.remove(key).dom().contains(k) <==> self@.dom().contains(k) by {
                if names.contains(k) && k != key {
                    let i = names.index_of(k);
                    assert(now[if i < at { i } else { i - 1 }] == k);
                }
                if now.contains(k) {
                    let i = now.index_of(k);
                    let i0 = if i < at { i } else { i + 1 };
                    assert(names[i0] == k);
                    was.lemma_at(i0);
                    was.lemma_at(at as int);
                }
            }
            assert forall|k: Seq<char>| self@.dom().contains(k) implies self@[k] == was@.remove(
                key,
            )[k] by {
                let i = now.index_of(k);
                self.lemma_at(i);
                was.lemma_at(if i < at { i } else { i + 1 });
            }
            assert(self@ =~= was@.remove(key));
        }
        Some(value)
    }
}

/// A set of names, walked in name order.
#[derive(Debug, Clone, PartialEq, Eq)]
pub struct NameSet {
    names: NameMap<()>,
}

impl View for NameSet {
    type V = Set<Seq<char>>;

    closed spec fn view(&self) -> Set<Seq<char>> {
        self.names@.dom()
    }
}

impl NameSet {
    /// The names, in order.
    pub closed spec fn names(&self) -> Seq<Seq<char>> {
        self.names.names()
    }

    pub closed spec fn wf(&self) -> bool {
        self.names.wf()
    }

    /// The names are those of the set, in order, each once.
    pub proof fn lemma_names(&self)
        requires
            self.wf(),
        ensures
            in_order(self.names()),
            forall|k: Seq<char>| #[trigger] self.names().contains(k) <==> self@.contains(k),
    {
        self.names.lemma_names();
    }

    pub fn new() -> (set: NameSet)
        ensures
            set.wf(),
            set@ == Set::<Seq<char>>::empty(),
            set.names().len() == 0,
    {
        let set = NameSet { names: NameMap::new() };
        assert(set@ =~= Set::<Seq<char>>::empty());
        set
    }

    pub fn len(&self) -> (len: usize)
        requires
            self.wf(),
        ensures
            len == self.names().len(),
    {
        self.names.len()
    }

    /// The name at the given place of the order.
    pub fn name_at(&self, index: usize) -> (name: &str)
        requires
            self.wf(),
            index < self.names().len(),
        ensures
            name@ == self.names()[index as int],
            self@.contains(name@),
    {
        self.names.name_at(index)
    }

    pub fn contains(&self, name: &str) -> (found: bool)
        requires
            self.wf(),
        ensures
            found == self@.contains(name@),
    {
        self.names.contains(name)
    }

    pub fn insert(&mut self, name: String)
        requires
            old(self).wf(),
        ensures
            final(self).wf(),
            final(self)@ == old(self)@.insert(name@),
    {
        self.names.insert(name, ());
        assert(self@ =~= old(self)@.insert(name@));
    }

    /// The names, in order.
    pub fn to_vec(&self) -> (list: Vec<String>)
        requires
            self.wf(),
        ensures
            text::texts(list@) == self.names(),
    {
        let mut list: Vec<String> = Vec::new();
        let mut i: usize = 0;
        while i < self.len()
            invariant
                self.wf(),
                i <= self.names().len(),
                text::texts(list@) == self.names().take(i as int),
            decreases self.names().len() - i,
        {
            let ghost before = text::texts(list@);
            list.push(self.name_at(i).to_owned());
            assert(text::texts(list@) =~= before.push(self.names()[i as int]));
            assert(self.names().take(i + 1) =~= self.names().take(i as int).push(
                self.names()[i as int],
            ));
            i += 1;
        }
        assert(self.names().take(i as int) =~= self.names());
        list
    }
}

} // verus!
