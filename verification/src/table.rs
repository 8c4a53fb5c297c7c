//! Ordered tables.
//!
//! A `Table` maps keys to values. Its entries are held in one vector, sorted by
//! key, with no key twice: two tables with the same content walk their entries
//! in the same order, whatever the order in which they were filled.
use crate::text::{
    text_before, text_precedes, text_precedes_irreflexive, text_precedes_total,
    text_precedes_transitive,
};
use vstd::prelude::*;

verus! {

/// A key of a `Table`: its views are totally ordered.
pub trait TableKey: View + Sized {
    /// `a` comes strictly before `b`.
    spec fn precedes(a: Self::V, b: Self::V) -> bool;

    /// No key comes before itself.
    proof fn precedes_irreflexive(a: Self::V)
        ensures
            !Self::precedes(a, a),
    ;

    /// The order is transitive.
    proof fn precedes_transitive(a: Self::V, b: Self::V, c: Self::V)
        requires
            Self::precedes(a, b),
            Self::precedes(b, c),
        ensures
            Self::precedes(a, c),
    ;

    /// Of two different keys one comes before the other.
    proof fn precedes_total(a: Self::V, b: Self::V)
        ensures
            a == b || Self::precedes(a, b) || Self::precedes(b, a),
    ;

    /// Tells whether this key comes strictly before `other`.
    fn before(&self, other: &Self) -> (r: bool)
        ensures
            r == Self::precedes(self@, other@),
    ;
}

impl TableKey for String {
    open spec fn precedes(a: Seq<char>, b: Seq<char>) -> bool {
        text_precedes(a, b)
    }

    proof fn precedes_irreflexive(a: Seq<char>) {
        text_precedes_irreflexive(a);
    }

    proof fn precedes_transitive(a: Seq<char>, b: Seq<char>, c: Seq<char>) {
        text_precedes_transitive(a, b, c);
    }

    proof fn precedes_total(a: Seq<char>, b: Seq<char>) {
        text_precedes_total(a, b);
    }

    fn before(&self, other: &String) -> (r: bool) {
        text_before(self.as_str(), other.as_str())
    }
}

/// The keys of `items` stand in strictly ascending order.
pub open spec fn ascending<K: TableKey, V>(items: Seq<(K, V)>) -> bool {
    forall|i: int, j: int|
        0 <= i < j < items.len() ==> K::precedes((#[trigger] items[i]).0@, (#[trigger] items[j]).0@)
}

/// Where `key` stands in `items`.
pub open spec fn holds_at<K: TableKey, V>(items: Seq<(K, V)>, key: K::V, i: int) -> bool {
    0 <= i < items.len() && items[i].0@ == key
}

/// The map that `items` stand for.
pub open spec fn items_map<K: TableKey, V>(items: Seq<(K, V)>) -> Map<K::V, V> {
    Map::new(
        |key: K::V| exists|i: int| #[trigger] holds_at(items, key, i),
        |key: K::V| items[choose|i: int| #[trigger] holds_at(items, key, i)].1,
    )
}

/// A map from keys to values, with its entries in the order of their keys.
pub struct Table<K: TableKey, V> {
    entries: Vec<(K, V)>,
}

impl<K: TableKey, V> View for Table<K, V> {
    type V = Map<K::V, V>;

    open spec fn view(&self) -> Map<K::V, V> {
        items_map(self.items())
    }
}

/// In an ascending list each key stands once.
proof fn lemma_key_unique<K: TableKey, V>(items: Seq<(K, V)>, i: int, j: int)
    requires
        ascending(items),
        0 <= i < items.len(),
        0 <= j < items.len(),
        items[i].0@ == items[j].0@,
    ensures
        i == j,
{
    K::precedes_irreflexive(items[i].0@);
}

/// What an ascending list holds at an index is what its map holds for the key.
pub proof fn lemma_item_in_map<K: TableKey, V>(items: Seq<(K, V)>, i: int)
    requires
        ascending(items),
        0 <= i < items.len(),
    ensures
        items_map(items).contains_key(items[i].0@),
        items_map(items)[items[i].0@] == items[i].1,
{
    let key = items[i].0@;
    assert(holds_at(items, key, i));
    let j = choose|j: int| #[trigger] holds_at(items, key, j);
    lemma_key_unique(items, i, j);
}

impl<K: TableKey, V> Table<K, V> {
    /// The entries, in the order of their keys.
    pub closed spec fn items(&self) -> Seq<(K, V)> {
        self.entries@
    }

    #[verifier::type_invariant]
    spec fn sorted(self) -> bool {
        ascending(self.entries@)
    }

    /// A table without entries.
    pub fn new() -> (r: Self)
        ensures
            r@ == Map::<K::V, V>::empty(),
            r.items().len() == 0,
    {
        let r = Table { entries: Vec::new() };
        assert(r@ =~= Map::<K::V, V>::empty());
        r
    }

    /// The number of entries. The entries stand in the order of their keys.
    pub fn len(&self) -> (r: usize)
        ensures
            r == self.items().len(),
            r == self@.dom().len(),
            self@.dom().finite(),
            ascending(self.items()),
    {
        proof {
            use_type_invariant(self);
            lemma_map_size(self.entries@);
        }
        self.entries.len()
    }

    /// Where `key` stands, or where it would be put.
    fn find(&self, key: &K) -> (r: (bool, usize))
        ensures
            r.1 <= self.entries@.len(),
            r.0 ==> r.1 < self.entries@.len() && self.entries@[r.1 as int].0@ == key@,
            r.0 == self@.contains_key(key@),
            forall|i: int| 0 <= i < r.1 ==> K::precedes((#[trigger] self.entries@[i]).0@, key@),
            !r.0 ==> forall|i: int|
                r.1 <= i < self.entries@.len() ==> K::precedes(
                    key@,
                    (#[trigger] self.entries@[i]).0@,
                ),
    {
        proof {
            use_type_invariant(self);
        }
        let mut lo: usize = 0;
        let mut hi: usize = self.entries.len();
        while lo < hi
            invariant
                ascending(self.entries@),
                lo <= hi <= self.entries@.len(),
                forall|i: int| 0 <= i < lo ==> K::precedes((#[trigger] self.entries@[i]).0@, key@),
                forall|i: int|
                    hi <= i < self.entries@.len() ==> !K::precedes(
                        (#[trigger] self.entries@[i]).0@,
                        key@,
                    ),
            decreases hi - lo,
        {
            let mid: usize = lo + (hi - lo) / 2;
            if self.entries[mid].0.before(key) {
                assert forall|i: int| 0 <= i < mid + 1 implies K::precedes(
                    (#[trigger] self.entries@[i]).0@,
                    key@,
                ) by {
                    if i < mid {
                        K::precedes_transitive(
                            self.entries@[i].0@,
                            self.entries@[mid as int].0@,
                            key@,
                        );
                    }
                }
                lo = mid + 1;
            } else {
                assert forall|i: int| mid <= i < self.entries@.len() implies !K::precedes(
                    (#[trigger] self.entries@[i]).0@,
                    key@,
                ) by {
                    if i > mid && K::precedes(self.entries@[i].0@, key@) {
                        K::precedes_transitive(
                            self.entries@[mid as int].0@,
                            self.entries@[i].0@,
                            key@,
                        );
                    }
                }
                hi = mid;
            }
        }
        let found = lo < self.entries.len() && !key.before(&self.entries[lo].0);
        proof {
            if lo < self.entries@.len() {
                K::precedes_total(self.entries@[lo as int].0@, key@);
            }
            if found {
                K::precedes_irreflexive(key@);
                assert(holds_at(self.entries@, key@, lo as int));
            } else {
                assert forall|i: int| lo <= i < self.entries@.len() implies K::precedes(
                    key@,
                    (#[trigger] self.entries@[i]).0@,
                ) by {
                    if i > lo {
                        K::precedes_transitive(
                            key@,
                            self.entries@[lo as int].0@,
                            self.entries@[i].0@,
                        );
                    }
                }
                assert forall|i: int| !#[trigger] holds_at(self.entries@, key@, i) by {
                    if holds_at(self.entries@, key@, i) {
                        K::precedes_irreflexive(key@);
                    }
                }
            }
        }
        (found, lo)
    }

    /// Tells whether the table has an entry for `key`.
    pub fn contains_key(&self, key: &K) -> (r: bool)
        ensures
            r == self@.contains_key(key@),
    {
        self.find(key).0
    }

    /// The value of `key`, where there is one.
    pub fn get(&self, key: &K) -> (r: Option<&V>)
        ensures
            match r {
                Some(v) => self@.contains_key(key@) && *v == self@[key@],
                None => !self@.contains_key(key@),
            },
    {
        let (found, at) = self.find(key);
        if found {
            proof {
                use_type_invariant(self);
                lemma_item_in_map(self.entries@, at as int);
            }
            Some(&self.entries[at].1)
        } else {
            None
        }
    }

    /// The key of the entry at `i`.
    pub fn key_at(&self, i: usize) -> (r: &K)
        requires
            i < self.items().len(),
        ensures
            *r == self.items()[i as int].0,
    {
        &self.entries[i].0
    }

    /// The value of the entry at `i`.
    pub fn value_at(&self, i: usize) -> (r: &V)
        requires
            i < self.items().len(),
        ensures
            *r == self.items()[i as int].1,
    {
        &self.entries[i].1
    }

    /// Gives `key` the value `value`, in place of the value it had.
    pub fn insert(&mut self, key: K, value: V)
        ensures
            final(self)@ == old(self)@.insert(key@, value),
    {
        proof {
            use_type_invariant(&*self);
        }
        let (found, at) = self.find(&key);
        let ghost before = self.entries@;
        let ghost key_view = key@;
        let mut entries: Vec<(K, V)> = Vec::new();
        std::mem::swap(&mut entries, &mut self.entries);
        if found {
            entries.set(at, (key, value));
        } else {
            entries.insert(at, (key, value));
        }
        proof {
            assert(ascending(entries@)) by {
                if found {
                    assert(entries@ == before.update(at as int, (key, value)));
                } else {
                    assert(entries@ == before.insert(at as int, (key, value)));
                }
            }
            lemma_after_insert(before, entries@, key_view, value, at as int, found);
        }
        self.entries = entries;
    }
}

impl<K: TableKey + Copy, V: Copy> Table<K, V> {
    /// Keeps the entries whose value `keep` accepts, and no others.
    pub(crate) fn retain<F: Fn(V) -> bool>(&mut self, keep: F, Ghost(kept): Ghost<spec_fn(V) -> bool>)
        requires
            forall|v: V| call_requires(keep, (v,)),
            forall|v: V, b: bool| call_ensures(keep, (v,), b) ==> b == kept(v),
        ensures
            final(self)@ == old(self)@.restrict(
                Set::new(|key: K::V| old(self)@.contains_key(key) && kept(old(self)@[key])),
            ),
    {
        proof {
            use_type_invariant(&*self);
        }
        let ghost all = self.entries@;
        let mut out: Vec<(K, V)> = Vec::new();
        let n: usize = self.entries.len();
        let mut i: usize = 0;
        while i < n
            invariant
                i <= n == all.len(),
                self.entries@ == all,
                ascending(all),
                ascending(out@),
                forall|v: V| call_requires(keep, (v,)),
                forall|v: V, b: bool| call_ensures(keep, (v,), b) ==> b == kept(v),
                forall|k: int|
                    0 <= k < out@.len() ==> kept((#[trigger] out@[k]).1) && exists|j: int|
                        0 <= j < i && out@[k] == #[trigger] all[j],
                forall|j: int|
                    0 <= j < i && kept((#[trigger] all[j]).1) ==> exists|k: int|
                        0 <= k < out@.len() && #[trigger] out@[k] == all[j],
            decreases n - i,
        {
            let entry = self.entries[i];
            let ghost done = out@;
            if keep(entry.1) {
                out.push(entry);
                assert forall|j: int| 0 <= j < i + 1 && kept((#[trigger] all[j]).1) implies exists|
                    k: int,
                |
                    0 <= k < out@.len() && #[trigger] out@[k] == all[j] by {
                    if j < i {
                        let k = choose|k: int| 0 <= k < done.len() && #[trigger] done[k] == all[j];
                        assert(out@[k] == all[j]);
                    } else {
                        assert(out@[done.len() as int] == all[j]);
                    }
                }
            }
            i = i + 1;
        }
        proof {
            let wanted = items_map(all).restrict(
                Set::new(|key: K::V| items_map(all).contains_key(key) && kept(items_map(all)[key])),
            );
            let got = items_map(out@);
            assert forall|key: K::V| #[trigger] got.contains_key(key) implies wanted.contains_key(key)
                && got[key] == wanted[key] by {
                let k = choose|k: int| #[trigger] holds_at(out@, key, k);
                let j = choose|j: int| 0 <= j < n && out@[k] == #[trigger] all[j];
                lemma_item_in_map(out@, k);
                lemma_item_in_map(all, j);
            }
            assert forall|key: K::V| #[trigger] wanted.contains_key(key) implies got.contains_key(
                key,
            ) by {
                let j = choose|j: int| #[trigger] holds_at(all, key, j);
                lemma_item_in_map(all, j);
                let k = choose|k: int| 0 <= k < out@.len() && #[trigger] out@[k] == all[j];
                assert(holds_at(out@, key, k));
            }
            assert(got =~= wanted);
        }
        self.entries = out;
    }
}

/// A table is determined by what it holds: two tables with the same content
/// list the same keys with the same values in the same order.
pub proof fn same_content_same_order<K: TableKey, V>(a: Seq<(K, V)>, b: Seq<(K, V)>)
    requires
        ascending(a),
        ascending(b),
        items_map(a) == items_map(b),
    ensures
        a.len() == b.len(),
        forall|i: int|
            #![trigger a[i]]
            0 <= i < a.len() ==> a[i].0@ == b[i].0@ && a[i].1 == b[i].1,
    decreases a.len(),
{
    if a.len() == 0 {
        if b.len() > 0 {
            lemma_item_in_map(b, 0);
            assert(items_map(a).contains_key(b[0].0@));
            let i = choose|i: int| #[trigger] holds_at(a, b[0].0@, i);
            assert(holds_at(a, b[0].0@, i));
        }
    } else {
        let last_a = a.len() - 1;
        lemma_item_in_map(a, last_a);
        let key = a[last_a].0@;
        assert(items_map(b).contains_key(key));
        let j = choose|j: int| #[trigger] holds_at(b, key, j);
        let last_b = b.len() - 1;
        lemma_item_in_map(b, last_b);
        let other = b[last_b].0@;
        assert(items_map(a).contains_key(other));
        let i = choose|i: int| #[trigger] holds_at(a, other, i);
        if j < last_b {
            assert(K::precedes(key, other));
            if i < last_a {
                K::precedes_transitive(key, other, key);
            }
            K::precedes_irreflexive(key);
        }
        assert(j == last_b);
        lemma_drop_last(a);
        lemma_drop_last(b);
        same_content_same_order(a.drop_last(), b.drop_last());
        assert forall|i: int| #![trigger a[i]] 0 <= i < a.len() implies a[i].0@ == b[i].0@ && a[i].1
            == b[i].1 by {
            if i < last_a {
                assert(a.drop_last()[i] == a[i]);
                assert(b.drop_last()[i] == b[i]);
            }
        }
    }
}

/// Dropping the last entry of a list drops its key from the map.
proof fn lemma_drop_last<K: TableKey, V>(items: Seq<(K, V)>)
    requires
        ascending(items),
        items.len() > 0,
    ensures
        ascending(items.drop_last()),
        items_map(items.drop_last()) == items_map(items).remove(items.last().0@),
{
    let short = items.drop_last();
    let key = items.last().0@;
    let got = items_map(short);
    let wanted = items_map(items).remove(key);
    assert(ascending(short));
    assert forall|k: K::V| #[trigger] got.contains_key(k) implies wanted.contains_key(k) && got[k]
        == wanted[k] by {
        let i = choose|i: int| #[trigger] holds_at(short, k, i);
        assert(items[i] == short[i]);
        lemma_item_in_map(short, i);
        lemma_item_in_map(items, i);
        if k == key {
            lemma_key_unique(items, i, items.len() - 1);
        }
    }
    assert forall|k: K::V| #[trigger] wanted.contains_key(k) implies got.contains_key(k) by {
        let i = choose|i: int| #[trigger] holds_at(items, k, i);
        assert(holds_at(short, k, i));
    }
    assert(got =~= wanted);
}

/// A list has as many entries as its map.
proof fn lemma_map_size<K: TableKey, V>(items: Seq<(K, V)>)
    requires
        ascending(items),
    ensures
        items_map(items).dom().finite(),
        items_map(items).dom().len() == items.len(),
    decreases items.len(),
{
    if items.len() == 0 {
        assert(items_map(items).dom() =~= Set::<K::V>::empty());
    } else {
        lemma_drop_last(items);
        lemma_map_size(items.drop_last());
        lemma_item_in_map(items, items.len() - 1);
        let key = items.last().0@;
        assert(items_map(items).dom() =~= items_map(items.drop_last()).dom().insert(key));
    }
}

/// The map of a list in which one entry was set or put in.
proof fn lemma_after_insert<K: TableKey, V>(
    before: Seq<(K, V)>,
    after: Seq<(K, V)>,
    key: K::V,
    value: V,
    at: int,
    found: bool,
)
    requires
        ascending(before),
        ascending(after),
        0 <= at <= before.len(),
        found ==> at < before.len() && before[at].0@ == key && after.len() == before.len() && (
        forall|i: int| 0 <= i < before.len() && i != at ==> #[trigger] after[i] == before[i]),
        !found ==> after.len() == before.len() + 1 && (forall|i: int|
            0 <= i < at ==> #[trigger] after[i] == before[i]) && (forall|i: int|
            at < i < after.len() ==> #[trigger] after[i] == before[i - 1]),
        after[at].0@ == key,
        after[at].1 == value,
        !found ==> !items_map(before).contains_key(key),
    ensures
        items_map(after) == items_map(before).insert(key, value),
{
    let m = items_map(before).insert(key, value);
    assert forall|k: K::V| items_map(after).contains_key(k) == m.contains_key(k) by {
        if items_map(after).contains_key(k) {
            let i = choose|i: int| #[trigger] holds_at(after, k, i);
            if i != at {
                let j = if found || i < at { i } else { i - 1 };
                assert(holds_at(before, k, j));
            }
        }
        if m.contains_key(k) {
            if k == key {
                assert(holds_at(after, k, at));
            } else {
                let j = choose|j: int| #[trigger] holds_at(before, k, j);
                let i = if found || j < at { j } else { j + 1 };
                assert(after[i] == before[j]);
                assert(holds_at(after, k, i));
            }
        }
    }
    assert forall|k: K::V| m.contains_key(k) implies items_map(after)[k] == #[trigger] m[k] by {
        if k == key {
            lemma_item_in_map(after, at);
        } else {
            let j = choose|j: int| #[trigger] holds_at(before, k, j);
            let i = if found || j < at { j } else { j + 1 };
            assert(after[i] == before[j]);
            lemma_item_in_map(after, i);
            lemma_item_in_map(before, j);
        }
    }
    assert(items_map(after) =~= m);
}

} // verus!
