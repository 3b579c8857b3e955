//! The map from dependency references to resolved records.
//!
//! Records are kept in the order in which their keys first arrived, beside
//! a hash index from canonical text to position. Whenever the map is
//! written it is projected into the one sequence that lists its entries in
//! key order, so what is written depends on the content alone.

use vstd::prelude::*;
use vstd::hash_map::StringHashMap;
use crate::model::dependency::{
    lemma_canonical_has_halves, split_key, DependencyID, DependencyLock, LockView,
};
use crate::model::errors::DecodeError;
use crate::model::format::{decoded, lock_text, read_document_chars, write_document};
use crate::utils::text::{chars_of, string_of};
use crate::model::order::{
    key_before, lemma_key_before_asymmetric, lemma_key_before_irreflexive,
    lemma_key_before_total, lemma_key_before_transitive, precedes,
};

verus! {

/// A key with what it resolves to, as plain text.
pub type Entry = (Seq<char>, LockView);

/// Whether the keys of `entries` strictly increase.
pub open spec fn sorted_by_key(entries: Seq<Entry>) -> bool {
    forall|i: int, j: int| 0 <= i < j < entries.len() ==> key_before(entries[i].0, entries[j].0)
}

/// Whether `entries` holds the pairs of `content` and nothing else.
pub open spec fn lists(entries: Seq<Entry>, content: Map<Seq<char>, LockView>) -> bool {
    &&& forall|i: int|
        0 <= i < entries.len() ==> content.contains_key(#[trigger] entries[i].0)
            && content[entries[i].0] == entries[i].1
    &&& forall|key: Seq<char>| #[trigger]
        content.contains_key(key) ==> exists|i: int|
            0 <= i < entries.len() && #[trigger] entries[i].0 == key
}

/// Whether `entries` is `content` in key order.
pub open spec fn is_projection_of(entries: Seq<Entry>, content: Map<Seq<char>, LockView>) -> bool {
    sorted_by_key(entries) && lists(entries, content)
}

/// The entries of `content` in key order.
pub open spec fn projection(content: Map<Seq<char>, LockView>) -> Seq<Entry> {
    choose|entries: Seq<Entry>| is_projection_of(entries, content)
}

/// Whether every key of `entries` has its two halves.
#[verifier::opaque]
pub open spec fn keys_decodable(entries: Seq<Entry>) -> bool {
    forall|i: int| 0 <= i < entries.len() ==> split_key(#[trigger] entries[i].0) is Some
}

/// Whether `content` can be the content of a lock file: it holds finitely
/// many entries, and every key has its two halves.
pub open spec fn storable(content: Map<Seq<char>, LockView>) -> bool {
    &&& content.dom().finite()
    &&& forall|key: Seq<char>| #[trigger] content.contains_key(key) ==> split_key(key) is Some
}

/// The map that a list of entries describes. Where a key occurs twice the
/// later entry counts.
pub open spec fn map_of(entries: Seq<Entry>) -> Map<Seq<char>, LockView>
    decreases entries.len(),
{
    if entries.len() == 0 {
        Map::empty()
    } else {
        map_of(entries.drop_last()).insert(entries.last().0, entries.last().1)
    }
}

/// A map has at most one projection: however its entries were inserted,
/// listing them in key order gives the same sequence.
pub proof fn lemma_projection_unique(
    a: Seq<Entry>,
    b: Seq<Entry>,
    content: Map<Seq<char>, LockView>,
)
    requires
        is_projection_of(a, content),
        is_projection_of(b, content),
    ensures
        a == b,
    decreases a.len(),
{
    if a.len() == 0 {
        if b.len() > 0 {
            assert(content.contains_key(b[0].0));
        }
        assert(a =~= b);
    } else {
        assert(content.contains_key(a[0].0));
        let j = choose|j: int| 0 <= j < b.len() && b[j].0 == a[0].0;
        assert(content.contains_key(b[0].0));
        let i = choose|i: int| 0 <= i < a.len() && a[i].0 == b[0].0;
        if j > 0 && i > 0 {
            lemma_key_before_asymmetric(a[0].0, a[i].0);
        }
        if j > 0 {
            lemma_key_before_irreflexive(a[0].0);
        }
        assert(a[0].0 == b[0].0);
        assert(a[0] == b[0]);
        let key = a[0].0;
        let rest = content.remove(key);
        lemma_rest_is_projection(a, content);
        lemma_rest_is_projection(b, content);
        lemma_projection_unique(a.drop_first(), b.drop_first(), rest);
        assert(a =~= seq![a[0]] + a.drop_first());
        assert(b =~= seq![b[0]] + b.drop_first());
    }
}

/// Without its first entry a projection is the projection of the map
/// without that entry's key.
proof fn lemma_rest_is_projection(a: Seq<Entry>, content: Map<Seq<char>, LockView>)
    requires
        is_projection_of(a, content),
        a.len() > 0,
    ensures
        is_projection_of(a.drop_first(), content.remove(a[0].0)),
{
    let key = a[0].0;
    let tail = a.drop_first();
    let rest = content.remove(key);
    assert forall|i: int, j: int| 0 <= i < j < tail.len() implies key_before(
        tail[i].0,
        tail[j].0,
    ) by {
        assert(key_before(a[i + 1].0, a[j + 1].0));
    }
    assert forall|i: int| 0 <= i < tail.len() implies rest.contains_key(#[trigger] tail[i].0)
        && rest[tail[i].0] == tail[i].1 by {
        assert(content.contains_key(a[i + 1].0));
        assert(key_before(a[0].0, a[i + 1].0));
        lemma_key_before_irreflexive(key);
    }
    assert forall|k: Seq<char>| #[trigger] rest.contains_key(k) implies exists|i: int|
        0 <= i < tail.len() && #[trigger] tail[i].0 == k by {
        assert(content.contains_key(k));
        let i = choose|i: int| 0 <= i < a.len() && a[i].0 == k;
        assert(tail[i - 1].0 == k);
    }
}

/// A list with distinct keys describes the map that it lists.
pub proof fn lemma_map_of_projection(entries: Seq<Entry>, content: Map<Seq<char>, LockView>)
    requires
        is_projection_of(entries, content),
    ensures
        map_of(entries) == content,
    decreases entries.len(),
{
    if entries.len() == 0 {
        assert(map_of(entries) =~= content);
    } else {
        let last = entries.last();
        let front = entries.drop_last();
        let rest = content.remove(last.0);
        assert(content.contains_key(entries[entries.len() - 1].0));
        assert forall|i: int| 0 <= i < front.len() implies rest.contains_key(#[trigger] front[i].0)
            && rest[front[i].0] == front[i].1 by {
            assert(content.contains_key(entries[i].0));
            assert(key_before(entries[i].0, entries[entries.len() - 1].0));
            lemma_key_before_irreflexive(last.0);
        }
        assert forall|k: Seq<char>| #[trigger] rest.contains_key(k) implies exists|i: int|
            0 <= i < front.len() && #[trigger] front[i].0 == k by {
            assert(content.contains_key(k));
            let i = choose|i: int| 0 <= i < entries.len() && entries[i].0 == k;
            assert(front[i].0 == k);
        }
        assert(sorted_by_key(front)) by {
            assert forall|i: int, j: int| 0 <= i < j < front.len() implies key_before(
                front[i].0,
                front[j].0,
            ) by {
                assert(key_before(entries[i].0, entries[j].0));
            }
        }
        lemma_map_of_projection(front, rest);
        assert(rest.insert(last.0, last.1) =~= content);
    }
}

/// Inserting twice under one key leaves what the second insertion alone
/// would have left: one entry for the key, holding the second record.
pub proof fn lemma_insert_twice(
    content: Map<Seq<char>, LockView>,
    key: Seq<char>,
    first: LockView,
    second: LockView,
)
    ensures
        content.insert(key, first).insert(key, second) == content.insert(key, second),
        content.insert(key, first).insert(key, second)[key] == second,
        content.insert(key, first).insert(key, second).dom() == content.dom().insert(key),
{
    assert(content.insert(key, first).insert(key, second) =~= content.insert(key, second));
    assert(content.insert(key, second).dom() =~= content.dom().insert(key));
}

/// Whether no key stands twice in `entries`.
pub open spec fn distinct_keys(entries: Seq<Entry>) -> bool {
    forall|i: int, j: int| 0 <= i < j < entries.len() ==> entries[i].0 != entries[j].0
}

/// Entries with distinct keys describe the map that holds exactly them.
pub proof fn lemma_map_of_lists(entries: Seq<Entry>)
    requires
        distinct_keys(entries),
    ensures
        lists(entries, map_of(entries)),
    decreases entries.len(),
{
    if entries.len() > 0 {
        let front = entries.drop_last();
        let last = entries.last();
        lemma_map_of_lists(front);
        let content = map_of(entries);
        assert forall|i: int| 0 <= i < entries.len() implies content.contains_key(
            #[trigger] entries[i].0,
        ) && content[entries[i].0] == entries[i].1 by {
            if i < entries.len() - 1 {
                assert(front[i] == entries[i]);
                assert(map_of(front).contains_key(front[i].0));
            }
        }
        assert forall|key: Seq<char>| #[trigger] content.contains_key(key) implies exists|i: int|
            0 <= i < entries.len() && #[trigger] entries[i].0 == key by {
            if key == last.0 {
                assert(entries[entries.len() - 1].0 == key);
            } else {
                assert(map_of(front).contains_key(key));
                let i = choose|i: int| 0 <= i < front.len() && front[i].0 == key;
                assert(entries[i].0 == key);
            }
        }
    }
}

/// The order of insertion is immaterial: two lists of the same entries,
/// each key once, describe the same map.
pub proof fn lemma_order_of_insertion_is_immaterial(a: Seq<Entry>, b: Seq<Entry>)
    requires
        distinct_keys(a),
        distinct_keys(b),
        forall|entry: Entry| a.contains(entry) <==> b.contains(entry),
    ensures
        map_of(a) == map_of(b),
{
    lemma_map_of_lists(a);
    lemma_map_of_lists(b);
    let x = map_of(a);
    let y = map_of(b);
    assert forall|key: Seq<char>| x.contains_key(key) implies y.contains_key(key) && y[key]
        == x[key] by {
        let i = choose|i: int| 0 <= i < a.len() && a[i].0 == key;
        assert(x.contains_key(a[i].0));
        assert(a.contains(a[i]));
        assert(b.contains(a[i]));
        let j = choose|j: int| 0 <= j < b.len() && b[j] == a[i];
        assert(y.contains_key(b[j].0));
    }
    assert forall|key: Seq<char>| y.contains_key(key) implies x.contains_key(key) by {
        let j = choose|j: int| 0 <= j < b.len() && b[j].0 == key;
        assert(y.contains_key(b[j].0));
        assert(b.contains(b[j]));
        assert(a.contains(b[j]));
        let i = choose|i: int| 0 <= i < a.len() && a[i] == b[j];
        assert(x.contains_key(a[i].0));
    }
    assert(x =~= y);
}

/// `entries` with `entry` put where its key belongs.
spec fn insert_sorted(entries: Seq<Entry>, entry: Entry) -> Seq<Entry>
    decreases entries.len(),
{
    if entries.len() == 0 {
        seq![entry]
    } else if key_before(entry.0, entries[0].0) {
        seq![entry] + entries
    } else {
        seq![entries[0]] + insert_sorted(entries.drop_first(), entry)
    }
}

/// Putting an entry with a new key where it belongs keeps the keys
/// increasing and adds that entry alone.
proof fn lemma_insert_sorted(entries: Seq<Entry>, entry: Entry)
    requires
        sorted_by_key(entries),
        forall|i: int| 0 <= i < entries.len() ==> entries[i].0 != entry.0,
    ensures
        sorted_by_key(insert_sorted(entries, entry)),
        forall|x: Entry| #[trigger]
            insert_sorted(entries, entry).contains(x) <==> (x == entry || entries.contains(x)),
    decreases entries.len(),
{
    let r = insert_sorted(entries, entry);
    if entries.len() == 0 {
        assert forall|x: Entry| #[trigger] r.contains(x) <==> (x == entry || entries.contains(
            x,
        )) by {
            if x == entry {
                assert(r[0] == x);
            }
        }
    } else if key_before(entry.0, entries[0].0) {
        assert forall|i: int, j: int| 0 <= i < j < r.len() implies key_before(r[i].0, r[j].0) by {
            if i == 0 {
                if j > 1 {
                    lemma_key_before_transitive(entry.0, entries[0].0, entries[j - 1].0);
                }
            } else {
                assert(key_before(entries[i - 1].0, entries[j - 1].0));
            }
        }
        assert forall|x: Entry| #[trigger] r.contains(x) <==> (x == entry || entries.contains(
            x,
        )) by {
            if x == entry {
                assert(r[0] == x);
            }
            if entries.contains(x) {
                let k = choose|k: int| 0 <= k < entries.len() && entries[k] == x;
                assert(r[k + 1] == x);
            }
            if r.contains(x) {
                let k = choose|k: int| 0 <= k < r.len() && r[k] == x;
                if k > 0 {
                    assert(entries[k - 1] == x);
                }
            }
        }
    } else {
        let first = entries[0];
        let rest = entries.drop_first();
        let inner = insert_sorted(rest, entry);
        assert(sorted_by_key(rest)) by {
            assert forall|i: int, j: int| 0 <= i < j < rest.len() implies key_before(
                rest[i].0,
                rest[j].0,
            ) by {
                assert(key_before(entries[i + 1].0, entries[j + 1].0));
            }
        }
        assert forall|i: int| 0 <= i < rest.len() implies rest[i].0 != entry.0 by {
            assert(rest[i] == entries[i + 1]);
        }
        lemma_insert_sorted(rest, entry);
        lemma_key_before_total(first.0, entry.0);
        assert forall|i: int, j: int| 0 <= i < j < r.len() implies key_before(r[i].0, r[j].0) by {
            if i == 0 {
                let x = inner[j - 1];
                assert(inner.contains(x));
                if x != entry {
                    let k = choose|k: int| 0 <= k < rest.len() && rest[k] == x;
                    assert(key_before(entries[0].0, entries[k + 1].0));
                }
            } else {
                assert(key_before(inner[i - 1].0, inner[j - 1].0));
            }
        }
        assert forall|x: Entry| #[trigger] r.contains(x) <==> (x == entry || entries.contains(
            x,
        )) by {
            if r.contains(x) {
                let k = choose|k: int| 0 <= k < r.len() && r[k] == x;
                if k == 0 {
                    assert(entries[0] == x);
                } else {
                    assert(inner[k - 1] == x);
                    assert(inner.contains(x));
                    if x != entry {
                        let m = choose|m: int| 0 <= m < rest.len() && rest[m] == x;
                        assert(entries[m + 1] == x);
                    }
                }
            }
            if x == entry {
                assert(inner.contains(x));
                let k = choose|k: int| 0 <= k < inner.len() && inner[k] == x;
                assert(r[k + 1] == x);
            }
            if entries.contains(x) {
                let m = choose|m: int| 0 <= m < entries.len() && entries[m] == x;
                if m == 0 {
                    assert(r[0] == x);
                } else {
                    assert(rest[m - 1] == x);
                    assert(rest.contains(x));
                    assert(inner.contains(x));
                    let k = choose|k: int| 0 <= k < inner.len() && inner[k] == x;
                    assert(r[k + 1] == x);
                }
            }
        }
    }
}

/// Every map with finitely many entries has a projection.
pub proof fn lemma_projection_exists(content: Map<Seq<char>, LockView>)
    requires
        content.dom().finite(),
    ensures
        is_projection_of(projection(content), content),
    decreases content.dom().len(),
{
    if content.dom().len() == 0 {
        content.dom().lemma_len0_is_empty();
        let none = Seq::<Entry>::empty();
        assert(is_projection_of(none, content)) by {
            assert forall|key: Seq<char>| #[trigger] content.contains_key(key) implies exists|
                i: int,
            |
                0 <= i < none.len() && #[trigger] none[i].0 == key by {
                assert(content.dom().contains(key));
            }
        }
    } else {
        let key = content.dom().choose();
        vstd::set::axiom_set_choose_len(content.dom());
        assert(content.contains_key(key));
        let rest = content.remove(key);
        vstd::set::axiom_set_remove_finite(content.dom(), key);
        vstd::set::axiom_set_remove_len(content.dom(), key);
        assert(rest.dom() =~= content.dom().remove(key));
        lemma_projection_exists(rest);
        let below = projection(rest);
        let entry: Entry = (key, content[key]);
        assert forall|i: int| 0 <= i < below.len() implies below[i].0 != entry.0 by {
            assert(rest.contains_key(below[i].0));
        }
        lemma_insert_sorted(below, entry);
        let all = insert_sorted(below, entry);
        assert forall|i: int| 0 <= i < all.len() implies content.contains_key(#[trigger] all[i].0)
            && content[all[i].0] == all[i].1 by {
            assert(all.contains(all[i]));
            if all[i] != entry {
                let j = choose|j: int| 0 <= j < below.len() && below[j] == all[i];
                assert(rest.contains_key(below[j].0));
            }
        }
        assert forall|k: Seq<char>| #[trigger] content.contains_key(k) implies exists|i: int|
            0 <= i < all.len() && #[trigger] all[i].0 == k by {
            if k == key {
                assert(all.contains(entry));
                let i = choose|i: int| 0 <= i < all.len() && all[i] == entry;
                assert(all[i].0 == k);
            } else {
                assert(rest.contains_key(k));
                let j = choose|j: int| 0 <= j < below.len() && below[j].0 == k;
                assert(below.contains(below[j]));
                assert(all.contains(below[j]));
                let i = choose|i: int| 0 <= i < all.len() && all[i] == below[j];
                assert(all[i].0 == k);
            }
        }
        assert(is_projection_of(all, content));
    }
}

/// The projection of a storable map lists the map in key order, and each
/// of its keys has its two halves.
pub proof fn lemma_projection_of_storable(content: Map<Seq<char>, LockView>)
    requires
        storable(content),
    ensures
        is_projection_of(projection(content), content),
        keys_decodable(projection(content)),
{
    lemma_projection_exists(content);
    reveal(keys_decodable);
}

/// Whether the position `i` occurs in `order`.
spec fn occurs_in(order: Seq<usize>, i: int) -> bool {
    exists|p: int| 0 <= p < order.len() && order[p] == i
}

/// The plain-text form of a list of keyed records.
pub open spec fn entries_view(list: Seq<(String, DependencyLock)>) -> Seq<Entry> {
    Seq::new(list.len(), |i: int| (list[i].0@, list[i].1@))
}

/// The resolved dependencies of a project, keyed by canonical text.
pub struct DependenciesMap {
    index: StringHashMap<usize>,
    entries: Vec<(String, DependencyLock)>,
}

impl View for DependenciesMap {
    type V = Map<Seq<char>, LockView>;

    closed spec fn view(&self) -> Map<Seq<char>, LockView> {
        Map::new(
            |key: Seq<char>| self.index@.contains_key(key),
            |key: Seq<char>| self.entries@[self.index@[key] as int].1@,
        )
    }
}

impl DependenciesMap {
    #[verifier::type_invariant]
    spec fn well_formed(&self) -> bool {
        &&& forall|i: int|
            0 <= i < self.entries@.len() ==> self.index@.contains_key(
                #[trigger] self.entries@[i].0@,
            ) && self.index@[self.entries@[i].0@] == i
        &&& forall|key: Seq<char>| #[trigger]
            self.index@.contains_key(key) ==> self.index@[key] < self.entries@.len()
                && self.entries@[self.index@[key] as int].0@ == key
        &&& forall|key: Seq<char>| #[trigger]
            self.index@.contains_key(key) ==> split_key(key) is Some
    }

    /// An empty map.
    pub fn new() -> (map: DependenciesMap)
        ensures
            map@ == Map::<Seq<char>, LockView>::empty(),
    {
        let map = DependenciesMap { index: StringHashMap::with_capacity(1), entries: Vec::new() };
        assert(map@ =~= Map::<Seq<char>, LockView>::empty());
        map
    }

    /// How many dependencies the map holds.
    pub fn len(&self) -> (count: usize)
        ensures
            count == self@.dom().len(),
            self@.dom().finite(),
    {
        proof {
            use_type_invariant(self);
            self.lemma_domain();
        }
        self.entries.len()
    }

    /// The keys of the map are the keys of its entries, as many as there
    /// are entries.
    proof fn lemma_domain(&self)
        requires
            self.well_formed(),
        ensures
            self@.dom().finite(),
            self@.dom().len() == self.entries@.len(),
    {
        let positions = Set::new(|i: int| 0 <= i < self.entries@.len());
        let key_at = |i: int| self.entries@[i].0@;
        vstd::set_lib::lemma_int_range(0, self.entries@.len() as int);
        assert(positions =~= vstd::set_lib::set_int_range(0, self.entries@.len() as int));
        assert(positions.map(key_at) =~= self@.dom()) by {
            assert forall|key: Seq<char>| self@.dom().contains(key) implies positions.map(
                key_at,
            ).contains(key) by {
                let i = self.index@[key] as int;
                assert(positions.contains(i) && key_at(i) == key);
            }
        }
        vstd::set_lib::lemma_map_size(positions, self@.dom(), key_at);
        assert(vstd::relations::injective_on(key_at, positions));
    }

    /// Inserts `record` under the canonical text of `id`. A record that
    /// stood there before is replaced.
    pub fn insert(&mut self, id: &DependencyID, record: DependencyLock)
        ensures
            final(self)@ == old(self)@.insert(id.canonical(), record@),
    {
        let key = id.encode();
        proof {
            lemma_canonical_has_halves(id.0@, id.1@);
        }
        let mut taken = DependenciesMap::new();
        std::mem::swap(self, &mut taken);
        proof {
            use_type_invariant(&taken);
        }
        let DependenciesMap { mut index, mut entries } = taken;
        let ghost before = Map::new(
            |k: Seq<char>| index@.contains_key(k),
            |k: Seq<char>| entries@[index@[k] as int].1@,
        );
        let position = match index.get(key.as_str()) {
            Some(at) => Some(*at),
            None => None,
        };
        match position {
            Some(at) => {
                entries.set(at, (key, record));
            },
            None => {
                let at = entries.len();
                index.insert(key.clone(), at);
                entries.push((key, record));
            },
        }
        let map = DependenciesMap { index, entries };
        assert(map@ =~= before.insert(id.canonical(), record@));
        *self = map;
    }

    /// The record that stands under the canonical text of `id`, if any.
    pub fn get(&self, id: &DependencyID) -> (found: Option<&DependencyLock>)
        ensures
            match found {
                Some(record) => self@.contains_key(id.canonical()) && record@
                    == self@[id.canonical()],
                None => !self@.contains_key(id.canonical()),
            },
    {
        proof {
            use_type_invariant(self);
        }
        let key = id.encode();
        match self.index.get(key.as_str()) {
            Some(at) => Some(&self.entries[*at].1),
            None => None,
        }
    }

    /// The positions of the entries, ordered by key.
    fn sorted_positions(&self) -> (order: Vec<usize>)
        ensures
            order@.len() == self.entries@.len(),
            forall|p: int| 0 <= p < order@.len() ==> order@[p] < self.entries@.len(),
            forall|p: int, q: int|
                0 <= p < q < order@.len() ==> key_before(
                    self.entries@[order@[p] as int].0@,
                    self.entries@[order@[q] as int].0@,
                ),
            forall|i: int| 0 <= i < self.entries@.len() ==> #[trigger] occurs_in(order@, i),
    {
        proof {
            use_type_invariant(self);
        }
        let mut order: Vec<usize> = Vec::new();
        let mut next: usize = 0;
        while next < self.entries.len()
            invariant
                self.well_formed(),
                next <= self.entries@.len(),
                order@.len() == next,
                forall|p: int| 0 <= p < order@.len() ==> order@[p] < next,
                forall|p: int, q: int|
                    0 <= p < q < order@.len() ==> key_before(
                        self.entries@[order@[p] as int].0@,
                        self.entries@[order@[q] as int].0@,
                    ),
                forall|i: int| 0 <= i < next ==> #[trigger] occurs_in(order@, i),
            decreases self.entries@.len() - next,
        {
            let mut place: usize = 0;
            while place < order.len() && precedes(
                self.entries[order[place]].0.as_str(),
                self.entries[next].0.as_str(),
            )
                invariant
                    place <= order@.len(),
                    next < self.entries@.len(),
                    forall|p: int| 0 <= p < order@.len() ==> order@[p] < next,
                    forall|p: int|
                        0 <= p < place ==> key_before(
                            self.entries@[order@[p] as int].0@,
                            self.entries@[next as int].0@,
                        ),
                decreases order@.len() - place,
            {
                place += 1;
            }
            let ghost old_order = order@;
            order.insert(place, next);
            proof {
                let fresh = self.entries@[next as int].0@;
                assert forall|p: int, q: int| 0 <= p < q < order@.len() implies key_before(
                    self.entries@[order@[p] as int].0@,
                    self.entries@[order@[q] as int].0@,
                ) by {
                    if q == place {
                    } else if p == place {
                        let first_after = self.entries@[old_order[place as int] as int].0@;
                        assert(self.index@[first_after] == old_order[place as int]);
                        assert(self.index@[fresh] == next);
                        lemma_key_before_total(first_after, fresh);
                        if q - 1 > place {
                            lemma_key_before_transitive(
                                fresh,
                                first_after,
                                self.entries@[old_order[q - 1] as int].0@,
                            );
                        }
                    } else {
                    }
                }
                assert forall|i: int| 0 <= i < next + 1 implies #[trigger] occurs_in(
                    order@,
                    i,
                ) by {
                    if i == next {
                        assert(order@[place as int] == i);
                    } else {
                        assert(occurs_in(old_order, i));
                        let p = choose|p: int| 0 <= p < old_order.len() && old_order[p] == i;
                        if p < place {
                            assert(order@[p] == i);
                        } else {
                            assert(order@[p + 1] == i);
                        }
                    }
                }
            }
            next += 1;
        }
        order
    }

    /// The entries in key order: every pair of the map once, the keys
    /// strictly increasing.
    pub fn sorted_entries(&self) -> (list: Vec<(String, DependencyLock)>)
        ensures
            is_projection_of(entries_view(list@), self@),
            entries_view(list@) == projection(self@),
            storable(self@),
    {
        proof {
            use_type_invariant(self);
        }
        let order = self.sorted_positions();
        let mut list: Vec<(String, DependencyLock)> = Vec::new();
        let mut p: usize = 0;
        while p < order.len()
            invariant
                p <= order@.len(),
                order@.len() == self.entries@.len(),
                forall|q: int| 0 <= q < order@.len() ==> order@[q] < self.entries@.len(),
                list@.len() == p,
                forall|q: int|
                    0 <= q < p ==> list@[q].0@ == self.entries@[order@[q] as int].0@ && list@[q].1@
                        == self.entries@[order@[q] as int].1@,
            decreases order@.len() - p,
        {
            let entry = &self.entries[order[p]];
            list.push((entry.0.clone(), entry.1.clone()));
            p += 1;
        }
        proof {
            let seen = entries_view(list@);
            assert forall|i: int| 0 <= i < seen.len() implies self@.contains_key(
                #[trigger] seen[i].0,
            ) && self@[seen[i].0] == seen[i].1 by {
                let at = order@[i] as int;
                assert(self.index@.contains_key(self.entries@[at].0@));
            }
            assert forall|key: Seq<char>| #[trigger] self@.contains_key(key) implies exists|i: int|
                0 <= i < seen.len() && #[trigger] seen[i].0 == key by {
                let at = self.index@[key] as int;
                assert(occurs_in(order@, at));
                let q = choose|q: int| 0 <= q < order@.len() && order@[q] == at;
                assert(seen[q].0 == key);
            }
            assert(is_projection_of(seen, self@));
            lemma_projection_unique(seen, projection(self@), self@);
            self.lemma_domain();
        }
        list
    }

    /// The textual form of the map: its entries in key order.
    pub fn to_text(&self) -> (text: String)
        ensures
            text@ == lock_text(self@),
            storable(self@),
    {
        let list = self.sorted_entries();
        let chars = write_document(&list);
        string_of(&chars)
    }

    /// Reads the textual form of a map. The entries may stand in any order.
    pub fn from_text(text: &str) -> (read: Result<DependenciesMap, DecodeError>)
        ensures
            match decoded(text@) {
                Ok(content) => read matches Ok(found) && found@ == content,
                Err(e) => read matches Err(found) && found == e,
            },
    {
        let chars = chars_of(text);
        read_document_chars(&chars)
    }
}

impl Default for DependenciesMap {
    fn default() -> (map: DependenciesMap)
        ensures
            map@ == Map::<Seq<char>, LockView>::empty(),
    {
        DependenciesMap::new()
    }
}

} // verus!
