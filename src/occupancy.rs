use skiplist::ordered_skip_list::OrderedSkipList;
use vstd::prelude::*;

verus! {

/// An entry of a `PositionIndex`: a position key and the slot that holds the value.
pub type IndexItem = (u64, usize);

/// Lexicographic order on `(key, slot)` pairs, the order that std gives tuples.
pub open spec fn item_le(a: IndexItem, b: IndexItem) -> bool {
    a.0 < b.0 || (a.0 == b.0 && a.1 <= b.1)
}

pub open spec fn item_lt(a: IndexItem, b: IndexItem) -> bool {
    a.0 < b.0 || (a.0 == b.0 && a.1 < b.1)
}

/// The sorted bag of `(key, slot)` pairs behind an `OrderedSkipMap`, held by
/// `skiplist::OrderedSkipList`.
#[verifier::external_body]
pub struct PositionIndex {
    list: OrderedSkipList<IndexItem>,
}

/// The items of a `PositionIndex`, in the list's iteration order.
pub uninterp spec fn index_items(index: PositionIndex) -> Seq<IndexItem>;

/// Relies on `OrderedSkipList::new`: a new list holds nothing.
#[verifier::external_body]
fn index_new() -> (r: PositionIndex)
    ensures
        index_items(r) == Seq::<IndexItem>::empty(),
{
    PositionIndex { list: OrderedSkipList::new() }
}

/// Relies on `OrderedSkipList::insert`: the item goes in at its place in the
/// order, after the smaller items and before the larger ones.
#[verifier::external_body]
fn index_insert(index: &mut PositionIndex, item: IndexItem)
    ensures
        exists|i: int|
            {
                &&& 0 <= i <= index_items(*old(index)).len()
                &&& index_items(*final(index)) == index_items(*old(index)).insert(i, item)
                &&& forall|j: int| 0 <= j < i ==> item_le(#[trigger] index_items(*old(index))[j], item)
                &&& forall|j: int|
                    i <= j < index_items(*old(index)).len() ==> item_le(
                        item,
                        #[trigger] index_items(*old(index))[j],
                    )
            },
{
    index.list.insert(item);
}

/// Relies on `OrderedSkipList::iter`: the items in the list's order.
#[verifier::external_body]
fn index_to_vec(index: &PositionIndex) -> (r: Vec<IndexItem>)
    ensures
        r@ == index_items(*index),
{
    index.list.iter().copied().collect()
}

/// Relies on `OrderedSkipList::range` over `lo..=hi`: the items between the two
/// bounds, in the list's order. It panics when `lo` lies above `hi`.
#[verifier::external_body]
fn index_range(index: &PositionIndex, lo: IndexItem, hi: IndexItem) -> (r: Vec<IndexItem>)
    requires
        item_le(lo, hi),
    ensures
        r@ == index_items(*index).filter(|x: IndexItem| item_le(lo, x) && item_le(x, hi)),
{
    index.list.range(lo..=hi).copied().collect()
}

/// Relies on `OrderedSkipList::remove_by_value`: removes one item equal to
/// `item` and tells whether there was one.
#[verifier::external_body]
fn index_remove(index: &mut PositionIndex, item: IndexItem) -> (r: bool)
    ensures
        r == index_items(*old(index)).contains(item),
        r ==> exists|i: int|
            {
                &&& 0 <= i < index_items(*old(index)).len()
                &&& index_items(*old(index))[i] == item
                &&& index_items(*final(index)) == index_items(*old(index)).remove(i)
            },
        !r ==> index_items(*final(index)) == index_items(*old(index)),
{
    index.list.remove_by_value(&item)
}

/// A position-keyed ordered multimap: entries come out in ascending key order,
/// entries under one key in the order they went in. Inserting under a key that
/// is already present keeps both entries.
pub struct OrderedSkipMap<V> {
    index: PositionIndex,
    slots: Vec<Option<(u64, V)>>,
}

/// Filtering after a map is mapping after the filter that goes through the map.
proof fn lemma_filter_map_values<A, B>(s: Seq<A>, f: spec_fn(A) -> B, p: spec_fn(B) -> bool)
    ensures
        s.map_values(f).filter(p) == s.filter(|a: A| p(f(a))).map_values(f),
    decreases s.len(),
{
    reveal(Seq::filter);
    if s.len() > 0 {
        lemma_filter_map_values(s.drop_last(), f, p);
        assert(s.map_values(f).drop_last() =~= s.drop_last().map_values(f));
        if p(f(s.last())) {
            assert(s.filter(|a: A| p(f(a))).map_values(f) =~= s.drop_last().filter(|a: A| p(f(a))).map_values(f).push(f(s.last())));
        } else {
            assert(s.filter(|a: A| p(f(a))).map_values(f) =~= s.drop_last().filter(|a: A| p(f(a))).map_values(f));
        }
    } else {
        assert(s.map_values(f).filter(p) =~= s.filter(|a: A| p(f(a))).map_values(f));
    }
}

/// Filtering keeps entries in ascending key order.
proof fn lemma_filter_keys_sorted<V>(s: Seq<(u64, V)>, p: spec_fn((u64, V)) -> bool)
    requires
        forall|a: int, b: int| 0 <= a < b < s.len() ==> (#[trigger] s[a]).0 <= (#[trigger] s[b]).0,
    ensures
        forall|a: int, b: int| 0 <= a < b < s.filter(p).len() ==> (#[trigger] s.filter(p)[a]).0 <= (#[trigger] s.filter(p)[b]).0,
    decreases s.len(),
{
    reveal(Seq::filter);
    if s.len() > 0 {
        let d = s.drop_last();
        lemma_filter_keys_sorted(d, p);
        if p(s.last()) {
            let f = s.filter(p);
            assert(f == d.filter(p).push(s.last()));
            assert forall|a: int, b: int| 0 <= a < b < f.len() implies (#[trigger] f[a]).0 <= (#[trigger] f[b]).0 by {
                if b == f.len() - 1 {
                    d.lemma_filter_contains_rev(p, f[a]);
                    let w = choose|w: int| 0 <= w < d.len() && d[w] == f[a];
                    assert(s[w] == f[a]);
                }
            }
        }
    }
}

/// Two predicates that agree on the elements of `s` filter it alike.
proof fn lemma_filter_same_on<A>(s: Seq<A>, p: spec_fn(A) -> bool, q: spec_fn(A) -> bool)
    requires
        forall|a: A| s.contains(a) ==> p(a) == q(a),
    ensures
        s.filter(p) == s.filter(q),
    decreases s.len(),
{
    reveal(Seq::filter);
    if s.len() > 0 {
        assert forall|a: A| s.drop_last().contains(a) implies p(a) == q(a) by {
            let w = choose|w: int| 0 <= w < s.drop_last().len() && s.drop_last()[w] == a;
            assert(s[w] == a);
            assert(s.contains(a));
        }
        lemma_filter_same_on(s.drop_last(), p, q);
        assert(s.contains(s.last()));
    }
}

impl<V> OrderedSkipMap<V> {
    #[verifier::type_invariant]
    spec fn well_formed(self) -> bool {
        let items = index_items(self.index);
        &&& forall|i: int, j: int| 0 <= i < j < items.len() ==> item_lt(#[trigger] items[i], #[trigger] items[j])
        &&& forall|i: int|
            0 <= i < items.len() ==> {
                &&& (#[trigger] items[i]).1 < self.slots@.len()
                &&& self.slots@[items[i].1 as int] is Some
                &&& self.slots@[items[i].1 as int]->Some_0.0 == items[i].0
            }
    }

    /// A well-formed map holds its entries in ascending key order.
    proof fn lemma_keys_sorted(self)
        requires
            self.well_formed(),
        ensures
            forall|a: int, b: int| 0 <= a < b < self@.len() ==> (#[trigger] self@[a]).0 <= (#[trigger] self@[b]).0,
    {
        let items = index_items(self.index);
        assert forall|a: int, b: int| 0 <= a < b < self@.len() implies (#[trigger] self@[a]).0 <= (#[trigger] self@[b]).0 by {
            assert(item_lt(items[a], items[b]));
        }
    }

    /// The entries, in the order `enumerate` hands them out.
    pub closed spec fn view(&self) -> Seq<(u64, V)> {
        index_items(self.index).map_values(|it: IndexItem| self.slots@[it.1 as int]->Some_0)
    }

    pub fn new() -> (r: Self)
        ensures
            r@ == Seq::<(u64, V)>::empty(),
    {
        let r = OrderedSkipMap { index: index_new(), slots: Vec::new() };
        assert(r@ =~= Seq::<(u64, V)>::empty());
        r
    }

    pub fn len(&self) -> (r: usize)
        ensures
            r == self@.len(),
    {
        proof { use_type_invariant(self); }
        let v = index_to_vec(&self.index);
        v.len()
    }

    /// Looks up the entries that `items` designates, in that order.
    fn entries_of(&self, items: &Vec<IndexItem>) -> (r: Vec<&(u64, V)>)
        requires
            forall|k: int| 0 <= k < items@.len() ==> index_items(self.index).contains(#[trigger] items@[k]),
        ensures
            r@.len() == items@.len(),
            forall|k: int| 0 <= k < r@.len() ==> *(#[trigger] r@[k]) == self.slots@[items@[k].1 as int]->Some_0,
    {
        proof { use_type_invariant(self); }
        let mut r: Vec<&(u64, V)> = Vec::new();
        let mut k: usize = 0;
        while k < items.len()
            invariant
                k <= items@.len(),
                r@.len() == k,
                forall|m: int| 0 <= m < items@.len() ==> index_items(self.index).contains(#[trigger] items@[m]),
                forall|m: int| 0 <= m < k ==> *(#[trigger] r@[m]) == self.slots@[items@[m].1 as int]->Some_0,
            decreases items@.len() - k,
        {
            proof { use_type_invariant(self); }
            let slot = items[k].1;
            proof {
                let all = index_items(self.index);
                let w = choose|w: int| 0 <= w < all.len() && all[w] == items@[k as int];
                assert(all[w].1 < self.slots@.len());
            }
            match &self.slots[slot] {
                Some(e) => {
                    r.push(e);
                },
                None => {
                    proof {
                        let all = index_items(self.index);
                        let w = choose|w: int| 0 <= w < all.len() && all[w] == items@[k as int];
                        assert(self.slots@[all[w].1 as int] is Some);
                    }
                },
            }
            k = k + 1;
        }
        r
    }

    /// All entries in ascending key order.
    pub fn enumerate(&self) -> (r: Vec<&(u64, V)>)
        ensures
            r@.len() == self@.len(),
            forall|k: int| 0 <= k < r@.len() ==> *(#[trigger] r@[k]) == self@[k],
            forall|a: int, b: int| 0 <= a < b < r@.len() ==> (#[trigger] r@[a]).0 <= (#[trigger] r@[b]).0,
    {
        proof {
            use_type_invariant(self);
            self.lemma_keys_sorted();
        }
        let items = index_to_vec(&self.index);
        proof {
            assert forall|k: int| 0 <= k < items@.len() implies index_items(self.index).contains(#[trigger] items@[k]) by {
                assert(index_items(self.index)[k] == items@[k]);
            }
        }
        self.entries_of(&items)
    }

    /// The entries whose key lies in `[min, max]`, in ascending key order.
    pub fn enumerate_range(&self, min: u64, max: u64) -> (r: Vec<&(u64, V)>)
        requires
            min <= max,
        ensures
            r@.len() == self@.filter(|e: (u64, V)| min <= e.0 <= max).len(),
            forall|k: int| 0 <= k < r@.len() ==> *(#[trigger] r@[k]) == self@.filter(|e: (u64, V)| min <= e.0 <= max)[k],
            forall|a: int, b: int| 0 <= a < b < r@.len() ==> (#[trigger] r@[a]).0 <= (#[trigger] r@[b]).0,
    {
        proof {
            use_type_invariant(self);
            self.lemma_keys_sorted();
            lemma_filter_keys_sorted(self@, |e: (u64, V)| min <= e.0 <= max);
        }
        let lo: IndexItem = (min, 0);
        let hi: IndexItem = (max, usize::MAX);
        let items = index_range(&self.index, lo, hi);
        let ghost all = index_items(self.index);
        let ghost f = |it: IndexItem| self.slots@[it.1 as int]->Some_0;
        let ghost p = |e: (u64, V)| min <= e.0 <= max;
        let ghost q = |x: IndexItem| item_le(lo, x) && item_le(x, hi);
        proof {
            lemma_filter_map_values(all, f, p);
            assert(all.filter(q) =~= all.filter(|a: IndexItem| p(f(a)))) by {
                assert forall|a: IndexItem| all.contains(a) implies q(a) == p(f(a)) by {
                    let w = choose|w: int| 0 <= w < all.len() && all[w] == a;
                    assert(all[w].1 < self.slots@.len());
                }
                lemma_filter_same_on(all, q, |a: IndexItem| p(f(a)));
            }
            assert forall|k: int| 0 <= k < items@.len() implies all.contains(#[trigger] items@[k]) by {
                all.lemma_filter_contains_rev(q, items@[k]);
            }
        }
        let r = self.entries_of(&items);
        proof {
            assert(self@ == all.map_values(f));
            let fl = self@.filter(|e: (u64, V)| min <= e.0 <= max);
            assert forall|a: int, b: int| 0 <= a < b < r@.len() implies (#[trigger] r@[a]).0 <= (#[trigger] r@[b]).0 by {
                assert(*r@[a] == fl[a]);
                assert(*r@[b] == fl[b]);
            }
        }
        r
    }

    /// Removes the first entry under `key` and returns its value; nothing where
    /// no entry has that key.
    pub fn remove(&mut self, key: u64) -> (r: Option<V>)
        ensures
            match r {
                Some(v) => exists|i: int|
                    {
                        &&& 0 <= i < old(self)@.len()
                        &&& old(self)@[i] == (key, v)
                        &&& forall|j: int| 0 <= j < i ==> (#[trigger] old(self)@[j]).0 != key
                        &&& final(self)@ == old(self)@.remove(i)
                    },
                None => {
                    &&& forall|j: int| 0 <= j < old(self)@.len() ==> (#[trigger] old(self)@[j]).0 != key
                    &&& final(self)@ == old(self)@
                },
            },
    {
        proof { use_type_invariant(&*self); }
        let items = index_to_vec(&self.index);
        let mut i: usize = 0;
        while i < items.len() && items[i].0 != key
            invariant
                i <= items@.len(),
                items@ == index_items(self.index),
                forall|j: int| 0 <= j < i ==> (#[trigger] items@[j]).0 != key,
            decreases items@.len() - i,
        {
            i = i + 1;
        }
        if i == items.len() {
            return None;
        }
        let item = items[i];
        let mut taken = OrderedSkipMap::new();
        std::mem::swap(self, &mut taken);
        proof { use_type_invariant(&taken); }
        let ghost taken_view = taken@;
        let OrderedSkipMap { index: mut index, slots: mut slots } = taken;
        let ghost old_items = index_items(index);
        let ghost old_slots = slots@;
        proof {
            assert(taken_view == old_items.map_values(|it: IndexItem| old_slots[it.1 as int]->Some_0));
            assert(taken_view[i as int] == old_slots[item.1 as int]->Some_0);
            assert(old_items[i as int] == item);
            assert(old_slots[item.1 as int]->Some_0.0 == item.0);
        }
        index_remove(&mut index, item);
        let ghost i0 = i as int;
        proof {
            assert(old_items[i0] == item);
            assert(old_items.contains(item));
            let w = choose|w: int|
                {
                    &&& 0 <= w < old_items.len()
                    &&& old_items[w] == item
                    &&& index_items(index) == old_items.remove(w)
                };
            if w != i0 {
                if w < i0 {
                    assert(item_lt(old_items[w], old_items[i0]));
                } else {
                    assert(item_lt(old_items[i0], old_items[w]));
                }
            }
            assert(index_items(index) == old_items.remove(i0));
            assert(item.1 < slots@.len());
        }
        let mut entry: Option<(u64, V)> = None;
        std::mem::swap(&mut slots[item.1], &mut entry);
        let value = match entry {
            Some(e) => {
                proof {
                    assert(e == old_slots[item.1 as int]->Some_0);
                    assert(e.0 == key);
                }
                e.1
            },
            None => {
                proof { assert(false); }
                *self = OrderedSkipMap { index, slots };
                return None;
            },
        };
        proof {
            let items2 = index_items(index);
            assert forall|a: int, b: int| 0 <= a < b < items2.len() implies item_lt(#[trigger] items2[a], #[trigger] items2[b]) by {
                if b < i0 {
                } else if a >= i0 {
                    assert(items2[a] == old_items[a + 1]);
                    assert(items2[b] == old_items[b + 1]);
                } else {
                    assert(items2[b] == old_items[b + 1]);
                }
            }
            assert forall|a: int| 0 <= a < items2.len() implies {
                &&& (#[trigger] items2[a]).1 < slots@.len()
                &&& slots@[items2[a].1 as int] is Some
                &&& slots@[items2[a].1 as int]->Some_0.0 == items2[a].0
            } by {
                let oa = if a < i0 { a } else { a + 1 };
                assert(items2[a] == old_items[oa]);
                if old_items[oa].1 == item.1 {
                    assert(old_slots[item.1 as int]->Some_0.0 == item.0);
                    assert(old_items[oa] == item);
                    if oa < i0 {
                        assert(item_lt(old_items[oa], old_items[i0]));
                    } else {
                        assert(item_lt(old_items[i0], old_items[oa]));
                    }
                }
            }
        }
        *self = OrderedSkipMap { index, slots };
        proof {
            let items2 = index_items(self.index);
            assert(old(self)@[i0] == (key, value));
            assert(self@ =~= old(self)@.remove(i0)) by {
                assert forall|a: int| 0 <= a < self@.len() implies self@[a] == old(self)@.remove(i0)[a] by {
                    let oa = if a < i0 { a } else { a + 1 };
                    assert(items2[a] == old_items[oa]);
                    if old_items[oa].1 == item.1 {
                        if oa < i0 {
                            assert(item_lt(old_items[oa], old_items[i0]));
                        } else {
                            assert(item_lt(old_items[i0], old_items[oa]));
                        }
                    }
                }
            }
            assert forall|j: int| 0 <= j < i0 implies (#[trigger] old(self)@[j]).0 != key by {
                assert(old(self)@[j].0 == items@[j].0);
            }
        }
        Some(value)
    }

    /// Inserts `value` under `key`, after every entry whose key is not larger.
    pub fn insert(&mut self, key: u64, value: V)
        ensures
            exists|i: int|
                {
                    &&& 0 <= i <= old(self)@.len()
                    &&& final(self)@ == old(self)@.insert(i, (key, value))
                    &&& forall|j: int| 0 <= j < i ==> (#[trigger] old(self)@[j]).0 <= key
                    &&& forall|j: int| i <= j < old(self)@.len() ==> (#[trigger] old(self)@[j]).0 > key
                },
    {
        proof { use_type_invariant(&*self); }
        let mut taken = OrderedSkipMap::new();
        std::mem::swap(self, &mut taken);
        proof { use_type_invariant(&taken); }
        let OrderedSkipMap { index: mut index, slots: mut slots } = taken;
        let ghost old_items = index_items(index);
        let slot = slots.len();
        slots.push(Some((key, value)));
        index_insert(&mut index, (key, slot));
        proof {
            let items = index_items(index);
            let i = choose|i: int|
                {
                    &&& 0 <= i <= old_items.len()
                    &&& items == old_items.insert(i, (key, slot))
                    &&& forall|j: int| 0 <= j < i ==> item_le(#[trigger] old_items[j], (key, slot))
                    &&& forall|j: int| i <= j < old_items.len() ==> item_le((key, slot), #[trigger] old_items[j])
                };
            assert forall|a: int, b: int| 0 <= a < b < items.len() implies item_lt(#[trigger] items[a], #[trigger] items[b]) by {
                if b < i {
                } else if a > i {
                    assert(items[a] == old_items[a - 1]);
                    assert(items[b] == old_items[b - 1]);
                } else if a == i {
                    assert(item_le((key, slot), old_items[b - 1]));
                    assert(old_items[b - 1].1 < slot);
                } else if b == i {
                    assert(item_le(old_items[a], (key, slot)));
                    assert(old_items[a].1 < slot);
                } else {
                    assert(items[b] == old_items[b - 1]);
                    assert(item_le(old_items[a], (key, slot)));
                    assert(item_le((key, slot), old_items[b - 1]));
                }
            }
            assert forall|a: int| 0 <= a < items.len() implies {
                &&& (#[trigger] items[a]).1 < slots@.len()
                &&& slots@[items[a].1 as int] is Some
                &&& slots@[items[a].1 as int]->Some_0.0 == items[a].0
            } by {
                if a < i {
                } else if a > i {
                    assert(items[a] == old_items[a - 1]);
                }
            }
        }
        *self = OrderedSkipMap { index, slots };
        proof {
            let items = index_items(self.index);
            let i = choose|i: int|
                {
                    &&& 0 <= i <= old_items.len()
                    &&& items == old_items.insert(i, (key, slot))
                    &&& forall|j: int| 0 <= j < i ==> item_le(#[trigger] old_items[j], (key, slot))
                    &&& forall|j: int| i <= j < old_items.len() ==> item_le((key, slot), #[trigger] old_items[j])
                };
            assert forall|j: int| 0 <= j < i implies (#[trigger] old(self)@[j]).0 <= key by {
                assert(item_le(old_items[j], (key, slot)));
            }
            assert forall|j: int| i <= j < old(self)@.len() implies (#[trigger] old(self)@[j]).0 > key by {
                assert(item_le((key, slot), old_items[j]));
                assert(old_items[j].1 < slot);
            }
            assert(self@ =~= old(self)@.insert(i, (key, value))) by {
                assert forall|a: int| 0 <= a < self@.len() implies self@[a] == old(self)@.insert(i, (key, value))[a] by {
                    if a < i {
                        assert(old_items[a].1 < slot);
                    } else if a > i {
                        assert(items[a] == old_items[a - 1]);
                        assert(old_items[a - 1].1 < slot);
                    }
                }
            }
        }
    }
}

} // verus!
