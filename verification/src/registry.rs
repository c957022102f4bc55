//! A keyed collection that remembers its entries in a fixed order. A concurrent
//! hash map finds the slot of a key; the slots themselves hold the entries.
use crate::text::texts;
use dashmap::DashMap;
use vstd::prelude::*;
use vstd::string::*;

verus! {

/// The concurrent hash map of the `dashmap` crate.
#[verifier::external_type_specification]
#[verifier::external_body]
#[verifier::reject_recursive_types(K)]
#[verifier::reject_recursive_types(V)]
#[verifier::reject_recursive_types(S)]
pub struct ExDashMap<K, V, S>(dashmap::DashMap<K, V, S>);

/// What a map from keys to slot numbers holds.
pub uninterp spec fn slot_numbers(m: DashMap<String, usize>) -> Map<Seq<char>, usize>;

/// `DashMap::new` makes a map that holds nothing.
#[verifier::external_body]
fn dash_new() -> (m: DashMap<String, usize>)
    ensures
        slot_numbers(m).dom() == Set::<Seq<char>>::empty(),
{
    DashMap::new()
}

/// `DashMap::get` finds the value that stands under a key, and nothing where the
/// key is absent. Keys are equal when their characters are.
#[verifier::external_body]
fn dash_get(m: &DashMap<String, usize>, key: &str) -> (r: Option<usize>)
    ensures
        r == (if slot_numbers(*m).contains_key(key@) {
            Some(slot_numbers(*m)[key@])
        } else {
            None
        }),
{
    m.get(key).map(|entry| *entry.value())
}

/// `DashMap::insert` puts a value under a key, in place of the one that stood there.
#[verifier::external_body]
fn dash_insert(m: &mut DashMap<String, usize>, key: String, slot: usize)
    ensures
        slot_numbers(*final(m)) == slot_numbers(*old(m)).insert(key@, slot),
{
    m.insert(key, slot);
}

/// `DashMap::remove` takes a key out, with its value, if it is there.
#[verifier::external_body]
fn dash_remove(m: &mut DashMap<String, usize>, key: &str)
    ensures
        slot_numbers(*final(m)) == slot_numbers(*old(m)).remove(key@),
{
    m.remove(key);
}

/// `DashMap::clear` takes everything out.
#[verifier::external_body]
fn dash_clear(m: &mut DashMap<String, usize>)
    ensures
        slot_numbers(*final(m)).dom() == Set::<Seq<char>>::empty(),
{
    m.clear();
}

/// Each key with the value that stands beside its first occurrence.
pub open spec fn table<V>(keys: Seq<Seq<char>>, values: Seq<V>) -> Map<Seq<char>, V> {
    Map::new(|k: Seq<char>| keys.contains(k), |k: Seq<char>| values[keys.index_of(k)])
}

proof fn lemma_table_update<V>(keys: Seq<Seq<char>>, values: Seq<V>, i: int, v: V)
    requires
        keys.no_duplicates(),
        keys.len() == values.len(),
        0 <= i < keys.len(),
    ensures
        table(keys, values.update(i, v)) == table(keys, values).insert(keys[i], v),
{
    assert(keys.contains(keys[i]));
    assert(table(keys, values.update(i, v)) =~= table(keys, values).insert(keys[i], v));
}

/// Values under distinct text keys.
pub struct Registry<V> {
    index: DashMap<String, usize>,
    slots: Vec<(String, V)>,
}

impl<V> Registry<V> {
    /// The index names exactly the slots, each under its own key.
    pub closed spec fn wf(&self) -> bool {
        &&& forall|i: int|
            0 <= i < self.slots@.len() ==> {
                &&& slot_numbers(self.index).contains_key(#[trigger] self.slots@[i].0@)
                &&& slot_numbers(self.index)[self.slots@[i].0@] == i
            }
        &&& forall|k: Seq<char>| #[trigger]
            slot_numbers(self.index).contains_key(k) ==> {
                &&& slot_numbers(self.index)[k] < self.slots@.len()
                &&& self.slots@[slot_numbers(self.index)[k] as int].0@ == k
            }
    }

    /// The keys in slot order.
    pub closed spec fn order(&self) -> Seq<Seq<char>> {
        self.slots@.map_values(|s: (String, V)| s.0@)
    }

    /// The values in slot order.
    pub closed spec fn values(&self) -> Seq<V> {
        self.slots@.map_values(|s: (String, V)| s.1)
    }

    pub open spec fn view(&self) -> Map<Seq<char>, V> {
        table(self.order(), self.values())
    }

    /// The keys are distinct, and the values stand under them in the same order.
    pub proof fn lemma_order(&self)
        requires
            self.wf(),
        ensures
            self.order().no_duplicates(),
            self.order().len() == self.values().len(),
            self@.dom() == self.order().to_set(),
            self@.dom().finite(),
            self@.dom().len() == self.order().len(),
            forall|i: int|
                0 <= i < self.order().len() ==> self@.contains_key(#[trigger] self.order()[i])
                    && self@[self.order()[i]] == self.values()[i],
    {
        let order = self.order();
        assert forall|i: int, j: int|
            0 <= i < order.len() && 0 <= j < order.len() && i != j implies order[i] != order[j] by {
            assert(order[i] == self.slots@[i].0@);
            assert(order[j] == self.slots@[j].0@);
        }
        assert(order.no_duplicates());
        assert(self@.dom() =~= order.to_set());
        order.unique_seq_to_set();
        assert forall|i: int| 0 <= i < order.len() implies self@.contains_key(#[trigger] order[i])
            && self@[order[i]] == self.values()[i] by {
            assert(order.contains(order[i]));
            assert(order.index_of(order[i]) == i);
        }
    }

    /// A key is present exactly where the index names a slot for it.
    proof fn lemma_index(&self, k: Seq<char>)
        requires
            self.wf(),
        ensures
            self@.contains_key(k) <==> slot_numbers(self.index).contains_key(k),
            slot_numbers(self.index).contains_key(k) ==> {
                let i = slot_numbers(self.index)[k] as int;
                &&& 0 <= i < self.slots@.len()
                &&& self.order()[i] == k
                &&& self@[k] == self.slots@[i].1
                &&& self.values()[i] == self.slots@[i].1
            },
    {
        self.lemma_order();
        if slot_numbers(self.index).contains_key(k) {
            let i = slot_numbers(self.index)[k] as int;
            assert(self.order()[i] == k);
        }
        if self@.contains_key(k) {
            let i = self.order().index_of(k);
            assert(self.slots@[i].0@ == k);
        }
    }

    /// An empty registry.
    pub fn new() -> (r: Self)
        ensures
            r.wf(),
            r@ == Map::<Seq<char>, V>::empty(),
            r.order() == Seq::<Seq<char>>::empty(),
            r.values() == Seq::<V>::empty(),
    {
        let r = Registry { index: dash_new(), slots: Vec::new() };
        assert(r.order() =~= Seq::<Seq<char>>::empty());
        assert(r.values() =~= Seq::<V>::empty());
        assert(r@ =~= Map::<Seq<char>, V>::empty());
        r
    }

    /// How many keys there are.
    pub fn len(&self) -> (r: usize)
        ensures
            r == self.order().len(),
            self.wf() ==> r == self@.dom().len(),
    {
        proof {
            if self.wf() {
                self.lemma_order();
            }
        }
        self.slots.len()
    }

    /// Whether a key is present.
    pub fn contains_key(&self, key: &str) -> (r: bool)
        requires
            self.wf(),
        ensures
            r == self@.contains_key(key@),
    {
        proof {
            self.lemma_index(key@);
        }
        dash_get(&self.index, key).is_some()
    }

    /// The value under a key.
    pub fn get(&self, key: &str) -> (r: Option<&V>)
        requires
            self.wf(),
        ensures
            match r {
                Some(v) => self@.contains_key(key@) && *v == self@[key@],
                None => !self@.contains_key(key@),
            },
    {
        proof {
            self.lemma_index(key@);
        }
        match dash_get(&self.index, key) {
            Some(i) => Some(&self.slots[i].1),
            None => None,
        }
    }

    /// The key in slot `i`.
    pub fn key_at(&self, i: usize) -> (r: &String)
        requires
            i < self.order().len(),
        ensures
            r@ == self.order()[i as int],
    {
        &self.slots[i].0
    }

    /// The value in slot `i`.
    pub fn value_at(&self, i: usize) -> (r: &V)
        requires
            i < self.order().len(),
        ensures
            *r == self.values()[i as int],
    {
        &self.slots[i].1
    }

    /// The value in slot `i`, to be changed.
    pub fn value_at_mut(&mut self, i: usize) -> (r: &mut V)
        requires
            old(self).wf(),
            i < old(self).order().len(),
        ensures
            *r == old(self).values()[i as int],
            final(self).wf(),
            final(self).order() == old(self).order(),
            final(self).values() == old(self).values().update(i as int, *final(r)),
            final(self)@ == old(self)@.insert(old(self).order()[i as int], *final(r)),
    {
        proof {
            self.lemma_order();
            let keys = self.order();
            let values = self.values();
            assert forall|v: V|
                table(keys, #[trigger] values.update(i as int, v)) == table(keys, values).insert(
                    keys[i as int],
                    v,
                ) by {
                lemma_table_update(keys, values, i as int, v);
            }
        }
        &mut self.slots[i].1
    }

    /// The value under a key, to be changed.
    pub fn get_mut(&mut self, key: &str) -> (r: Option<&mut V>)
        requires
            old(self).wf(),
        ensures
            match r {
                Some(v) => {
                    &&& old(self)@.contains_key(key@)
                    &&& *v == old(self)@[key@]
                    &&& final(self).wf()
                    &&& final(self).order() == old(self).order()
                    &&& final(self)@ == old(self)@.insert(key@, *final(v))
                },
                None => !old(self)@.contains_key(key@) && *final(self) == *old(self),
            },
    {
        proof {
            self.lemma_index(key@);
        }
        match dash_get(&self.index, key) {
            Some(i) => Some(self.value_at_mut(i)),
            None => None,
        }
    }

    /// Puts a value under a key and gives back the one that stood there.
    pub fn insert(&mut self, key: String, value: V) -> (r: Option<V>)
        requires
            old(self).wf(),
        ensures
            final(self).wf(),
            final(self)@ == old(self)@.insert(key@, value),
            r == (if old(self)@.contains_key(key@) {
                Some(old(self)@[key@])
            } else {
                None
            }),
            old(self)@.contains_key(key@) ==> final(self).order() == old(self).order(),
            !old(self)@.contains_key(key@) ==> {
                &&& final(self).order() == old(self).order().push(key@)
                &&& final(self).values() == old(self).values().push(value)
            },
    {
        proof {
            self.lemma_index(key@);
            self.lemma_order();
        }
        match dash_get(&self.index, key.as_str()) {
            Some(i) => {
                let mut value = value;
                let slot = self.value_at_mut(i);
                std::mem::swap(slot, &mut value);
                Some(value)
            },
            None => {
                let ghost before = *self;
                let i: usize = self.slots.len();
                dash_insert(&mut self.index, key.clone(), i);
                self.slots.push((key, value));
                proof {
                    assert(self.order() =~= before.order().push(key@));
                    assert(self.values() =~= before.values().push(value));
                    assert forall|j: int| 0 <= j < self.slots@.len() implies {
                        &&& slot_numbers(self.index).contains_key(#[trigger] self.slots@[j].0@)
                        &&& slot_numbers(self.index)[self.slots@[j].0@] == j
                    } by {
                        if j < i {
                            assert(self.slots@[j] == before.slots@[j]);
                            assert(before.order()[j] == before.slots@[j].0@);
                        }
                    }
                    assert(self.wf());
                    self.lemma_order();
                    assert forall|k: Seq<char>| #[trigger] self@.contains_key(k) implies self@[k]
                        == before@.insert(key@, value)[k] by {
                        let j = self.order().index_of(k);
                        assert(self.order()[j] == k);
                    }
                    assert forall|k: Seq<char>| before@.insert(key@, value).contains_key(k) implies
                        #[trigger] self@.contains_key(k) by {
                        if k == key@ {
                            assert(self.order()[i as int] == k);
                        } else {
                            let j = before.order().index_of(k);
                            assert(self.order()[j] == k);
                        }
                    }
                    assert(self@ =~= before@.insert(key@, value));
                }
                None
            },
        }
    }

    /// Takes a key out and gives back the value that stood there.
    pub fn remove(&mut self, key: &str) -> (r: Option<V>)
        requires
            old(self).wf(),
        ensures
            final(self).wf(),
            final(self)@ == old(self)@.remove(key@),
            r == (if old(self)@.contains_key(key@) {
                Some(old(self)@[key@])
            } else {
                None
            }),
            !old(self)@.contains_key(key@) ==> *final(self) == *old(self),
    {
        proof {
            self.lemma_index(key@);
            self.lemma_order();
        }
        match dash_get(&self.index, key) {
            None => {
                assert(self@ =~= old(self)@.remove(key@));
                None
            },
            Some(i) => {
                let ghost before = *self;
                let last: usize = self.slots.len() - 1;
                if i != last {
                    let moved: String = self.slots[last].0.clone();
                    dash_insert(&mut self.index, moved, i);
                }
                dash_remove(&mut self.index, key);
                let taken = self.slots.swap_remove(i);
                proof {
                    assert(before.order()[last as int] == before.slots@[last as int].0@);
                    assert forall|j: int| 0 <= j < self.slots@.len() implies {
                        &&& slot_numbers(self.index).contains_key(#[trigger] self.slots@[j].0@)
                        &&& slot_numbers(self.index)[self.slots@[j].0@] == j
                        &&& before@.contains_key(self.slots@[j].0@)
                        &&& before@[self.slots@[j].0@] == self.slots@[j].1
                        &&& self.slots@[j].0@ != key@
                    } by {
                        let from = if j == i { last as int } else { j };
                        assert(self.slots@[j] == before.slots@[from]);
                        assert(before.order()[from] == before.slots@[from].0@);
                        assert(before.values()[from] == before.slots@[from].1);
                    }
                    assert forall|k: Seq<char>| #[trigger]
                        slot_numbers(self.index).contains_key(k) implies {
                        &&& slot_numbers(self.index)[k] < self.slots@.len()
                        &&& self.slots@[slot_numbers(self.index)[k] as int].0@ == k
                    } by {
                        before.lemma_index(k);
                    }
                    assert(self.wf());
                    assert forall|k: Seq<char>|
                        #[trigger] self@.contains_key(k) <==> before@.remove(key@).contains_key(k) by {
                        self.lemma_index(k);
                        before.lemma_index(k);
                    }
                    assert forall|k: Seq<char>| #[trigger] self@.contains_key(k) implies self@[k]
                        == before@.remove(key@)[k] by {
                        self.lemma_index(k);
                    }
                    assert(self@ =~= before@.remove(key@));
                }
                Some(taken.1)
            },
        }
    }

    /// Takes several keys out.
    pub fn remove_keys(&mut self, keys: &Vec<String>)
        requires
            old(self).wf(),
        ensures
            final(self).wf(),
            final(self)@ == old(self)@.remove_keys(texts(keys@).to_set()),
    {
        let ghost all = texts(keys@);
        let ghost before = self@;
        let mut i: usize = 0;
        assert(before.remove_keys(all.take(0).to_set()) =~= before);
        while i < keys.len()
            invariant
                self.wf(),
                all == texts(keys@),
                0 <= i <= all.len(),
                self@ == before.remove_keys(all.take(i as int).to_set()),
            decreases all.len() - i,
        {
            self.remove(keys[i].as_str());
            proof {
                assert(all[i as int] == keys@[i as int]@);
                assert forall|k: Seq<char>|
                    all.take(i + 1).contains(k) <==> all.take(i as int).contains(k) || k == all[i as int] by {
                    if all.take(i as int).contains(k) {
                        let m = all.take(i as int).index_of(k);
                        assert(all.take(i + 1)[m] == k);
                    }
                    if all.take(i + 1).contains(k) {
                        let m = all.take(i + 1).index_of(k);
                        if m < i {
                            assert(all.take(i as int)[m] == k);
                        }
                    }
                    assert(all.take(i + 1)[i as int] == all[i as int]);
                }
                assert(self@ =~= before.remove_keys(all.take(i + 1).to_set()));
            }
            i = i + 1;
        }
        assert(all.take(i as int) =~= all);
    }

    /// Takes everything out.
    pub fn clear(&mut self)
        ensures
            final(self).wf(),
            final(self)@ == Map::<Seq<char>, V>::empty(),
            final(self).order() == Seq::<Seq<char>>::empty(),
    {
        dash_clear(&mut self.index);
        self.slots.clear();
        assert(self.order() =~= Seq::<Seq<char>>::empty());
        assert(self@ =~= Map::<Seq<char>, V>::empty());
    }

    /// The keys, in slot order.
    pub fn keys(&self) -> (r: Vec<String>)
        ensures
            texts(r@) == self.order(),
    {
        let mut out: Vec<String> = Vec::new();
        let mut i: usize = 0;
        while i < self.slots.len()
            invariant
                0 <= i <= self.slots@.len(),
                texts(out@) == self.order().take(i as int),
            decreases self.slots@.len() - i,
        {
            let ghost so_far = texts(out@);
            out.push(self.slots[i].0.clone());
            assert(texts(out@) =~= so_far.push(self.slots@[i as int].0@));
            assert(self.order().take(i + 1) =~= so_far.push(self.order()[i as int]));
            i = i + 1;
        }
        assert(self.order().take(i as int) =~= self.order());
        out
    }

}

/// Among distinct keys, those that pass a test are distinct too, and they are the
/// members of the set that pass it.
pub proof fn lemma_count(keys: Seq<Seq<char>>, test: spec_fn(Seq<char>) -> bool)
    requires
        keys.no_duplicates(),
    ensures
        keys.filter(test).no_duplicates(),
        keys.filter(test).to_set() == keys.to_set().filter(test),
        keys.filter(test).len() == keys.to_set().filter(test).len(),
        keys.to_set().filter(test).finite(),
    decreases keys.len(),
{
    reveal(Seq::filter);
    if keys.len() == 0 {
        assert(keys.filter(test).to_set() =~= keys.to_set().filter(test));
    } else {
        let rest = keys.drop_last();
        let last = keys.last();
        lemma_count(rest, test);
        assert(!rest.contains(last));
        assert forall|k: Seq<char>| keys.contains(k) <==> rest.contains(k) || k == last by {
            if keys.contains(k) {
                let i = keys.index_of(k);
                if i < rest.len() {
                    assert(rest[i] == k);
                }
            }
            if rest.contains(k) {
                let i = rest.index_of(k);
                assert(keys[i] == k);
            }
            assert(keys[keys.len() - 1] == last);
        }
        let kept = rest.filter(test);
        if test(last) {
            assert(keys.filter(test) == kept.push(last));
            assert forall|k: Seq<char>| kept.push(last).contains(k) <==> kept.contains(k) || k == last by {
                if kept.contains(k) {
                    let i = kept.index_of(k);
                    assert(kept.push(last)[i] == k);
                }
                assert(kept.push(last)[kept.len() as int] == last);
            }
            assert(!kept.contains(last)) by {
                if kept.contains(last) {
                    assert(kept.to_set().contains(last));
                }
            }
            assert forall|k: Seq<char>|
                kept.push(last).contains(k) <==> keys.to_set().filter(test).contains(k) by {
                assert(kept.contains(k) <==> kept.to_set().contains(k));
            }
            assert(kept.push(last).to_set() =~= keys.to_set().filter(test));
        } else {
            assert forall|k: Seq<char>| kept.contains(k) <==> keys.to_set().filter(test).contains(k) by {
                assert(kept.contains(k) <==> kept.to_set().contains(k));
            }
            assert(kept.to_set() =~= keys.to_set().filter(test));
        }
    }
    keys.filter(test).unique_seq_to_set();
}

} // verus!
