//! Insertion-ordered containers over plain vectors.
//!
//! These stand where the host's ordered key-value stores stand in the running
//! contract: an ordered set of keys and an ordered map of key to value, both
//! iterable in insertion order and length-tracked. Removal moves the last
//! element into the vacated slot, so removing anything but the tail disturbs
//! the order of what follows; callers that depend on a stable order must only
//! ever remove the tail. Each constructed instance is its own namespace.

use vstd::prelude::*;

use crate::errors::ContractError;

verus! {

/// The position of `key` in `s`, meaningful when the keys of `s` are distinct
/// and `key` occurs in it.
pub open spec fn index_of<T>(s: Seq<T>, key: T) -> int {
    choose|i: int| 0 <= i < s.len() && s[i] == key
}

/// Whether `key` occurs in `s`.
pub open spec fn occurs<T>(s: Seq<T>, key: T) -> bool {
    exists|i: int| 0 <= i < s.len() && s[i] == key
}

/// Whether all elements of `s` are distinct.
pub open spec fn distinct<T>(s: Seq<T>) -> bool {
    forall|i: int, j: int| 0 <= i < j < s.len() ==> s[i] != s[j]
}

/// `s` after a swap-removal at position `i`: the last element moves into the
/// slot of the removed one.
pub open spec fn swap_removed<T>(s: Seq<T>, i: int) -> Seq<T> {
    s.update(i, s[s.len() - 1]).drop_last()
}

/// A family of ordered sets after adding `x` to the set under `key`: the set
/// is extended in place, a fresh one-element set is appended for a key not
/// seen before, and an element already present is left alone.
pub open spec fn family_add<K, E>(m: Seq<(K, Seq<E>)>, key: K, x: E) -> Seq<(K, Seq<E>)> {
    let keys = m.map_values(|p: (K, Seq<E>)| p.0);
    if occurs(keys, key) {
        let i = index_of(keys, key);
        if occurs(m[i].1, x) {
            m
        } else {
            m.update(i, (key, m[i].1.push(x)))
        }
    } else {
        m.push((key, Seq::<E>::empty().push(x)))
    }
}

/// A family of ordered sets after a tolerant removal of `x` from the set
/// under `key`: a swap-removal inside that set, and no change at all when the
/// key or the element is absent.
pub open spec fn family_remove<K, E>(m: Seq<(K, Seq<E>)>, key: K, x: E) -> Seq<(K, Seq<E>)> {
    let keys = m.map_values(|p: (K, Seq<E>)| p.0);
    if occurs(keys, key) {
        let i = index_of(keys, key);
        if occurs(m[i].1, x) {
            m.update(i, (key, swap_removed(m[i].1, index_of(m[i].1, x))))
        } else {
            m
        }
    } else {
        m
    }
}

/// An insertion-ordered set of strings.
pub struct StringSet {
    pub items: Vec<String>,
}

impl StringSet {
    /// The elements, in insertion order.
    pub open spec fn model(&self) -> Seq<Seq<char>> {
        self.items@.map_values(|s: String| s@)
    }

    /// The elements are distinct and the tracked length fits the store's
    /// 32-bit length counter.
    pub open spec fn wf(&self) -> bool {
        &&& distinct(self.model())
        &&& self.model().len() <= u32::MAX
    }

    /// Whether `key` is an element.
    pub open spec fn spec_contains(&self, key: Seq<char>) -> bool {
        occurs(self.model(), key)
    }

    /// The empty set.
    pub fn new() -> (r: StringSet)
        ensures
            r.model() == Seq::<Seq<char>>::empty(),
            r.wf(),
    {
        StringSet { items: Vec::new() }
    }

    /// How many elements are stored.
    pub fn get_len(&self) -> (r: u32)
        requires
            self.wf(),
        ensures
            r == self.model().len(),
    {
        self.items.len() as u32
    }

    /// Whether nothing is stored.
    pub fn is_empty(&self) -> (r: bool)
        ensures
            r == (self.model().len() == 0),
    {
        self.items.len() == 0
    }

    /// The position of `value`, or the length if it is absent.
    fn find(&self, value: &String) -> (r: usize)
        ensures
            r <= self.model().len(),
            r < self.model().len() ==> self.model()[r as int] == value@,
            forall|i: int| 0 <= i < r ==> self.model()[i] != value@,
    {
        let mut i: usize = 0;
        while i < self.items.len()
            invariant
                i <= self.model().len(),
                forall|j: int| 0 <= j < i ==> self.model()[j] != value@,
            decreases self.items.len() - i,
        {
            if self.items[i] == *value {
                return i;
            }
            i = i + 1;
        }
        i
    }

    /// Whether `value` is an element.
    pub fn contains(&self, value: &String) -> (r: bool)
        ensures
            r == self.spec_contains(value@),
    {
        let i = self.find(value);
        i < self.items.len()
    }

    /// Adds `value` at the end if it is absent; reports whether it was added.
    pub fn insert(&mut self, value: &String) -> (r: bool)
        requires
            old(self).wf(),
            old(self).model().len() < u32::MAX,
        ensures
            final(self).wf(),
            r == !old(self).spec_contains(value@),
            old(self).spec_contains(value@) ==> final(self).model() == old(self).model(),
            !old(self).spec_contains(value@) ==> final(self).model() == old(self).model().push(
                value@,
            ),
    {
        let i = self.find(value);
        if i < self.items.len() {
            assert(self.model() =~= old(self).model());
            false
        } else {
            self.items.push(value.clone());
            assert(self.model() =~= old(self).model().push(value@));
            true
        }
    }

    /// Removes `value` by moving the last element into its slot; fails when it
    /// is absent.
    pub fn remove(&mut self, value: &String) -> (r: Result<(), ContractError>)
        requires
            old(self).wf(),
        ensures
            final(self).wf(),
            r is Err <==> !old(self).spec_contains(value@),
            r is Err ==> r == Err::<(), ContractError>(ContractError::NotFound) && *final(self)
                == *old(self),
            r is Ok ==> final(self).model() == swap_removed(
                old(self).model(),
                index_of(old(self).model(), value@),
            ),
    {
        let i = self.find(value);
        if i < self.items.len() {
            self.items.swap_remove(i);
            proof {
                let m = old(self).model();
                let k = index_of(m, value@);
                assert(m[i as int] == value@);
                assert(m[k] == value@);
                assert(k == i);
                assert(self.model() =~= swap_removed(m, i as int));
            }
            Ok(())
        } else {
            Err(ContractError::NotFound)
        }
    }

    /// The element at position `i`.
    pub fn at(&self, i: usize) -> (r: &String)
        requires
            i < self.model().len(),
        ensures
            r@ == self.model()[i as int],
    {
        &self.items[i]
    }
}

/// Over distinct elements, a swap-removal removes exactly the element at the
/// removed position and keeps the rest distinct.
pub proof fn lemma_swap_removed_props<T>(s: Seq<T>, i: int)
    requires
        0 <= i < s.len(),
        distinct(s),
    ensures
        distinct(swap_removed(s, i)),
        swap_removed(s, i).len() == s.len() - 1,
        forall|x: T| occurs(swap_removed(s, i), x) <==> occurs(s, x) && x != s[i],
{
    let r = swap_removed(s, i);
    assert forall|x: T| occurs(r, x) implies occurs(s, x) && x != s[i] by {
        let q = index_of(r, x);
        assert(r[q] == x);
        if q == i && i < s.len() - 1 {
            assert(s[s.len() - 1] == x);
        } else {
            assert(s[q] == x);
        }
        assert(occurs(s, x));
        assert(x != s[i]);
    }
    assert forall|x: T| occurs(s, x) && x != s[i] implies occurs(r, x) by {
        let q = index_of(s, x);
        assert(s[q] == x);
        assert(q != i);
        if q == s.len() - 1 {
            assert(i < s.len() - 1);
            assert(r[i] == x);
        } else {
            assert(r[q] == x);
        }
    }
    assert forall|a: int, b: int| 0 <= a < b < r.len() implies r[a] != r[b] by {
        let va = if a == i {
            s[s.len() - 1]
        } else {
            s[a]
        };
        let vb = if b == i {
            s[s.len() - 1]
        } else {
            s[b]
        };
        assert(r[a] == va && r[b] == vb);
    }
}

/// Distinct elements that all occur in another sequence are no more numerous
/// than it.
pub proof fn lemma_distinct_contained_len<T>(a: Seq<T>, b: Seq<T>)
    requires
        distinct(a),
        forall|i: int| 0 <= i < a.len() ==> occurs(b, #[trigger] a[i]),
    ensures
        a.len() <= b.len(),
{
    broadcast use vstd::seq_lib::seq_to_set_is_finite;

    assert(a.no_duplicates());
    a.unique_seq_to_set();
    b.lemma_cardinality_of_set();
    assert forall|x: T| a.to_set().contains(x) implies b.to_set().contains(x) by {
        assert(a.contains(x));
        let i = choose|i: int| 0 <= i < a.len() && a[i] == x;
        assert(occurs(b, a[i]));
        assert(b.contains(x));
    }
    vstd::set_lib::lemma_len_subset(a.to_set(), b.to_set());
}

impl View for StringSet {
    type V = Seq<Seq<char>>;

    open spec fn view(&self) -> Seq<Seq<char>> {
        self.model()
    }
}

impl Clone for StringSet {
    /// An element-wise copy with the same model.
    fn clone(&self) -> (res: Self)
        ensures
            res@ == self@,
    {
        let mut items: Vec<String> = Vec::new();
        let mut i: usize = 0;
        while i < self.items.len()
            invariant
                i <= self.items@.len(),
                items@.len() == i,
                forall|j: int| 0 <= j < i ==> items@[j] == self.items@[j],
            decreases self.items.len() - i,
        {
            items.push(self.items[i].clone());
            i = i + 1;
        }
        let res = StringSet { items };
        proof {
            assert(res.model() =~= self.model());
        }
        res
    }
}

impl View for NumberSet {
    type V = Seq<i32>;

    open spec fn view(&self) -> Seq<i32> {
        self.model()
    }
}

impl Clone for NumberSet {
    /// An element-wise copy with the same model.
    fn clone(&self) -> (res: Self)
        ensures
            res@ == self@,
    {
        let mut items: Vec<i32> = Vec::new();
        let mut i: usize = 0;
        while i < self.items.len()
            invariant
                i <= self.items@.len(),
                items@.len() == i,
                forall|j: int| 0 <= j < i ==> items@[j] == self.items@[j],
            decreases self.items.len() - i,
        {
            items.push(self.items[i]);
            i = i + 1;
        }
        let res = NumberSet { items };
        proof {
            assert(res.model() =~= self.model());
        }
        res
    }
}

/// An insertion-ordered map from string keys to values.
pub struct OrderedMap<V> {
    pub pairs: Vec<(String, V)>,
}

impl<V: View> OrderedMap<V> {
    /// The key-value pairs, in insertion order, with keys and values abstracted.
    pub open spec fn model(&self) -> Seq<(Seq<char>, V::V)> {
        self.pairs@.map_values(|p: (String, V)| (p.0@, p.1@))
    }

    /// The keys, in insertion order.
    pub open spec fn key_model(&self) -> Seq<Seq<char>> {
        self.pairs@.map_values(|p: (String, V)| p.0@)
    }

    /// The keys are distinct and the tracked length fits the store's 32-bit
    /// length counter.
    pub open spec fn wf(&self) -> bool {
        &&& distinct(self.key_model())
        &&& self.model().len() <= u32::MAX
    }

    /// Whether `key` is a key of the map.
    pub open spec fn spec_contains(&self, key: Seq<char>) -> bool {
        occurs(self.key_model(), key)
    }

    /// The value stored under `key`, meaningful when `key` is present.
    pub open spec fn spec_get(&self, key: Seq<char>) -> V::V {
        self.model()[index_of(self.key_model(), key)].1
    }

    /// The two spellings of the model agree pointwise.
    pub proof fn lemma_models_agree(&self)
        ensures
            self.key_model().len() == self.model().len(),
            forall|i: int|
                #![trigger self.key_model()[i]]
                #![trigger self.model()[i].0]
                0 <= i < self.model().len() ==> self.key_model()[i] == self.model()[i].0,
    {
    }

    /// The empty map.
    pub fn new() -> (r: OrderedMap<V>)
        ensures
            r.model() == Seq::<(Seq<char>, V::V)>::empty(),
            r.wf(),
    {
        let r = OrderedMap { pairs: Vec::new() };
        proof {
            assert(r.model() =~= Seq::<(Seq<char>, V::V)>::empty());
        }
        r
    }

    /// How many pairs are stored.
    pub fn get_len(&self) -> (r: u32)
        requires
            self.wf(),
        ensures
            r == self.model().len(),
    {
        self.pairs.len() as u32
    }

    /// Whether nothing is stored.
    pub fn is_empty(&self) -> (r: bool)
        ensures
            r == (self.model().len() == 0),
    {
        self.pairs.len() == 0
    }

    /// The position of `key`, or the length if it is absent.
    fn find(&self, key: &String) -> (r: usize)
        ensures
            r <= self.key_model().len(),
            r < self.key_model().len() ==> self.key_model()[r as int] == key@,
            forall|i: int| 0 <= i < r ==> self.key_model()[i] != key@,
    {
        let mut i: usize = 0;
        while i < self.pairs.len()
            invariant
                i <= self.key_model().len(),
                forall|j: int| 0 <= j < i ==> self.key_model()[j] != key@,
            decreases self.pairs.len() - i,
        {
            if self.pairs[i].0 == *key {
                return i;
            }
            i = i + 1;
        }
        i
    }

    /// Whether a value is stored under `key`.
    pub fn contains(&self, key: &String) -> (r: bool)
        ensures
            r == self.spec_contains(key@),
    {
        let i = self.find(key);
        i < self.pairs.len()
    }

    /// The value stored under `key`, if any.
    pub fn get(&self, key: &String) -> (r: Option<&V>)
        requires
            self.wf(),
        ensures
            r is Some <==> self.spec_contains(key@),
            r matches Some(v) ==> v@ == self.spec_get(key@),
    {
        let i = self.find(key);
        if i < self.pairs.len() {
            proof {
                let k = index_of(self.key_model(), key@);
                assert(self.key_model()[k] == key@);
                assert(k == i);
            }
            Some(&self.pairs[i].1)
        } else {
            None
        }
    }

    /// Stores `value` under `key`: in place when the key is present, at the
    /// end when it is new.
    pub fn insert(&mut self, key: &String, value: V)
        requires
            old(self).wf(),
            old(self).model().len() < u32::MAX,
        ensures
            final(self).wf(),
            old(self).spec_contains(key@) ==> final(self).model() == old(self).model().update(
                index_of(old(self).key_model(), key@),
                (key@, value@),
            ),
            !old(self).spec_contains(key@) ==> final(self).model() == old(self).model().push(
                (key@, value@),
            ),
    {
        let i = self.find(key);
        if i < self.pairs.len() {
            proof {
                let k = index_of(old(self).key_model(), key@);
                assert(old(self).key_model()[k] == key@);
                assert(k == i);
            }
            self.pairs.set(i, (key.clone(), value));
            proof {
                let m = old(self).model().update(i as int, (key@, value@));
                assert(self.model() =~= m);
                assert(self.key_model() =~= old(self).key_model().update(i as int, key@));
                assert(self.key_model() =~= old(self).key_model());
            }
        } else {
            self.pairs.push((key.clone(), value));
            proof {
                assert(self.model() =~= old(self).model().push((key@, value@)));
                assert(self.key_model() =~= old(self).key_model().push(key@));
            }
        }
    }

    /// Removes the pair under `key` by moving the last pair into its slot;
    /// fails when the key is absent.
    pub fn remove(&mut self, key: &String) -> (r: Result<(), ContractError>)
        requires
            old(self).wf(),
        ensures
            final(self).wf(),
            r is Err <==> !old(self).spec_contains(key@),
            r is Err ==> r == Err::<(), ContractError>(ContractError::NotFound) && *final(self)
                == *old(self),
            r is Ok ==> final(self).model() == swap_removed(
                old(self).model(),
                index_of(old(self).key_model(), key@),
            ),
    {
        let i = self.find(key);
        if i < self.pairs.len() {
            self.pairs.swap_remove(i);
            proof {
                let m = old(self).model();
                let k = index_of(old(self).key_model(), key@);
                assert(old(self).key_model()[k] == key@);
                assert(k == i);
                assert(self.model() =~= swap_removed(m, i as int));
                assert(self.key_model() =~= swap_removed(old(self).key_model(), i as int));
            }
            Ok(())
        } else {
            Err(ContractError::NotFound)
        }
    }

    /// Looking a key up by position and by value agree when the keys are
    /// distinct.
    pub proof fn lemma_get_at(&self, p: int)
        requires
            self.wf(),
            0 <= p < self.model().len(),
        ensures
            self.spec_contains(self.key_model()[p]),
            self.spec_get(self.key_model()[p]) == self.model()[p].1,
            index_of(self.key_model(), self.key_model()[p]) == p,
    {
        let keys = self.key_model();
        assert(occurs(keys, keys[p]));
        let q = index_of(keys, keys[p]);
        assert(keys[q] == keys[p]);
        assert(q == p);
    }

    /// Appending a pair disturbs no earlier lookup.
    pub proof fn lemma_get_after_extend(&self, prev: Self, k: Seq<char>)
        requires
            prev.wf(),
            self.wf(),
            self.model() == prev.model().push(self.model().last()),
            occurs(prev.key_model(), k),
        ensures
            self.spec_contains(k),
            self.spec_get(k) == prev.spec_get(k),
    {
        self.lemma_models_agree();
        prev.lemma_models_agree();
        assert(self.key_model() =~= prev.key_model().push(self.key_model().last()));
        let q = index_of(prev.key_model(), k);
        assert(prev.key_model()[q] == k);
        assert(self.key_model()[q] == k);
        assert(occurs(self.key_model(), k));
        let q2 = index_of(self.key_model(), k);
        assert(self.key_model()[q2] == k);
        assert(q2 == q);
        assert(self.spec_get(k) == self.model()[q].1);
        assert(self.model()[q] == prev.model()[q]);
    }

    /// The key of the pair at position `i`.
    pub fn key_at(&self, i: usize) -> (r: &String)
        requires
            i < self.model().len(),
        ensures
            r@ == self.model()[i as int].0,
    {
        &self.pairs[i].0
    }

    /// The value of the pair at position `i`.
    pub fn val_at(&self, i: usize) -> (r: &V)
        requires
            i < self.model().len(),
        ensures
            r@ == self.model()[i as int].1,
    {
        &self.pairs[i].1
    }
}

/// An insertion-ordered map from number keys to values.
pub struct NumberMap<V> {
    pub pairs: Vec<(i32, V)>,
}

impl<V: View> NumberMap<V> {
    /// The key-value pairs, in insertion order, with values abstracted.
    pub open spec fn model(&self) -> Seq<(i32, V::V)> {
        self.pairs@.map_values(|p: (i32, V)| (p.0, p.1@))
    }

    /// The keys, in insertion order.
    pub open spec fn key_model(&self) -> Seq<i32> {
        self.pairs@.map_values(|p: (i32, V)| p.0)
    }

    /// The keys are distinct and the tracked length fits the store's 32-bit
    /// length counter.
    pub open spec fn wf(&self) -> bool {
        &&& distinct(self.key_model())
        &&& self.model().len() <= u32::MAX
    }

    /// Whether `key` is a key of the map.
    pub open spec fn spec_contains(&self, key: i32) -> bool {
        occurs(self.key_model(), key)
    }

    /// The value stored under `key`, meaningful when `key` is present.
    pub open spec fn spec_get(&self, key: i32) -> V::V {
        self.model()[index_of(self.key_model(), key)].1
    }

    /// The two spellings of the model agree pointwise.
    pub proof fn lemma_models_agree(&self)
        ensures
            self.key_model().len() == self.model().len(),
            forall|i: int|
                #![trigger self.key_model()[i]]
                #![trigger self.model()[i].0]
                0 <= i < self.model().len() ==> self.key_model()[i] == self.model()[i].0,
    {
    }

    /// Looking a key up by position and by value agree when the keys are
    /// distinct.
    pub proof fn lemma_get_at(&self, p: int)
        requires
            self.wf(),
            0 <= p < self.model().len(),
        ensures
            self.spec_contains(self.key_model()[p]),
            self.spec_get(self.key_model()[p]) == self.model()[p].1,
            index_of(self.key_model(), self.key_model()[p]) == p,
    {
        let keys = self.key_model();
        assert(occurs(keys, keys[p]));
        let q = index_of(keys, keys[p]);
        assert(keys[q] == keys[p]);
        assert(q == p);
    }

    /// The empty map.
    pub fn new() -> (r: NumberMap<V>)
        ensures
            r.model() == Seq::<(i32, V::V)>::empty(),
            r.wf(),
    {
        let r = NumberMap { pairs: Vec::new() };
        proof {
            assert(r.model() =~= Seq::<(i32, V::V)>::empty());
        }
        r
    }

    /// How many pairs are stored.
    pub fn get_len(&self) -> (r: u32)
        requires
            self.wf(),
        ensures
            r == self.model().len(),
    {
        self.pairs.len() as u32
    }

    /// The position of `key`, or the length if it is absent.
    fn find(&self, key: i32) -> (r: usize)
        ensures
            r <= self.key_model().len(),
            r < self.key_model().len() ==> self.key_model()[r as int] == key,
            forall|i: int| 0 <= i < r ==> self.key_model()[i] != key,
    {
        let mut i: usize = 0;
        while i < self.pairs.len()
            invariant
                i <= self.key_model().len(),
                forall|j: int| 0 <= j < i ==> self.key_model()[j] != key,
            decreases self.pairs.len() - i,
        {
            if self.pairs[i].0 == key {
                return i;
            }
            i = i + 1;
        }
        i
    }

    /// Whether a value is stored under `key`.
    pub fn contains(&self, key: i32) -> (r: bool)
        ensures
            r == self.spec_contains(key),
    {
        let i = self.find(key);
        i < self.pairs.len()
    }

    /// The value stored under `key`, if any.
    pub fn get(&self, key: i32) -> (r: Option<&V>)
        requires
            self.wf(),
        ensures
            r is Some <==> self.spec_contains(key),
            r matches Some(v) ==> v@ == self.spec_get(key),
    {
        let i = self.find(key);
        if i < self.pairs.len() {
            proof {
                let k = index_of(self.key_model(), key);
                assert(self.key_model()[k] == key);
                assert(k == i);
            }
            Some(&self.pairs[i].1)
        } else {
            None
        }
    }

    /// Stores `value` under `key`: in place when the key is present, at the
    /// end when it is new.
    pub fn insert(&mut self, key: i32, value: V)
        requires
            old(self).wf(),
            old(self).model().len() < u32::MAX,
        ensures
            final(self).wf(),
            old(self).spec_contains(key) ==> final(self).model() == old(self).model().update(
                index_of(old(self).key_model(), key),
                (key, value@),
            ),
            !old(self).spec_contains(key) ==> final(self).model() == old(self).model().push(
                (key, value@),
            ),
    {
        let i = self.find(key);
        if i < self.pairs.len() {
            proof {
                let k = index_of(old(self).key_model(), key);
                assert(old(self).key_model()[k] == key);
                assert(k == i);
            }
            self.pairs.set(i, (key, value));
            proof {
                let m = old(self).model().update(i as int, (key, value@));
                assert(self.model() =~= m);
                assert(self.key_model() =~= old(self).key_model().update(i as int, key));
                assert(self.key_model() =~= old(self).key_model());
            }
        } else {
            self.pairs.push((key, value));
            proof {
                assert(self.model() =~= old(self).model().push((key, value@)));
                assert(self.key_model() =~= old(self).key_model().push(key));
            }
        }
    }
}

/// An insertion-ordered set of numbers.
pub struct NumberSet {
    pub items: Vec<i32>,
}

impl NumberSet {
    /// The elements, in insertion order.
    pub open spec fn model(&self) -> Seq<i32> {
        self.items@
    }

    /// The elements are distinct and the length fits the store's counter.
    pub open spec fn wf(&self) -> bool {
        &&& distinct(self.model())
        &&& self.model().len() <= u32::MAX
    }

    /// Whether `value` is an element.
    pub open spec fn spec_contains(&self, value: i32) -> bool {
        occurs(self.model(), value)
    }

    /// The empty set.
    pub fn new() -> (r: NumberSet)
        ensures
            r.model() == Seq::<i32>::empty(),
            r.wf(),
    {
        NumberSet { items: Vec::new() }
    }

    /// How many elements are stored.
    pub fn get_len(&self) -> (r: u32)
        requires
            self.wf(),
        ensures
            r == self.model().len(),
    {
        self.items.len() as u32
    }

    /// Whether `value` is an element.
    pub fn contains(&self, value: i32) -> (r: bool)
        ensures
            r == self.spec_contains(value),
    {
        let mut i: usize = 0;
        while i < self.items.len()
            invariant
                i <= self.model().len(),
                forall|j: int| 0 <= j < i ==> self.model()[j] != value,
            decreases self.items.len() - i,
        {
            if self.items[i] == value {
                return true;
            }
            i = i + 1;
        }
        false
    }

    /// Adds `value` at the end if it is absent; reports whether it was added.
    pub fn insert(&mut self, value: i32) -> (r: bool)
        requires
            old(self).wf(),
            old(self).model().len() < u32::MAX,
        ensures
            final(self).wf(),
            r == !old(self).spec_contains(value),
            old(self).spec_contains(value) ==> final(self).model() == old(self).model(),
            !old(self).spec_contains(value) ==> final(self).model() == old(self).model().push(
                value,
            ),
    {
        if self.contains(value) {
            assert(self.model() =~= old(self).model());
            false
        } else {
            self.items.push(value);
            assert(self.model() =~= old(self).model().push(value));
            true
        }
    }
}

} // verus!
