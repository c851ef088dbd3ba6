//! A hash set over the standard library's hash table.
use vstd::prelude::*;
use vstd::std_specs::hash::{builds_valid_hashers, obeys_key_model};
use vstd::std_specs::iter::IteratorSpec;

use std::collections::hash_map::RandomState;
use std::hash::{BuildHasher, Hash};

use crate::alloc_error::Error;

verus! {

broadcast use vstd::std_specs::hash::group_hash_axioms;

/// Whether the element type and the hasher behave as a hash table needs:
/// equal elements hash equally, and the hasher is deterministic.
pub open spec fn key_model<T, S>() -> bool {
    obeys_key_model::<T>() && builds_valid_hashers::<S>()
}

/// A set of distinct elements, stored in a hash table.
#[derive(Debug)]
#[verifier::reject_recursive_types(S)]
pub struct HashSet<T, S = RandomState> {
    map: std::collections::HashSet<T, S>,
}

impl<T, S> View for HashSet<T, S> {
    type V = Set<T>;

    closed spec fn view(&self) -> Set<T> {
        self.map@
    }
}

/// Relies on `HashSet::capacity`: the set holds its elements without
/// reallocating, so the capacity is at least their number.
#[verifier::external_body]
fn table_capacity<T, S>(map: &std::collections::HashSet<T, S>) -> (r: usize)
    ensures
        r >= map.len(),
{
    map.capacity()
}

/// Relies on `HashSet::with_hasher`: creates an empty set that hashes with
/// `hasher`.
#[verifier::external_body]
fn table_with_hasher<T, S>(hasher: S) -> (r: std::collections::HashSet<T, S>)
    ensures
        r@ == Set::<T>::empty(),
{
    std::collections::HashSet::with_hasher(hasher)
}

/// Relies on `HashSet::with_capacity_and_hasher`: creates an empty set with
/// room for `capacity` elements that hashes with `hasher`.
#[verifier::external_body]
fn table_with_capacity_and_hasher<T, S>(capacity: usize, hasher: S) -> (r: std::collections::HashSet<T, S>)
    ensures
        r@ == Set::<T>::empty(),
{
    std::collections::HashSet::with_capacity_and_hasher(capacity, hasher)
}

/// Relies on `HashSet::hasher`: a reference to the set's hasher.
#[verifier::external_body]
fn table_hasher<T, S>(map: &std::collections::HashSet<T, S>) -> &S {
    map.hasher()
}

/// Relies on `HashSet::take`: removes the element equal to `value` and hands
/// it back, if there is one.
#[verifier::external_body]
fn table_take<T: Eq + Hash, S: BuildHasher>(map: &mut std::collections::HashSet<T, S>, value: &T) -> (r: Option<T>)
    ensures
        (obeys_key_model::<T>() && builds_valid_hashers::<S>()) ==> final(map)@ == old(map)@.remove(*value),
        (obeys_key_model::<T>() && builds_valid_hashers::<S>()) ==> (r is Some <==> old(map)@.contains(*value)),
        (obeys_key_model::<T>() && builds_valid_hashers::<S>()) ==> (r matches Some(x) ==> x == *value),
{
    map.take(value)
}

/// Relies on `HashSet::replace`: puts `value` in the set, handing back the
/// equal element it replaces, if there was one.
#[verifier::external_body]
fn table_replace<T: Eq + Hash, S: BuildHasher>(map: &mut std::collections::HashSet<T, S>, value: T) -> (r: Option<T>)
    ensures
        (obeys_key_model::<T>() && builds_valid_hashers::<S>()) ==> final(map)@ == old(map)@.remove(value).insert(value),
        (obeys_key_model::<T>() && builds_valid_hashers::<S>()) ==> (r is Some <==> old(map)@.contains(value)),
{
    map.replace(value)
}

/// Relies on `HashSet::try_reserve`: `true` when the table made room for
/// `additional` more elements; the elements are kept either way.
#[verifier::external_body]
fn table_try_reserve<T: Eq + Hash, S: BuildHasher>(map: &mut std::collections::HashSet<T, S>, additional: usize) -> (r: bool)
    ensures
        final(map)@ == old(map)@,
{
    match map.try_reserve(additional) {
        Ok(()) => true,
        Err(_) => false,
    }
}

/// Relies on `HashSet::shrink_to`: lowers the capacity, keeping the
/// elements.
#[verifier::external_body]
fn table_shrink_to<T: Eq + Hash, S: BuildHasher>(map: &mut std::collections::HashSet<T, S>, min_capacity: usize)
    ensures
        final(map)@ == old(map)@,
{
    map.shrink_to(min_capacity)
}

/// Relies on `HashSet::drain`: empties the set and hands out every element
/// it held.
#[verifier::external_body]
fn table_drain<T, S>(map: &mut std::collections::HashSet<T, S>) -> (r: Vec<T>)
    ensures
        final(map)@ == Set::<T>::empty(),
        (obeys_key_model::<T>() && builds_valid_hashers::<S>()) ==> r@.to_set() == old(map)@ && r@.no_duplicates(),
{
    map.drain().collect()
}

/// Relies on `PartialEq for HashSet`: two sets are equal when they hold the
/// same elements.
#[verifier::external_body]
fn table_eq<T: Eq + Hash, S: BuildHasher>(a: &std::collections::HashSet<T, S>, b: &std::collections::HashSet<T, S>) -> (r: bool)
    ensures
        (obeys_key_model::<T>() && builds_valid_hashers::<S>()) ==> r == (a@ == b@),
{
    a == b
}

impl<T> HashSet<T, RandomState> {
    /// Creates an empty set; it allocates nothing.
    pub fn new() -> (r: Self)
        ensures
            r@ == Set::<T>::empty(),
    {
        HashSet { map: std::collections::HashSet::new() }
    }

    /// Creates an empty set with room for at least `capacity` elements.
    pub fn try_with_capacity(capacity: usize) -> (r: Result<Self, Error>)
        ensures
            r matches Ok(s) && s@ == Set::<T>::empty(),
    {
        Ok(HashSet { map: std::collections::HashSet::with_capacity(capacity) })
    }
}

impl<T: Eq + Hash> HashSet<T, RandomState> {
    /// Creates a set of the distinct values among `items`.
    pub fn try_from_vec(items: Vec<T>) -> (r: Result<Self, Error>)
        ensures
            key_model::<T, RandomState>() ==> (r matches Ok(s) && s@ == items@.to_set()),
    {
        let mut s = HashSet::new();
        let ghost v = items@;
        let _ = s.try_extend(items);
        proof {
            assert(Set::<T>::empty().union(v.to_set()) =~= v.to_set());
        }
        Ok(s)
    }
}

impl<T: Eq + Hash + Copy> HashSet<T, RandomState> {
    /// Creates a set of the keys of `map`.
    pub fn from_map<S2>(map: &std::collections::HashMap<T, (), S2>) -> (r: Self)
        requires
            obeys_key_model::<T>(),
            builds_valid_hashers::<S2>(),
        ensures
            r@ == map@.dom(),
    {
        let mut set: HashSet<T, RandomState> = HashSet::new();
        for k in it: map.keys()
            invariant
                obeys_key_model::<T>(),
                forall|i: int| 0 <= i < it.index() ==> set@.contains(*it.seq()[i]),
                forall|x: T| #[trigger] set@.contains(x) ==> exists|i: int| 0 <= i < it.index() && *it.seq()[i] == x,
        {
            let _ = set.try_insert(*k);
        }
        proof {
            let keys = map.keys().remaining();
            assert forall|x: T| set@.contains(x) <==> map@.dom().contains(x) by {
                if set@.contains(x) {
                    let i = choose|i: int| 0 <= i < keys.len() && *keys[i] == x;
                    assert(keys.unref()[i] == x);
                    assert(keys.unref().to_set().contains(x));
                }
                if map@.dom().contains(x) {
                    assert(keys.unref().to_set().contains(x));
                    let i = choose|i: int| 0 <= i < keys.unref().len() && keys.unref()[i] == x;
                    assert(*keys[i] == x);
                }
            }
            assert(set@ =~= map@.dom());
        }
        set
    }
}

impl<T, S: Default> Default for HashSet<T, S> {
    fn default() -> (r: Self)
        ensures
            r@ == Set::<T>::empty(),
    {
        HashSet { map: std::collections::HashSet::default() }
    }
}

impl<T: Eq + Hash, S: BuildHasher> PartialEq for HashSet<T, S> {
    fn eq(&self, other: &Self) -> (r: bool) {
        table_eq(&self.map, &other.map)
    }
}

impl<T: Eq + Hash, S: BuildHasher> vstd::std_specs::cmp::PartialEqSpecImpl for HashSet<T, S> {
    open spec fn obeys_eq_spec() -> bool {
        key_model::<T, S>()
    }

    open spec fn eq_spec(&self, other: &Self) -> bool {
        self@ == other@
    }
}

impl<T, S> HashSet<T, S> {
    /// The number of elements the set holds without reallocating.
    pub fn capacity(&self) -> (r: usize)
        ensures
            key_model::<T, S>() ==> r >= self@.len(),
    {
        table_capacity(&self.map)
    }

    /// The number of elements.
    pub fn len(&self) -> (r: usize)
        ensures
            key_model::<T, S>() ==> r == self@.len(),
    {
        self.map.len()
    }

    /// Whether the set holds no element.
    pub fn is_empty(&self) -> (r: bool)
        ensures
            r == (self@ == Set::<T>::empty()),
    {
        let r = self.map.is_empty();
        proof {
            if !r {
                assert(!self@.is_empty());
                let x = choose|x: T| self@.contains(x);
                assert(!Set::<T>::empty().contains(x));
            }
        }
        r
    }

    /// The elements, each once, in the table's order.
    pub fn iter(&self) -> (r: Vec<&T>)
        requires
            key_model::<T, S>(),
        ensures
            r@.unref().to_set() == self@,
            r@.unref().no_duplicates(),
            r@.len() == self@.len(),
    {
        let mut v: Vec<&T> = Vec::new();
        for x in it: self.map.iter()
            invariant
                v@.len() == it.index(),
                forall|i: int| 0 <= i < v@.len() ==> v@[i] == it.seq()[i],
        {
            v.push(x);
        }
        proof {
            assert(v@ =~= self.map.iter().remaining());
        }
        v
    }

    /// Removes every element.
    pub fn clear(&mut self)
        ensures
            final(self)@ == Set::<T>::empty(),
    {
        self.map.clear();
    }
}

impl<T: Eq + Hash, S: BuildHasher> HashSet<T, S> {
    /// Whether `value` is an element.
    pub fn contains(&self, value: &T) -> (r: bool)
        ensures
            key_model::<T, S>() ==> r == self@.contains(*value),
    {
        self.map.contains(value)
    }

    /// Adds `value`; returns whether it was new.
    pub fn try_insert(&mut self, value: T) -> (r: Result<bool, Error>)
        ensures
            key_model::<T, S>() ==> (r matches Ok(b) && b == !old(self)@.contains(value)
                && final(self)@ == old(self)@.insert(value)),
    {
        Ok(self.map.insert(value))
    }

    /// Removes `value`; returns whether it was there.
    pub fn remove(&mut self, value: &T) -> (r: bool)
        ensures
            key_model::<T, S>() ==> r == old(self)@.contains(*value)
                && final(self)@ == old(self)@.remove(*value),
    {
        self.map.remove(value)
    }

    /// Creates an empty set that hashes with `hasher`.
    pub fn with_hasher(hasher: S) -> (r: Self)
        ensures
            r@ == Set::<T>::empty(),
    {
        HashSet { map: table_with_hasher(hasher) }
    }

    /// Creates an empty set with room for `capacity` elements that hashes
    /// with `hasher`.
    pub fn try_with_capacity_and_hasher(capacity: usize, hasher: S) -> (r: Result<Self, Error>)
        ensures
            r matches Ok(s) && s@ == Set::<T>::empty(),
    {
        Ok(HashSet { map: table_with_capacity_and_hasher(capacity, hasher) })
    }

    /// The set's hasher.
    pub fn hasher(&self) -> &S {
        table_hasher(&self.map)
    }

    /// The element equal to `value`, if there is one.
    pub fn get(&self, value: &T) -> (r: Option<&T>)
        ensures
            key_model::<T, S>() ==> (r is Some <==> self@.contains(*value)),
            key_model::<T, S>() ==> (r matches Some(x) ==> *x == *value),
    {
        self.map.get(value)
    }

    /// Removes the element equal to `value` and returns it, if there is one.
    pub fn take(&mut self, value: &T) -> (r: Option<T>)
        ensures
            key_model::<T, S>() ==> final(self)@ == old(self)@.remove(*value),
            key_model::<T, S>() ==> (r is Some <==> old(self)@.contains(*value)),
            key_model::<T, S>() ==> (r matches Some(x) ==> x == *value),
    {
        table_take(&mut self.map, value)
    }

    /// Adds `value`, replacing an equal element; returns the one replaced.
    pub fn try_replace(&mut self, value: T) -> (r: Result<Option<T>, Error>)
        ensures
            key_model::<T, S>() ==> final(self)@ == old(self)@.insert(value),
            key_model::<T, S>() ==> (r matches Ok(o) && (o is Some <==> old(self)@.contains(value))),
    {
        let r = table_replace(&mut self.map, value);
        proof {
            if key_model::<T, S>() {
                assert(old(self)@.remove(value).insert(value) =~= old(self)@.insert(value));
            }
        }
        Ok(r)
    }

    /// Makes room for at least `additional` more elements.
    pub fn try_reserve(&mut self, additional: usize) -> (r: Result<(), Error>)
        ensures
            final(self)@ == old(self)@,
            key_model::<T, S>() ==> (r == Err::<(), Error>(Error::CapacityOverflow) <==> old(self)@.len()
                + additional > usize::MAX),
            r is Err ==> r == Err::<(), Error>(Error::CapacityOverflow) || r == Err::<(), Error>(Error::AllocError),
    {
        if additional > usize::MAX - self.map.len() {
            return Err(Error::CapacityOverflow);
        }
        if table_try_reserve(&mut self.map, additional) {
            Ok(())
        } else {
            Err(Error::AllocError)
        }
    }

    /// Shrinks the capacity as far as the elements allow.
    pub fn try_shrink_to_fit(&mut self) -> (r: Result<(), Error>)
        ensures
            final(self)@ == old(self)@,
            r is Ok,
    {
        table_shrink_to(&mut self.map, 0);
        Ok(())
    }

    /// Shrinks the capacity, to no less than `min_capacity`.
    pub fn try_shrink_to(&mut self, min_capacity: usize) -> (r: Result<(), Error>)
        ensures
            final(self)@ == old(self)@,
            r is Ok,
    {
        table_shrink_to(&mut self.map, min_capacity);
        Ok(())
    }

    /// Empties the set and returns what it held.
    pub fn drain(&mut self) -> (r: Vec<T>)
        ensures
            final(self)@ == Set::<T>::empty(),
            key_model::<T, S>() ==> r@.to_set() == old(self)@ && r@.no_duplicates(),
    {
        table_drain(&mut self.map)
    }

    /// Keeps the elements on which `f` holds.
    pub fn retain<F: Fn(&T) -> bool>(&mut self, f: F)
        requires
            key_model::<T, S>(),
            forall|x: &T| #[trigger] f.requires((x,)),
        ensures
            forall|x: T| #[trigger]
                final(self)@.contains(x) ==> old(self)@.contains(x) && call_ensures(f, (&x,), true),
            forall|x: T|
                old(self)@.contains(x) && !(#[trigger] final(self)@.contains(x)) ==> call_ensures(
                    f,
                    (&x,),
                    false,
                ),
    {
        let ghost s = self@;
        let mut items = self.drain();
        let ghost all = items@;
        while items.len() > 0
            invariant
                key_model::<T, S>(),
                forall|x: &T| #[trigger] f.requires((x,)),
                all.to_set() == s,
                all.no_duplicates(),
                items@.len() <= all.len(),
                items@ == all.subrange(0, items@.len() as int),
                forall|x: T| #[trigger] self@.contains(x) ==> s.contains(x) && call_ensures(f, (&x,), true),
                forall|x: T| #[trigger] self@.contains(x) ==> !items@.contains(x),
                forall|x: T|
                    s.contains(x) && !(#[trigger] self@.contains(x)) && !items@.contains(x)
                        ==> call_ensures(f, (&x,), false),
            decreases items.len(),
        {
            let ghost n = items@.len();
            let x = items.pop();
            match x {
                Some(v) => {
                    proof {
                        assert(all.contains(v)) by {
                            assert(all[n - 1] == v);
                        }
                        assert(items@ == all.subrange(0, n - 1));
                        assert forall|y: T| items@.contains(y) implies y != v by {
                            let j = choose|j: int| 0 <= j < items@.len() && items@[j] == y;
                            assert(all[j] == y);
                        }
                    }
                    let ghost old_set = self@;
                    let keep = f(&v);
                    if keep {
                        let _ = self.try_insert(v);
                    }
                    proof {
                        assert forall|y: T| s.contains(y) && !self@.contains(y) && !items@.contains(y)
                            implies call_ensures(f, (&y,), false) by {
                            if y != v {
                                if all.subrange(0, n as int).contains(y) {
                                    lemma_prefix_member(all, n as int, y);
                                }
                                assert(!old_set.contains(y));
                            }
                        }
                    }
                },
                None => {},
            }
        }
    }

    /// Whether `self` and `other` have no element in common.
    pub fn is_disjoint(&self, other: &Self) -> (r: bool)
        requires
            key_model::<T, S>(),
        ensures
            r == self@.disjoint(other@),
    {
        let items = self.iter();
        let mut i: usize = 0;
        while i < items.len()
            invariant
                key_model::<T, S>(),
                items@.unref().to_set() == self@,
                forall|j: int| 0 <= j < i ==> !other@.contains(*#[trigger] items@[j]),
                i <= items@.len(),
            decreases items.len() - i,
        {
            if other.contains(items[i]) {
                proof {
                    assert(self@.contains(*items@[i as int])) by {
                        assert(items@.unref()[i as int] == *items@[i as int]);
                    }
                }
                return false;
            }
            i += 1;
        }
        proof {
            assert forall|x: T| self@.contains(x) implies !other@.contains(x) by {
                assert(items@.unref().contains(x));
                let j = choose|j: int| 0 <= j < items@.len() && items@.unref()[j] == x;
                assert(*items@[j] == x);
            }
        }
        true
    }

    /// Whether every element of `self` is in `other`.
    pub fn is_subset(&self, other: &Self) -> (r: bool)
        requires
            key_model::<T, S>(),
        ensures
            r == self@.subset_of(other@),
    {
        let items = self.iter();
        let mut i: usize = 0;
        while i < items.len()
            invariant
                key_model::<T, S>(),
                items@.unref().to_set() == self@,
                forall|j: int| 0 <= j < i ==> other@.contains(*#[trigger] items@[j]),
                i <= items@.len(),
            decreases items.len() - i,
        {
            if !other.contains(items[i]) {
                proof {
                    assert(self@.contains(*items@[i as int])) by {
                        assert(items@.unref()[i as int] == *items@[i as int]);
                    }
                }
                return false;
            }
            i += 1;
        }
        proof {
            assert forall|x: T| self@.contains(x) implies other@.contains(x) by {
                assert(items@.unref().contains(x));
                let j = choose|j: int| 0 <= j < items@.len() && items@.unref()[j] == x;
                assert(*items@[j] == x);
            }
        }
        true
    }

    /// Whether every element of `other` is in `self`.
    pub fn is_superset(&self, other: &Self) -> (r: bool)
        requires
            key_model::<T, S>(),
        ensures
            r == other@.subset_of(self@),
    {
        other.is_subset(self)
    }

    /// The elements of `self` that pass (`keep_common`) or fail the
    /// membership test in `other`.
    fn filter_by_membership<'a>(&'a self, other: &Self, keep_common: bool) -> (r: Vec<&'a T>)
        requires
            key_model::<T, S>(),
        ensures
            r@.unref().no_duplicates(),
            forall|x: T|
                #[trigger] r@.unref().contains(x) <==> self@.contains(x) && other@.contains(x) == keep_common,
    {
        let items = self.iter();
        let mut out: Vec<&T> = Vec::new();
        let mut i: usize = 0;
        while i < items.len()
            invariant
                key_model::<T, S>(),
                items@.unref().to_set() == self@,
                items@.unref().no_duplicates(),
                i <= items@.len(),
                out@.unref().no_duplicates(),
                forall|x: T|
                    #[trigger] out@.unref().contains(x) <==> items@.unref().subrange(0, i as int).contains(x)
                        && other@.contains(x) == keep_common,
            decreases items.len() - i,
        {
            let x = items[i];
            let ghost prefix = items@.unref().subrange(0, i as int);
            let ghost next = items@.unref().subrange(0, i + 1);
            proof {
                assert(next =~= prefix.push(*x));
                assert(!prefix.contains(*x)) by {
                    if prefix.contains(*x) {
                        let j = choose|j: int| 0 <= j < prefix.len() && prefix[j] == *x;
                        assert(items@.unref()[j] == items@.unref()[i as int]);
                    }
                }
            }
            if other.contains(x) == keep_common {
                let ghost before = out@;
                out.push(x);
                proof {
                    assert(out@.unref() =~= before.unref().push(*x));
                    assert forall|y: T| out@.unref().contains(y) <==> next.contains(y) && other@.contains(y) == keep_common by {
                        lemma_push_contains(before.unref(), *x, y);
                        lemma_push_contains(prefix, *x, y);
                        assert(before.unref().contains(y) <==> prefix.contains(y) && other@.contains(y) == keep_common);
                    }
                    assert(out@.unref().no_duplicates()) by {
                        assert forall|a: int, b: int| 0 <= a < b < out@.len() implies out@.unref()[a] != out@.unref()[b] by {
                            if b == before.len() {
                                assert(before.unref().contains(before.unref()[a]));
                            } else {
                                assert(before.unref()[a] != before.unref()[b]);
                            }
                        }
                    }
                }
            } else {
                proof {
                    assert forall|y: T| out@.unref().contains(y) <==> next.contains(y) && other@.contains(y) == keep_common by {
                        lemma_push_contains(prefix, *x, y);
                        assert(out@.unref().contains(y) <==> prefix.contains(y) && other@.contains(y) == keep_common);
                    }
                }
            }
            i += 1;
        }
        proof {
            assert(items@.unref().subrange(0, items@.len() as int) =~= items@.unref());
            assert forall|x: T| #[trigger] out@.unref().contains(x) <==> self@.contains(x) && other@.contains(x) == keep_common by {
                assert(items@.unref().to_set().contains(x) <==> items@.unref().contains(x));
            }
        }
        out
    }

    /// The elements of `self` that are not in `other`.
    pub fn difference<'a>(&'a self, other: &'a Self) -> (r: Vec<&'a T>)
        requires
            key_model::<T, S>(),
        ensures
            r@.unref().to_set() == self@.difference(other@),
            r@.unref().no_duplicates(),
    {
        let r = self.filter_by_membership(other, false);
        proof {
            assert(r@.unref().to_set() =~= self@.difference(other@));
        }
        r
    }

    /// The elements in both `self` and `other`.
    pub fn intersection<'a>(&'a self, other: &'a Self) -> (r: Vec<&'a T>)
        requires
            key_model::<T, S>(),
        ensures
            r@.unref().to_set() == self@.intersect(other@),
            r@.unref().no_duplicates(),
    {
        let r = self.filter_by_membership(other, true);
        proof {
            assert(r@.unref().to_set() =~= self@.intersect(other@));
        }
        r
    }

    /// The elements in exactly one of `self` and `other`: first those of
    /// `self`, then those of `other`.
    pub fn symmetric_difference<'a>(&'a self, other: &'a Self) -> (r: Vec<&'a T>)
        requires
            key_model::<T, S>(),
        ensures
            r@.unref().to_set() == self@.difference(other@).union(other@.difference(self@)),
            r@.unref().no_duplicates(),
    {
        let mut a = self.filter_by_membership(other, false);
        let mut b = other.filter_by_membership(self, false);
        let ghost av = a@;
        let ghost bv = b@;
        a.append(&mut b);
        proof {
            assert(a@.unref() =~= av.unref() + bv.unref());
            assert(av.unref().to_set() =~= self@.difference(other@));
            assert(bv.unref().to_set() =~= other@.difference(self@));
            lemma_concat_sets(av.unref(), bv.unref());
            assert(a@.unref().to_set() =~= self@.difference(other@).union(other@.difference(self@)));
        }
        a
    }

    /// The elements in `self` or in `other`: first those of `self`, then
    /// the others of `other`.
    pub fn union<'a>(&'a self, other: &'a Self) -> (r: Vec<&'a T>)
        requires
            key_model::<T, S>(),
        ensures
            r@.unref().to_set() == self@.union(other@),
            r@.unref().no_duplicates(),
    {
        let mut a = self.iter();
        let mut b = other.filter_by_membership(self, false);
        let ghost av = a@;
        let ghost bv = b@;
        a.append(&mut b);
        proof {
            assert(a@.unref() =~= av.unref() + bv.unref());
            assert(bv.unref().to_set() =~= other@.difference(self@));
            lemma_concat_sets(av.unref(), bv.unref());
            assert(a@.unref().to_set() =~= self@.union(other@));
        }
        a
    }

    /// Adds every value of `items`.
    pub fn try_extend(&mut self, items: Vec<T>) -> (r: Result<(), Error>)
        ensures
            r is Ok,
            key_model::<T, S>() ==> final(self)@ == old(self)@.union(items@.to_set()),
    {
        let mut items = items;
        let ghost all = items@;
        while items.len() > 0
            invariant
                items@.len() <= all.len(),
                items@ == all.subrange(0, items@.len() as int),
                key_model::<T, S>() ==> self@ == old(self)@.union(
                    all.subrange(items@.len() as int, all.len() as int).to_set(),
                ),
            decreases items.len(),
        {
            let ghost n = items@.len();
            let x = items.pop();
            match x {
                Some(v) => {
                    let _ = self.try_insert(v);
                    proof {
                        assert(all.subrange(n - 1, all.len() as int) =~= seq![v] + all.subrange(n as int, all.len() as int));
                        lemma_concat_sets(seq![v], all.subrange(n as int, all.len() as int));
                        assert(seq![v].to_set() =~= set![v]) by {
                            lemma_push_contains(Seq::<T>::empty(), v, v);
                            assert(Seq::<T>::empty().push(v) =~= seq![v]);
                            assert forall|y: T| seq![v].to_set().contains(y) <==> y == v by {
                                lemma_push_contains(Seq::<T>::empty(), v, y);
                            }
                        }
                    }
                },
                None => {},
            }
        }
        assert(all.subrange(0, all.len() as int) =~= all);
        Ok(())
    }

    /// Adds a copy of every element of `other`.
    pub fn try_extend_from(&mut self, other: &Self) -> (r: Result<(), Error>)
        where
            T: Copy,
        requires
            key_model::<T, S>(),
        ensures
            r is Ok,
            final(self)@ == old(self)@.union(other@),
    {
        let items = other.iter();
        let mut i: usize = 0;
        while i < items.len()
            invariant
                key_model::<T, S>(),
                items@.unref().to_set() == other@,
                i <= items@.len(),
                self@ == old(self)@.union(items@.unref().subrange(0, i as int).to_set()),
            decreases items.len() - i,
        {
            let v: T = *items[i];
            let _ = self.try_insert(v);
            proof {
                let pre = items@.unref().subrange(0, i as int);
                assert(items@.unref().subrange(0, i + 1) =~= pre.push(v));
                assert forall|y: T| pre.push(v).to_set().contains(y) <==> pre.to_set().contains(y) || y == v by {
                    lemma_push_contains(pre, v, y);
                }
                assert(self@ =~= old(self)@.union(pre.push(v).to_set()));
            }
            i += 1;
        }
        assert(items@.unref().subrange(0, items@.len() as int) =~= items@.unref());
        Ok(())
    }
}

/// An element of a prefix of a sequence that is not its last element is in
/// the shorter prefix.
proof fn lemma_prefix_member<T>(s: Seq<T>, n: int, y: T)
    requires
        0 < n <= s.len(),
        s.subrange(0, n).contains(y),
        s[n - 1] != y,
    ensures
        s.subrange(0, n - 1).contains(y),
{
    let j = choose|j: int| 0 <= j < n && s.subrange(0, n)[j] == y;
    assert(s.subrange(0, n - 1)[j] == y);
}

/// What a sequence with one more element contains.
proof fn lemma_push_contains<T>(s: Seq<T>, e: T, y: T)
    ensures
        s.push(e).contains(y) <==> s.contains(y) || y == e,
{
    if s.push(e).contains(y) && y != e {
        let j = choose|j: int| 0 <= j < s.len() + 1 && s.push(e)[j] == y;
        assert(s[j] == y);
    }
    if s.contains(y) {
        let j = choose|j: int| 0 <= j < s.len() && s[j] == y;
        assert(s.push(e)[j] == y);
    }
    if y == e {
        assert(s.push(e)[s.len() as int] == y);
    }
}

/// Concatenating two sequences unions their sets, and keeps them free of
/// duplicates when they are disjoint.
proof fn lemma_concat_sets<T>(a: Seq<T>, b: Seq<T>)
    ensures
        (a + b).to_set() == a.to_set().union(b.to_set()),
        a.no_duplicates() && b.no_duplicates() && a.to_set().disjoint(b.to_set()) ==> (a
            + b).no_duplicates(),
{
    assert forall|x: T| (a + b).to_set().contains(x) <==> a.to_set().union(b.to_set()).contains(x) by {
        if (a + b).contains(x) {
            let j = choose|j: int| 0 <= j < (a + b).len() && (a + b)[j] == x;
            if j < a.len() {
                assert(a[j] == x);
            } else {
                assert(b[j - a.len()] == x);
            }
        }
        if a.contains(x) {
            let j = choose|j: int| 0 <= j < a.len() && a[j] == x;
            assert((a + b)[j] == x);
        }
        if b.contains(x) {
            let j = choose|j: int| 0 <= j < b.len() && b[j] == x;
            assert((a + b)[a.len() + j] == x);
        }
    }
    assert((a + b).to_set() =~= a.to_set().union(b.to_set()));
    if a.no_duplicates() && b.no_duplicates() && a.to_set().disjoint(b.to_set()) {
        assert forall|i: int, j: int| 0 <= i < j < (a + b).len() implies (a + b)[i] != (a + b)[j] by {
            if i < a.len() && j >= a.len() {
                assert(a.to_set().contains(a[i]));
                assert(b.to_set().contains(b[j - a.len()]));
            }
        }
    }
}

} // verus!
