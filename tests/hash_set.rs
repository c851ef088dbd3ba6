use std::collections::hash_map::RandomState;

use rune::hash_set::HashSet;

#[test]
fn test_zero_capacities() {
    type HS = HashSet<i32>;

    let s = HS::new();
    assert_eq!(s.capacity(), 0);

    let s = HS::default();
    assert_eq!(s.capacity(), 0);

    let s: HS = HashSet::with_hasher(RandomState::new());
    assert_eq!(s.capacity(), 0);

    let s = HS::try_with_capacity(0).unwrap();
    assert_eq!(s.capacity(), 0);

    let s: HS = HashSet::try_with_capacity_and_hasher(0, RandomState::new()).unwrap();
    assert_eq!(s.capacity(), 0);

    let mut s = HS::new();
    s.try_insert(1).unwrap();
    s.try_insert(2).unwrap();
    s.remove(&1);
    s.remove(&2);
    s.try_shrink_to_fit().unwrap();
    assert_eq!(s.capacity(), 0);

    let mut s = HS::new();
    s.try_reserve(0).unwrap();
    assert_eq!(s.capacity(), 0);
}

#[test]
fn test_disjoint() {
    let mut xs = HashSet::new();
    let mut ys = HashSet::new();
    assert!(xs.is_disjoint(&ys));
    assert!(ys.is_disjoint(&xs));
    assert!(xs.try_insert(5).unwrap());
    assert!(ys.try_insert(11).unwrap());
    assert!(xs.is_disjoint(&ys));
    assert!(ys.is_disjoint(&xs));
    assert!(xs.try_insert(7).unwrap());
    assert!(xs.try_insert(19).unwrap());
    assert!(xs.try_insert(4).unwrap());
    assert!(ys.try_insert(2).unwrap());
    assert!(ys.try_insert(-11).unwrap());
    assert!(xs.is_disjoint(&ys));
    assert!(ys.is_disjoint(&xs));
    assert!(ys.try_insert(7).unwrap());
    assert!(!xs.is_disjoint(&ys));
    assert!(!ys.is_disjoint(&xs));
}

#[test]
fn test_subset_and_superset() {
    let mut a = HashSet::new();
    assert!(a.try_insert(0).unwrap());
    assert!(a.try_insert(5).unwrap());
    assert!(a.try_insert(11).unwrap());
    assert!(a.try_insert(7).unwrap());

    let mut b = HashSet::new();
    assert!(b.try_insert(0).unwrap());
    assert!(b.try_insert(7).unwrap());
    assert!(b.try_insert(19).unwrap());
    assert!(b.try_insert(250).unwrap());
    assert!(b.try_insert(11).unwrap());
    assert!(b.try_insert(200).unwrap());

    assert!(!a.is_subset(&b));
    assert!(!a.is_superset(&b));
    assert!(!b.is_subset(&a));
    assert!(!b.is_superset(&a));

    assert!(b.try_insert(5).unwrap());

    assert!(a.is_subset(&b));
    assert!(!a.is_superset(&b));
    assert!(!b.is_subset(&a));
    assert!(b.is_superset(&a));
}

#[test]
fn test_iterate() {
    let mut a = HashSet::new();
    for i in 0..32 {
        assert!(a.try_insert(i).unwrap());
    }
    let mut observed: u32 = 0;
    for k in a.iter() {
        observed |= 1 << *k;
    }
    assert_eq!(observed, 0xFFFF_FFFF);
}

#[test]
fn test_intersection() {
    let mut a = HashSet::new();
    let mut b = HashSet::new();

    assert!(a.try_insert(11).unwrap());
    assert!(a.try_insert(1).unwrap());
    assert!(a.try_insert(3).unwrap());
    assert!(a.try_insert(77).unwrap());
    assert!(a.try_insert(103).unwrap());
    assert!(a.try_insert(5).unwrap());
    assert!(a.try_insert(-5).unwrap());

    assert!(b.try_insert(2).unwrap());
    assert!(b.try_insert(11).unwrap());
    assert!(b.try_insert(77).unwrap());
    assert!(b.try_insert(-9).unwrap());
    assert!(b.try_insert(-42).unwrap());
    assert!(b.try_insert(5).unwrap());
    assert!(b.try_insert(3).unwrap());

    let mut i = 0;
    let expected = [3, 5, 11, 77];
    for x in a.intersection(&b) {
        assert!(expected.contains(x));
        i += 1;
    }
    assert_eq!(i, expected.len());
}

#[test]
fn test_difference() {
    let mut a = HashSet::new();
    let mut b = HashSet::new();

    assert!(a.try_insert(1).unwrap());
    assert!(a.try_insert(3).unwrap());
    assert!(a.try_insert(5).unwrap());
    assert!(a.try_insert(9).unwrap());
    assert!(a.try_insert(11).unwrap());

    assert!(b.try_insert(3).unwrap());
    assert!(b.try_insert(9).unwrap());

    let mut i = 0;
    let expected = [1, 5, 11];
    for x in a.difference(&b) {
        assert!(expected.contains(x));
        i += 1;
    }
    assert_eq!(i, expected.len());
}

#[test]
fn test_symmetric_difference() {
    let mut a = HashSet::new();
    let mut b = HashSet::new();

    assert!(a.try_insert(1).unwrap());
    assert!(a.try_insert(3).unwrap());
    assert!(a.try_insert(5).unwrap());
    assert!(a.try_insert(9).unwrap());
    assert!(a.try_insert(11).unwrap());

    assert!(b.try_insert(-2).unwrap());
    assert!(b.try_insert(3).unwrap());
    assert!(b.try_insert(9).unwrap());
    assert!(b.try_insert(14).unwrap());
    assert!(b.try_insert(22).unwrap());

    let mut i = 0;
    let expected = [-2, 1, 5, 11, 14, 22];
    for x in a.symmetric_difference(&b) {
        assert!(expected.contains(x));
        i += 1;
    }
    assert_eq!(i, expected.len());
}

#[test]
fn test_union() {
    let mut a = HashSet::new();
    let mut b = HashSet::new();

    assert!(a.try_insert(1).unwrap());
    assert!(a.try_insert(3).unwrap());
    assert!(a.try_insert(5).unwrap());
    assert!(a.try_insert(9).unwrap());
    assert!(a.try_insert(11).unwrap());
    assert!(a.try_insert(16).unwrap());
    assert!(a.try_insert(19).unwrap());
    assert!(a.try_insert(24).unwrap());

    assert!(b.try_insert(-2).unwrap());
    assert!(b.try_insert(1).unwrap());
    assert!(b.try_insert(5).unwrap());
    assert!(b.try_insert(9).unwrap());
    assert!(b.try_insert(13).unwrap());
    assert!(b.try_insert(19).unwrap());

    let mut i = 0;
    let expected = [-2, 1, 3, 5, 9, 11, 13, 16, 19, 24];
    for x in a.union(&b) {
        assert!(expected.contains(x));
        i += 1;
    }
    assert_eq!(i, expected.len());
}

#[test]
fn test_from_map() {
    let mut a = std::collections::HashMap::new();
    a.insert(1, ());
    a.insert(2, ());
    a.insert(3, ());
    a.insert(4, ());

    let a: HashSet<_> = HashSet::from_map(&a);

    assert_eq!(a.len(), 4);
    assert!(a.contains(&1));
    assert!(a.contains(&2));
    assert!(a.contains(&3));
    assert!(a.contains(&4));
}

#[test]
fn test_from_iter() {
    let xs = [1, 2, 2, 3, 4, 5, 6, 7, 8, 9];

    let set: HashSet<_> = HashSet::try_from_vec(xs.to_vec()).unwrap();

    for x in &xs {
        assert!(set.contains(x));
    }

    assert_eq!(set.iter().len(), xs.len() - 1);
}

#[test]
fn test_eq() {
    let mut s1 = HashSet::new();

    s1.try_insert(1).unwrap();
    s1.try_insert(2).unwrap();
    s1.try_insert(3).unwrap();

    let mut s2 = HashSet::new();

    s2.try_insert(1).unwrap();
    s2.try_insert(2).unwrap();

    assert!(s1 != s2);

    s2.try_insert(3).unwrap();

    assert_eq!(s1, s2);
}

#[test]
fn test_trivial_drain() {
    let mut s = HashSet::<i32>::new();
    for _ in s.drain() {}
    assert!(s.is_empty());
    drop(s);

    let mut s = HashSet::<i32>::new();
    drop(s.drain());
    assert!(s.is_empty());
}

#[test]
fn test_drain() {
    let mut s: HashSet<_> = HashSet::try_from_vec((1..100).collect()).unwrap();

    for _ in 0..20 {
        assert_eq!(s.len(), 99);

        {
            let mut last_i = 0;
            let d = s.drain();
            for (i, x) in d.into_iter().take(50).enumerate() {
                last_i = i;
                assert!(x != 0);
            }
            assert_eq!(last_i, 49);
        }

        assert!(s.is_empty(), "s should be empty!");
        s.try_extend((1..100).collect()).unwrap();
    }
}

#[derive(Debug)]
struct Foo(&'static str, #[allow(unused)] i32);

impl PartialEq for Foo {
    fn eq(&self, other: &Self) -> bool {
        self.0 == other.0
    }
}

impl Eq for Foo {}

impl std::hash::Hash for Foo {
    fn hash<H: std::hash::Hasher>(&self, h: &mut H) {
        self.0.hash(h);
    }
}

#[derive(Clone)]
struct MyHasher;

impl std::hash::BuildHasher for MyHasher {
    type Hasher = std::collections::hash_map::DefaultHasher;

    fn build_hasher(&self) -> std::collections::hash_map::DefaultHasher {
        std::collections::hash_map::DefaultHasher::new()
    }
}

#[test]
fn test_replace() {
    let mut s = HashSet::new();
    assert_eq!(s.try_replace(Foo("a", 1)).unwrap(), None);
    assert_eq!(s.len(), 1);
    assert_eq!(s.try_replace(Foo("a", 2)).unwrap(), Some(Foo("a", 1)));
    assert_eq!(s.len(), 1);

    let it = s.iter();
    assert_eq!(it.first(), Some(&&Foo("a", 2)));
    assert_eq!(it.get(1), None);
}

#[test]
fn test_extend_ref() {
    let mut a = HashSet::new();
    a.try_insert(1).unwrap();

    a.try_extend(vec![2, 3, 4]).unwrap();

    assert_eq!(a.len(), 4);
    assert!(a.contains(&1));
    assert!(a.contains(&2));
    assert!(a.contains(&3));
    assert!(a.contains(&4));

    let mut b = HashSet::new();
    b.try_insert(5).unwrap();
    b.try_insert(6).unwrap();

    a.try_extend_from(&b).unwrap();

    assert_eq!(a.len(), 6);
    assert!(a.contains(&1));
    assert!(a.contains(&2));
    assert!(a.contains(&3));
    assert!(a.contains(&4));
    assert!(a.contains(&5));
    assert!(a.contains(&6));
}

#[test]
fn test_retain() {
    let xs = [1, 2, 3, 4, 5, 6];
    let mut set: HashSet<i32> = HashSet::try_from_vec(xs.to_vec()).unwrap();
    set.retain(|&k| k % 2 == 0);
    assert_eq!(set.len(), 3);
    assert!(set.contains(&2));
    assert!(set.contains(&4));
    assert!(set.contains(&6));
}

#[test]
fn test_const_with_hasher() {
    let mut set: HashSet<u32, MyHasher> = HashSet::with_hasher(MyHasher);
    set.try_insert(19).unwrap();
    assert!(set.contains(&19));
}

#[test]
fn rehash_in_place() {
    let mut set = HashSet::new();

    for i in 0..224 {
        set.try_insert(i).unwrap();
    }

    assert_eq!(
        set.capacity(),
        224,
        "The set must be at or close to capacity to trigger a re hashing"
    );

    for i in 100..1400 {
        set.remove(&(i - 100));
        set.try_insert(i).unwrap();
    }
}

#[test]
fn collect() {
    let mut _set: HashSet<_> = HashSet::try_from_vec((0..3).map(|_| ()).collect()).unwrap();
}

#[test]
fn take_and_get_return_the_stored_element() {
    let mut s = HashSet::new();
    s.try_insert(7u64).unwrap();
    assert_eq!(s.get(&7), Some(&7));
    assert_eq!(s.get(&8), None);
    assert_eq!(s.take(&7), Some(7));
    assert_eq!(s.take(&7), None);
    assert!(s.is_empty());
}

#[test]
fn hasher_and_shrink_keep_the_elements() {
    let mut s: HashSet<u8> = HashSet::try_with_capacity(64).unwrap();
    assert!(s.capacity() >= 64);
    s.try_insert(1).unwrap();
    s.try_shrink_to(0).unwrap();
    assert!(s.contains(&1));
    let _ = s.hasher();
    s.clear();
    assert!(s.is_empty());
}
