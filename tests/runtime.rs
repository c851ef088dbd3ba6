use std::hash::{BuildHasher, BuildHasherDefault, Hash, Hasher};

use rune::access::{Access, AccessError, AccessState};
use rune::budget;
use rune::hash::{FnDynamicHash, FnHash};
use rune::range_to::RangeTo;
use rune::value::{partial_eq_with, AnyRef, Answer, BinOp, TypeKind, Value, ValueError};
use rune::vm::ProtocolFn;

#[test]
fn shared_borrow_blocks_exclusive() {
    let mut a = Access::new();
    assert_eq!(a.try_shared(), Ok(()));
    assert_eq!(a.try_shared(), Ok(()));
    assert_eq!(a.get(), AccessState::Shared(2));
    assert_eq!(a.try_exclusive(), Err(AccessError::BorrowConflict));
    assert_eq!(a.get(), AccessState::Shared(2));
    a.release_shared();
    a.release_shared();
    assert_eq!(a.get(), AccessState::Idle);
    assert_eq!(a.try_exclusive(), Ok(()));
    assert_eq!(a.try_shared(), Err(AccessError::BorrowConflict));
    a.release_exclusive();
    assert_eq!(a.get(), AccessState::Idle);
}

#[test]
fn budget_counts_down_and_stops() {
    let mut g = budget::replace(2);
    assert!(g.take());
    assert!(g.take());
    assert!(!g.take());
    assert_eq!(g.get(), 0);
    let mut g = budget::acquire();
    assert!(g.take());
    assert_eq!(g.get(), usize::MAX);
    let (mut guard, value) = budget::with(1, "task").call();
    assert_eq!(value, "task");
    assert!(guard.take());
    assert!(!guard.take());
}

#[test]
fn range_to_contains_below_end() {
    let none: Vec<ProtocolFn> = Vec::new();
    let r = RangeTo::new(Value::Integer(10));
    assert!(matches!(r.contains(&Value::Integer(9), &none), Ok(Answer::Done(true))));
    assert!(matches!(r.contains(&Value::Integer(10), &none), Ok(Answer::Done(false))));
    assert!(matches!(
        r.contains(&Value::Unsigned(1), &none),
        Err(ValueError::UnsupportedBinaryOperation { op: BinOp::Lt, lhs: TypeKind::Integer, rhs: TypeKind::Unsigned })
    ));
    let s = RangeTo::new(Value::Integer(3));
    assert!(matches!(r.partial_eq(&s, &none), Ok(Answer::Done(false))));
    assert!(matches!(r.eq(&r.copy(), &none), Ok(Answer::Done(true))));
    assert!(matches!(r.partial_cmp(&s, &none), Ok(Answer::Done(Some(std::cmp::Ordering::Greater)))));
    assert!(matches!(s.cmp(&r, &none), Ok(Some(Answer::Done(std::cmp::Ordering::Less)))));
    let c = RangeTo::new(Value::Char('e'));
    assert!(matches!(c.partial_eq(&c.copy(), &none), Ok(Answer::Done(true))));
}

#[test]
fn host_object_ends_compare_through_their_protocol() {
    let obj = AnyRef { type_hash: 7, slot: 0 };
    let r = RangeTo::new(Value::Any(obj));
    let handlers = vec![
        ProtocolFn { type_hash: 7, op: BinOp::Eq, offset: 40 },
        ProtocolFn { type_hash: 7, op: BinOp::Cmp, offset: 50 },
    ];
    match r.partial_eq(&r.copy(), &handlers) {
        Ok(Answer::Call { offset, receiver, other, index }) => {
            assert_eq!(offset, 40);
            assert_eq!(receiver, obj);
            assert!(matches!(other, Value::Any(o) if o == obj));
            assert_eq!(index, 0);
        }
        other => panic!("{other:?}"),
    }
    assert!(matches!(r.contains(&Value::Integer(1), &handlers), Ok(Answer::Call { offset: 50, .. })));
    let none: Vec<ProtocolFn> = Vec::new();
    assert!(matches!(
        r.partial_eq(&r.copy(), &none),
        Err(ValueError::UnsupportedBinaryOperation { op: BinOp::Eq, lhs: TypeKind::Any(7), rhs: TypeKind::Any(7) })
    ));
    let nested = Value::Option(Some(Box::new(Value::Any(obj))));
    let copy = rune::value::clone_value(&nested);
    assert!(matches!(partial_eq_with(&nested, &copy, &handlers), Ok(Answer::Call { offset: 40, .. })));
}

fn xxh64_of_hash_calls(f: impl FnOnce(&mut twox_hash::XxHash64)) -> u64 {
    let mut hasher = BuildHasherDefault::<twox_hash::XxHash64>::default().build_hasher();
    f(&mut hasher);
    hasher.finish()
}

#[test]
fn dynamic_hash_matches_hashing_name_marker_and_count() {
    let expected = xxh64_of_hash_calls(|h| {
        "main".hash(h);
        0u64.hash(h);
        2u64.hash(h);
    });
    assert_eq!(FnDynamicHash::of("main", 2), FnDynamicHash(expected));
    assert_ne!(FnDynamicHash::of("main", 2), FnDynamicHash::of("main", 1));
}

#[test]
fn typed_hash_matches_hashing_each_argument() {
    let dynamic = FnDynamicHash::of("add", 2);
    let expected = xxh64_of_hash_calls(|h| {
        dynamic.0.hash(h);
        77u64.hash(h);
        5u64.hash(h);
        77u64.hash(h);
        6u64.hash(h);
    });
    assert_eq!(FnHash::of_dynamic(dynamic, &vec![5, 6]), FnHash(expected));
}
