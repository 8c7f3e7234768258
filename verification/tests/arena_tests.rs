use std::cell::RefCell;

use drop_arena::AllocMut;
use drop_arena::AllocRef;
use drop_arena::Arena;
use drop_arena::UseAfterDrop;

struct Logged<'a> {
    data: i32,
    output: &'a RefCell<Vec<i32>>,
}

impl<'a> Drop for Logged<'a> {
    fn drop(&mut self) {
        self.output.borrow_mut().push(self.data);
    }
}

struct Node {
    data: i32,
    another: Option<AllocMut<Node>>,
}

struct Nothing;

#[test]
fn test_alloc() {
    let mut arena = Arena::new();
    let value = arena.allocate(10);
    assert_eq!(*value.get(&arena), 10);

    let value = arena.allocate(20);
    assert_eq!(*value.get(&arena), 20);
}

#[test]
fn test_alloc_unsafe() {
    let mut arena = Arena::new();
    let value = arena.alloc_unchecked(10);
    assert_eq!(*value, 10);

    let value = arena.alloc_unchecked(20);
    assert_eq!(*value, 20);
}

#[test]
fn test_drop_empty_arena() {
    let _arena: Arena<i32> = Arena::new();
}

#[test]
fn test_drop() {
    let output = RefCell::new(Vec::new());
    let mut arena = Arena::new();
    arena.allocate(Logged { data: 10, output: &output });
    arena.allocate(Logged { data: 20, output: &output });

    drop(arena);

    let output = output.borrow().clone();
    assert_eq!(output, vec![20, 10]);
}

#[test]
#[should_panic]
fn test_use_dropped_value() {
    let mut arena = Arena::new();
    let mut first = arena.allocate(Node { data: 10, another: None });
    let second = arena.allocate(Node { data: 20, another: None });
    match first.try_get_mut(&mut arena) {
        Ok(node) => node.another = Some(second),
        Err(_) => return,
    }

    // Teardown reaches the second allocation first.
    match arena.finalize_next() {
        Some(gone) if gone.data == 20 && gone.another.is_none() => {}
        _ => return,
    }
    let mut last = match arena.finalize_next() {
        Some(last) if last.data == 10 => last,
        _ => return,
    };
    let another = match &mut last.another {
        Some(another) => another,
        None => return,
    };

    // What the first value does on its way out: it reaches for the other
    // through a checked access, which stops it.
    another.get_mut(&mut arena).data = 0;
}

#[test]
fn try_accessors_pass_live_values_through() {
    let mut arena = Arena::new();
    let mut a = arena.allocate(5);
    let b = arena.allocate(6);
    assert_eq!(a.try_get(&arena), Ok(&5));
    *a.try_get_mut(&mut arena).unwrap() = 7;
    assert_eq!(a.try_get(&arena), Ok(&7));
    assert_eq!(a.try_ensure_not_dropped(&arena), Ok(()));
    *a.try_leak(&mut arena).unwrap() = 8;
    let shared = b.into_ref();
    assert_eq!(shared.try_get(&arena), Ok(&6));
    assert_eq!(shared.try_leak(&arena), Ok(&6));
    assert_eq!(arena.teardown(), vec![6, 8]);
    assert_eq!(shared.try_get(&arena), Err(UseAfterDrop));
}

#[test]
fn a_failed_write_leaves_the_arena_alone() {
    let mut arena = Arena::new();
    let a = arena.allocate(10);
    let mut b = arena.allocate(20);
    assert_eq!(arena.finalize_next(), Some(20));
    assert_eq!(b.try_get_mut(&mut arena), Err(UseAfterDrop));
    assert_eq!(b.try_leak(&mut arena), Err(UseAfterDrop));
    assert!(!a.dropped(&arena));
    assert_eq!(*a.get(&arena), 10);
    assert_eq!(arena.teardown(), vec![10]);
}

#[test]
fn round_trip_reads_back_each_value() {
    let mut arena = Arena::new();
    let a = arena.allocate(String::from("alpha"));
    let b = arena.allocate(String::from("beta"));
    let c = arena.allocate(String::new());
    assert_eq!(a.get(&arena), "alpha");
    assert_eq!(b.get(&arena), "beta");
    assert_eq!(c.get(&arena), "");
    assert_eq!(a.get_unchecked(&arena), "alpha");
}

#[test]
fn writes_go_to_the_named_allocation_only() {
    let mut arena = Arena::new();
    let mut a = arena.allocate(1);
    let mut b = arena.allocate(2);
    let c = arena.allocate(3);
    *a.get_mut(&mut arena) = 100;
    *b.get_mut_unchecked(&mut arena) += 20;
    assert_eq!(*a.get(&arena), 100);
    assert_eq!(*b.get(&arena), 22);
    assert_eq!(*c.get(&arena), 3);
    assert_eq!(arena.teardown(), vec![3, 22, 100]);
}

#[test]
fn alloc_unchecked_writes_reach_the_arena() {
    let mut arena = Arena::new();
    let first = arena.allocate(1);
    let stored = arena.alloc_unchecked(5);
    *stored = 7;
    assert_eq!(*first.get(&arena), 1);
    assert_eq!(arena.teardown(), vec![7, 1]);
}

#[test]
fn flags_are_unset_until_teardown_reaches_the_allocation() {
    let mut arena = Arena::new();
    let a = arena.allocate(10);
    let b = arena.allocate(20);
    let c = arena.allocate(30);
    assert!(!a.dropped(&arena));
    assert!(!b.dropped(&arena));
    assert!(!c.dropped(&arena));

    assert_eq!(arena.finalize_next(), Some(30));
    assert!(!a.dropped(&arena));
    assert!(!b.dropped(&arena));
    assert!(c.dropped(&arena));

    assert_eq!(arena.finalize_next(), Some(20));
    assert!(!a.dropped(&arena));
    assert!(b.dropped(&arena));
    assert!(c.dropped(&arena));

    assert_eq!(arena.finalize_next(), Some(10));
    assert!(a.dropped(&arena));
    assert!(b.dropped(&arena));
    assert!(c.dropped(&arena));

    assert_eq!(arena.finalize_next(), None);
    assert!(a.dropped(&arena));
    assert!(b.dropped(&arena));
    assert!(c.dropped(&arena));
}

#[test]
fn checked_access_fails_after_teardown() {
    let mut arena = Arena::new();
    let mut a = arena.allocate(10);
    let b = arena.allocate(20).into_ref();
    assert_eq!(arena.teardown(), vec![20, 10]);

    assert!(a.dropped(&arena));
    assert!(b.dropped(&arena));
    assert_eq!(a.try_get(&arena), Err(UseAfterDrop));
    assert_eq!(a.try_get_mut(&mut arena), Err(UseAfterDrop));
    assert_eq!(a.try_ensure_not_dropped(&arena), Err(UseAfterDrop));
    assert_eq!(b.try_get(&arena), Err(UseAfterDrop));
    assert_eq!(b.try_leak(&arena), Err(UseAfterDrop));
    assert_eq!(a.try_leak(&mut arena), Err(UseAfterDrop));
    assert_eq!(arena.teardown(), Vec::<i32>::new());
}

#[test]
fn ensure_not_dropped_passes_while_alive() {
    let mut arena = Arena::new();
    let a = arena.allocate(10);
    assert_eq!(a.try_ensure_not_dropped(&arena), Ok(()));
    a.ensure_not_dropped(&arena);
    assert!(arena.finalize_next().is_some());
    assert_eq!(a.try_ensure_not_dropped(&arena), Err(UseAfterDrop));
}

#[test]
fn use_after_drop_message() {
    assert_eq!(
        UseAfterDrop.message(),
        "The allocated object requesting for use has been dropped"
    );
}

#[test]
fn teardown_is_last_in_first_out() {
    let output = RefCell::new(Vec::new());
    let mut arena = Arena::new();
    arena.allocate(Logged { data: 10, output: &output });
    arena.allocate(Logged { data: 20, output: &output });
    arena.allocate(Logged { data: 30, output: &output });

    let log = arena.teardown();
    let ids: Vec<i32> = log.iter().map(|value| value.data).collect();
    assert_eq!(ids, vec![30, 20, 10]);
    assert!(output.borrow().is_empty());

    drop(log);
    assert_eq!(output.borrow().clone(), vec![30, 20, 10]);

    drop(arena);
    assert_eq!(output.borrow().clone(), vec![30, 20, 10]);
}

#[test]
fn dropping_the_arena_destroys_newest_first() {
    let output = RefCell::new(Vec::new());
    let mut arena = Arena::new();
    arena.allocate(Logged { data: 10, output: &output });
    arena.allocate(Logged { data: 20, output: &output });
    arena.allocate(Logged { data: 30, output: &output });
    drop(arena);
    assert_eq!(output.borrow().clone(), vec![30, 20, 10]);
}

#[test]
fn dropping_a_handle_leaves_the_value_alone() {
    let output = RefCell::new(Vec::new());
    let mut arena = Arena::new();
    let handle = arena.allocate(Logged { data: 10, output: &output });
    let shared = handle.into_ref();
    let copy = shared;
    drop(shared);
    assert!(output.borrow().is_empty());
    assert!(!copy.dropped(&arena));
    assert_eq!(copy.get(&arena).data, 10);
    drop(arena);
    assert_eq!(output.borrow().clone(), vec![10]);
}

#[test]
fn zero_sized_values_are_finalized_once_each() {
    assert_eq!(std::mem::size_of::<Nothing>(), 0);
    let mut arena = Arena::new();
    let a = arena.allocate(Nothing);
    let b = arena.allocate(Nothing);
    let c = arena.allocate(Nothing);
    assert!(a.try_get(&arena).is_ok());
    assert_eq!(arena.teardown().len(), 3);
    assert!(a.dropped(&arena));
    assert!(b.dropped(&arena));
    assert!(c.dropped(&arena));
    assert_eq!(arena.teardown().len(), 0);
    drop(arena);
}

#[test]
fn interleaved_allocations_are_all_finalized() {
    let output = RefCell::new(Vec::new());
    let mut arena = Arena::new();
    for i in 0..10000 {
        for _ in 0..4 {
            arena.allocate(Logged { data: i, output: &output });
        }
    }
    drop(arena);

    let mut log = output.borrow().clone();
    assert_eq!(log.len(), 40000);
    assert_eq!(log[0], 9999);
    assert_eq!(log[39999], 0);
    log.sort();
    let mut expected = Vec::with_capacity(40000);
    for i in 0..10000 {
        expected.push(i);
        expected.push(i);
        expected.push(i);
        expected.push(i);
    }
    assert_eq!(log, expected);
}

#[test]
fn a_value_can_hold_a_handle_to_a_later_value() {
    let mut arena = Arena::new();
    let mut first = arena.allocate(Node { data: 10, another: None });
    let second = arena.allocate(Node { data: 20, another: None });
    let second_slot = second.into_ref();
    first.get_mut(&mut arena).another = Some(arena.allocate(Node { data: 30, another: None }));

    let third = arena.finalize_next().unwrap();
    assert_eq!(third.data, 30);
    let held = first.get(&arena).another.as_ref().unwrap();
    assert!(held.dropped(&arena));
    assert!(held.try_get(&arena).is_err());
    assert!(!second_slot.dropped(&arena));
    assert_eq!(second_slot.get(&arena).data, 20);
}

#[test]
fn shared_handles_convert_and_copy() {
    let mut arena = Arena::new();
    let exclusive = arena.allocate(41);
    let shared = AllocRef::from(exclusive);
    let copy = shared.clone();
    assert_eq!(*shared.get(&arena), 41);
    assert_eq!(*copy.get_unchecked(&arena), 41);
    assert_eq!(*copy.leak(&arena), 41);
    assert_eq!(*shared.leak_unchecked(&arena), 41);
}

#[test]
fn leaked_references_write_through() {
    let mut arena = Arena::new();
    let a = arena.allocate(1);
    let b = arena.allocate(2);
    *a.leak(&mut arena) = 11;
    *b.leak_unchecked(&mut arena) = 12;
    assert_eq!(arena.teardown(), vec![12, 11]);
}

#[test]
fn allocation_resumes_after_a_complete_teardown() {
    let mut arena = Arena::new();
    let old = arena.allocate(1);
    assert_eq!(arena.teardown(), vec![1]);
    let new = arena.allocate(2);
    assert!(old.dropped(&arena));
    assert!(!new.dropped(&arena));
    assert_eq!(*new.get(&arena), 2);
    assert_eq!(old.try_get(&arena), Err(UseAfterDrop));
    assert_eq!(arena.teardown(), vec![2]);
}

#[test]
fn allocation_between_teardown_steps_gets_a_fresh_slot() {
    let mut arena = Arena::new();
    let mut a = arena.allocate(10);
    let b = arena.allocate(20);
    let c = arena.allocate(30);
    assert_eq!(arena.finalize_next(), Some(30));

    let d = arena.allocate(40);
    assert!(c.dropped(&arena));
    assert!(!d.dropped(&arena));
    assert_eq!(c.try_get(&arena), Err(UseAfterDrop));
    assert_eq!(*d.get(&arena), 40);
    assert_eq!(*b.get(&arena), 20);
    *a.get_mut(&mut arena) = 11;

    assert_eq!(arena.finalize_next(), Some(40));
    assert!(d.dropped(&arena));
    assert!(!b.dropped(&arena));
    assert_eq!(arena.teardown(), vec![20, 11]);
    assert!(a.dropped(&arena));
    assert!(b.dropped(&arena));
}

#[test]
fn a_handle_of_another_arena_has_nothing_alive_behind_it() {
    let mut one = Arena::new();
    let mut other: Arena<i32> = Arena::new();
    one.allocate(1);
    let second = one.allocate(2);
    other.allocate(7);
    assert!(second.dropped(&other));
    assert_eq!(second.try_get(&other), Err(UseAfterDrop));
    assert_eq!(*second.get(&one), 2);
}
