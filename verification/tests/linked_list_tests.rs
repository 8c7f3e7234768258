use std::cell::RefCell;

use drop_arena::utils::linked_list::ConcurrentLinkedList;

struct Mock<'a> {
    data: i32,
    sink: &'a RefCell<Vec<i32>>,
}

impl<'a> Drop for Mock<'a> {
    fn drop(&mut self) {
        self.sink.borrow_mut().push(self.data);
    }
}

#[test]
fn test_push_front_and_drop_basic() {
    let drop_list = RefCell::new(Vec::new());

    let mut list = ConcurrentLinkedList::new();
    list.push_front(Mock { data: 10, sink: &drop_list });
    list.push_front(Mock { data: 20, sink: &drop_list });
    list.push_front(Mock { data: 30, sink: &drop_list });

    drop(list);

    assert_eq!(drop_list.into_inner(), vec![30, 20, 10]);
}

#[test]
fn interleaved_push_front_and_drop() {
    let drop_list = RefCell::new(Vec::new());
    let mut list = ConcurrentLinkedList::new();
    for i in 0..10000 {
        for _ in 0..4 {
            list.push_front(Mock { data: i, sink: &drop_list });
        }
    }
    drop(list);

    let mut log = drop_list.into_inner();
    log.sort();
    let mut expected = Vec::with_capacity(40000);
    for i in 0..10000 {
        expected.push(i);
        expected.push(i);
        expected.push(i);
        expected.push(i);
    }
    assert_eq!(log, expected);
}

#[test]
fn new_list_is_empty() {
    let mut list: ConcurrentLinkedList<i32> = ConcurrentLinkedList::new();
    assert_eq!(list.find(|_| true), None);
    assert_eq!(list.find_mut(|_| true), None);
    assert_eq!(list.pop_front(), None);
    assert_eq!(list.pop_front(), None);
}

#[test]
fn find_takes_the_first_match_from_the_head() {
    let mut list = ConcurrentLinkedList::new();
    list.push_front((10, 'a'));
    list.push_front((20, 'b'));
    list.push_front((10, 'c'));
    list.push_front((30, 'd'));
    assert_eq!(list.find(|value| value.0 == 30), Some(&(30, 'd')));
    assert_eq!(list.find(|value| value.0 == 10), Some(&(10, 'c')));
    assert_eq!(list.find(|value| value.0 == 20), Some(&(20, 'b')));
    assert_eq!(list.find(|value| value.1 == 'a'), Some(&(10, 'a')));
    assert_eq!(list.find(|value| value.0 == 40), None);
    assert_eq!(list.find(|_| true), Some(&(30, 'd')));
}

#[test]
fn find_mut_changes_one_value() {
    let mut list = ConcurrentLinkedList::new();
    list.push_front(10);
    list.push_front(20);
    list.push_front(30);
    *list.find_mut(|value| *value == 20).unwrap() = 21;
    assert_eq!(list.find_mut(|value| *value == 20), None);
    *list.find_mut(|value| *value < 25).unwrap() += 1;
    assert_eq!(list.pop_front(), Some(30));
    assert_eq!(list.pop_front(), Some(22));
    assert_eq!(list.pop_front(), Some(10));
    assert_eq!(list.pop_front(), None);
}

#[test]
fn pop_front_takes_the_newest() {
    let drop_list = RefCell::new(Vec::new());
    let mut list = ConcurrentLinkedList::new();
    list.push_front(Mock { data: 1, sink: &drop_list });
    list.push_front(Mock { data: 2, sink: &drop_list });
    let taken = list.pop_front().unwrap();
    assert_eq!(taken.data, 2);
    assert!(drop_list.borrow().is_empty());
    drop(taken);
    assert_eq!(drop_list.borrow().clone(), vec![2]);
    list.push_front(Mock { data: 3, sink: &drop_list });
    drop(list);
    assert_eq!(drop_list.into_inner(), vec![2, 3, 1]);
}

#[test]
fn take_all_hands_back_the_newest_first() {
    let drop_list = RefCell::new(Vec::new());
    let mut list = ConcurrentLinkedList::new();
    list.push_front(Mock { data: 10, sink: &drop_list });
    list.push_front(Mock { data: 20, sink: &drop_list });
    list.push_front(Mock { data: 30, sink: &drop_list });

    let log = list.take_all();
    let ids: Vec<i32> = log.iter().map(|value| value.data).collect();
    assert_eq!(ids, vec![30, 20, 10]);
    assert!(drop_list.borrow().is_empty());
    assert!(list.find(|_| true).is_none());
    assert!(list.take_all().is_empty());

    drop(list);
    assert!(drop_list.borrow().is_empty());
    drop(log);
    assert_eq!(drop_list.into_inner(), vec![30, 20, 10]);
}
