//! A singly linked store with insertion at the head.
//!
//! Insertion links a fully built node in front of the current head and then
//! publishes it as the new head. Teardown takes the head, advances the head to
//! its successor and destroys the taken node, so values leave the store in the
//! reverse of the order in which they were inserted.
//!
//! Every operation that changes the store takes it by exclusive reference.
//! The borrow is what keeps a second insertion from slipping in between
//! linking and publishing, so an insertion never has to be retried. To share
//! a store between threads, put it behind a lock.

use vstd::prelude::*;

verus! {

/// One node of the store: a value and the link to its successor.
struct ConcurrentLinkedListNode<T> {
    value: T,
    next: Option<Box<ConcurrentLinkedListNode<T>>>,
}

/// A singly linked store. Its view is the sequence of its values, the head
/// (the value inserted last) first.
pub struct ConcurrentLinkedList<T> {
    head: Option<Box<ConcurrentLinkedListNode<T>>>,
}

/// The values reachable from a link, nearest first.
spec fn chain<T>(link: Option<Box<ConcurrentLinkedListNode<T>>>) -> Seq<T>
    decreases link,
{
    match link {
        None => Seq::empty(),
        Some(node) => seq![node.value] + chain(node.next),
    }
}

/// What a link holds, unfolded by one node.
proof fn lemma_chain_unfold<T>(link: Option<Box<ConcurrentLinkedListNode<T>>>)
    ensures
        link is None ==> chain(link) == Seq::<T>::empty(),
        link is Some ==> chain(link) == seq![link->0.value] + chain(link->0.next),
        link is Some ==> chain(link).len() == chain(link->0.next).len() + 1,
        link is Some ==> chain(link).first() == link->0.value,
        link is Some ==> chain(link).drop_first() == chain(link->0.next),
{
}

impl<T> ConcurrentLinkedListNode<T> {
    /// A node that holds `value` and has no successor yet.
    fn new(value: T) -> (node: Self)
        ensures
            node.value == value,
            node.next is None,
        opens_invariants none
        no_unwind
    {
        ConcurrentLinkedListNode { value, next: None }
    }
}

impl<T> ConcurrentLinkedList<T> {
    /// The values of the store, head first.
    pub closed spec fn view(&self) -> Seq<T> {
        chain(self.head)
    }

    /// Create an empty store.
    pub fn new() -> (list: Self)
        ensures
            list@ == Seq::<T>::empty(),
    {
        ConcurrentLinkedList { head: None }
    }

    /// Add a new node at the front of the store.
    ///
    /// The node's successor link is set to the current head before the node
    /// becomes the head, so the store never exposes a half-linked node.
    pub fn push_front(&mut self, value: T)
        ensures
            final(self)@ == seq![value] + old(self)@,
    {
        let mut node = ConcurrentLinkedListNode::new(value);
        core::mem::swap(&mut node.next, &mut self.head);
        self.head = Some(Box::new(node));
    }

    /// Take the head node out of the store and hand back its value; `None`
    /// when the store is empty.
    pub fn pop_front(&mut self) -> (taken: Option<T>)
        ensures
            old(self)@.len() == 0 ==> taken is None && final(self)@ == old(self)@,
            old(self)@.len() > 0 ==> taken == Some(old(self)@.first()) && final(self)@ == old(
                self,
            )@.drop_first(),
        opens_invariants none
        no_unwind
    {
        let mut head = None;
        core::mem::swap(&mut self.head, &mut head);
        match head {
            None => None,
            Some(boxed) => {
                let node = *boxed;
                self.head = node.next;
                Some(node.value)
            },
        }
    }

    /// Tear the store down: take every node out, from the head on, and hand
    /// back the values in the order in which they left, which is the reverse
    /// of the order in which they were inserted.
    pub fn take_all(&mut self) -> (log: Vec<T>)
        ensures
            log@ == old(self)@,
            final(self)@ == Seq::<T>::empty(),
    {
        let mut log: Vec<T> = Vec::new();
        loop
            invariant
                log@ + self@ == old(self)@,
            ensures
                log@ == old(self)@,
                self@.len() == 0,
            decreases self@.len(),
        {
            match self.pop_front() {
                None => {
                    break ;
                },
                Some(value) => {
                    log.push(value);
                    proof {
                        assert(log@ + self@ =~= old(self)@);
                    }
                },
            }
        }
        log
    }

    /// `at` is the position, counted from the head, of the first value that
    /// `matches` accepts.
    pub open spec fn first_match<F: Fn(&T) -> bool>(&self, matches: F, at: int) -> bool {
        &&& 0 <= at < self@.len()
        &&& matches.ensures((&self@[at],), true)
        &&& forall|p: int| 0 <= p < at ==> matches.ensures((&self@[p],), false)
    }

    /// `matches` accepts no value of the store.
    pub open spec fn no_match<F: Fn(&T) -> bool>(&self, matches: F) -> bool {
        forall|p: int| 0 <= p < self@.len() ==> matches.ensures((&self@[p],), false)
    }

    /// The first value, from the head on, that `matches` accepts; `None` when
    /// it accepts none.
    pub fn find<F: Fn(&T) -> bool>(&self, matches: F) -> (found: Option<&T>)
        requires
            forall|value: &T| #[trigger] matches.requires((value,)),
        ensures
            match found {
                Some(value) => exists|at: int|
                    self.first_match(matches, at) && *value == self@[at],
                None => self.no_match(matches),
            },
    {
        let mut cur = &self.head;
        let ghost mut seen: int = 0;
        loop
            invariant
                0 <= seen <= self@.len(),
                chain(*cur) == self@.skip(seen),
                forall|value: &T| #[trigger] matches.requires((value,)),
                forall|p: int| 0 <= p < seen ==> matches.ensures((&self@[p],), false),
            decreases self@.len() - seen,
        {
            proof {
                lemma_chain_unfold(*cur);
            }
            match cur {
                None => {
                    return None;
                },
                Some(node) => {
                    if matches(&node.value) {
                        proof {
                            assert(self.first_match(matches, seen) && node.value == self@[seen]);
                        }
                        return Some(&node.value);
                    }
                    cur = &node.next;
                    proof {
                        seen = seen + 1;
                    }
                },
            }
        }
    }

    /// Exclusive access to the first value, from the head on, that `matches`
    /// accepts; `None` when it accepts none. The store changes only in what is
    /// written through the reference.
    pub fn find_mut<F: Fn(&T) -> bool>(&mut self, matches: F) -> (found: Option<&mut T>)
        requires
            forall|value: &T| #[trigger] matches.requires((value,)),
        ensures
            match found {
                Some(value) => exists|at: int|
                    old(self).first_match(matches, at) && *value == old(self)@[at]
                        && final(self)@ == old(self)@.update(at, *final(value)),
                None => old(self).no_match(matches) && final(self)@ == old(self)@,
            },
    {
        let mut cur = &mut self.head;
        let ghost mut seen: int = 0;
        loop
            invariant
                0 <= seen <= old(self)@.len(),
                chain(*cur) == old(self)@.skip(seen),
                chain(after_borrow(self.head)) == old(self)@.take(seen) + chain(*final(cur)),
                forall|value: &T| #[trigger] matches.requires((value,)),
                forall|p: int| 0 <= p < seen ==> matches.ensures((&old(self)@[p],), false),
            decreases old(self)@.len() - seen,
        {
            proof {
                lemma_chain_unfold(*cur);
            }
            match cur {
                None => {
                    return None;
                },
                Some(node) => {
                    if matches(&node.value) {
                        let value = &mut node.value;
                        proof {
                            assert(old(self).first_match(matches, seen));
                            assert(*value == old(self)@[seen]);
                            assert(chain(after_borrow(self.head)) == old(self)@.update(
                                seen,
                                *final(value),
                            ));
                        }
                        return Some(value);
                    }
                    cur = &mut node.next;
                    proof {
                        seen = seen + 1;
                    }
                },
            }
        }
    }
}

impl<T> Drop for ConcurrentLinkedList<T> {
    /// Destroy the nodes one by one from the head, so that the values are
    /// destroyed last-inserted first: the values leave in the order that
    /// `take_all` states, and each is destroyed as it leaves.
    fn drop(&mut self)
        ensures
            final(self)@ == Seq::<T>::empty(),
        opens_invariants none
        no_unwind
    {
        loop
            ensures
                self@.len() == 0,
            decreases self@.len(),
        {
            match self.pop_front() {
                None => {
                    break ;
                },
                Some(_) => {},
            }
        }
    }
}

} // verus!
