//! An allocation arena with proper dropping and liveness-checked handles.
//!
//! An [`Arena`] owns every value allocated in it until the arena itself ends.
//! Allocation hands out a handle, not a reference: a handle names the
//! allocation and its liveness flag, and every checked access through it first
//! asks the flag whether the value is still there. A handle can therefore be
//! stored inside another value of the same arena, cycles included, and a use
//! of a value that has already been destroyed is stopped at the point of use.
//!
//! Teardown destroys the values last allocated first. The flag of an
//! allocation is set before its value is handed to destruction.
//!
//! The contracts of the arena are stated over [`model::ArenaView`]; the laws
//! that follow from that model are proved in [`model`].

use core::marker::PhantomData;
use vstd::prelude::*;

pub mod model;
pub mod utils;

use crate::model::ArenaView;
use crate::model::lemma_finalize_next_wf;
use crate::model::lemma_teardown_by_steps;
use crate::utils::linked_list::ConcurrentLinkedList;

verus! {

/// The storage record of one allocation: the value, and the place of the
/// allocation's liveness flag in the arena's flag table.
struct ArenaBox<T> {
    /// The allocated value.
    object: T,
    /// Index of the liveness flag that the record shares with the handles.
    dropped: usize,
}

impl<T> ArenaBox<T> {
    /// The value that the record owns.
    spec fn value(&self) -> T {
        self.object
    }

    /// The slot of the allocation, which is the index of its liveness flag.
    spec fn slot(&self) -> nat {
        self.dropped as nat
    }

    /// Move `value` into a new record and give it a fresh liveness flag, not
    /// set, at the end of `flags`.
    fn new(value: T, flags: &mut Vec<bool>) -> (record: Self)
        ensures
            record.value() == value,
            record.slot() == old(flags)@.len(),
            final(flags)@ == old(flags)@.push(false),
    {
        let dropped = flags.len();
        flags.push(false);
        ArenaBox { object: value, dropped }
    }

    /// Set the liveness flag of the allocation.
    fn mark_as_dropped(&self, flags: &mut Vec<bool>)
        requires
            self.slot() < old(flags)@.len(),
        ensures
            final(flags)@ == old(flags)@.update(self.slot() as int, true),
    {
        flags[self.dropped] = true;
    }

    /// Destroy the record: set the liveness flag, then hand the value over
    /// for destruction. The flag is set first, so whatever runs while the
    /// value is destroyed already sees the allocation as dropped.
    fn finalize(self, flags: &mut Vec<bool>) -> (value: T)
        requires
            self.slot() < old(flags)@.len(),
        ensures
            value == self.value(),
            final(flags)@ == old(flags)@.update(self.slot() as int, true),
    {
        self.mark_as_dropped(flags);
        self.object
    }
}

/// An allocation arena with proper dropping.
///
/// The records of the live allocations are kept in a linked store, the most
/// recent at its head. When the arena goes out of scope the store is torn
/// down from the head, so the values are destroyed last allocated first.
///
/// The liveness flags are kept in a table of their own, which outlives the
/// records: asking a flag takes constant time, whereas reaching a value walks
/// the store from the head to the record of the allocation.
pub struct Arena<T> {
    /// The records of the live allocations.
    objects: ConcurrentLinkedList<ArenaBox<T>>,
    /// The liveness flag of every allocation ever made, by slot.
    flags: Vec<bool>,
}

impl<T> Arena<T> {
    /// The slots of the records in the store, the head first.
    spec fn store(&self) -> Seq<nat> {
        Seq::new(self.objects@.len(), |p: int| self.objects@[p].dropped as nat)
    }

    /// The abstract state of the arena.
    pub closed spec fn view(&self) -> ArenaView<T> {
        ArenaView {
            slots: Seq::new(
                self.flags@.len(),
                |i: int|
                    if self.flags@[i] {
                        None
                    } else {
                        Some(self.objects@[self.store().index_of(i as nat)].object)
                    },
            ),
            store: self.store(),
        }
    }

    /// The representation invariant: the slots of the records in the store
    /// fall from the head on, every record has its flag in the table, and
    /// exactly the flags of the records in the store are not set.
    pub closed spec fn wf(&self) -> bool {
        &&& forall|p: int, q: int|
            0 <= p < q < self.objects@.len() ==> self.objects@[p].dropped
                > self.objects@[q].dropped
        &&& forall|p: int|
            0 <= p < self.objects@.len() ==> (#[trigger] self.objects@[p]).dropped
                < self.flags@.len() && !self.flags@[self.objects@[p].dropped as int]
        &&& forall|i: int|
            0 <= i < self.flags@.len() && !#[trigger] self.flags@[i] ==> self.store().contains(
                i as nat,
            )
    }

    /// The record at position `p` of the store is the one that the view
    /// looks up for its slot.
    proof fn lemma_index_of(&self, p: int)
        requires
            self.wf(),
            0 <= p < self.objects@.len(),
        ensures
            self.store().index_of(self.objects@[p].dropped as nat) == p,
    {
        // The slots in the store fall strictly from the head on, so no two
        // positions hold the same slot.
        let store = self.store();
        let found = store.index_of(store[p]);
        assert(0 <= found < store.len() && store[found] == store[p]);
        if found < p {
            assert(self.objects@[found].dropped > self.objects@[p].dropped);
        }
        if p < found {
            assert(self.objects@[p].dropped > self.objects@[found].dropped);
        }
    }

    /// A well-formed arena has a well-formed abstract state, so the laws of
    /// the model hold of it.
    pub proof fn lemma_view_wf(&self)
        requires
            self.wf(),
        ensures
            self@.wf(),
    {
        let s = self@;
        assert forall|p: int| 0 <= p < s.store.len() implies s.live(#[trigger] s.store[p]) by {
        }
        assert forall|slot: nat| #[trigger] s.live(slot) implies s.store.contains(slot) by {
        }
    }

    /// Create a new arena.
    pub fn new() -> (arena: Self)
        ensures
            arena.wf(),
            arena@ == ArenaView::<T>::empty(),
    {
        let arena = Arena { objects: ConcurrentLinkedList::new(), flags: Vec::new() };
        proof {
            assert(arena@.slots =~= ArenaView::<T>::empty().slots);
            assert(arena@.store =~= ArenaView::<T>::empty().store);
        }
        arena
    }

    /// Whether the liveness flag of `slot` is set. A slot that this arena has
    /// not handed out counts as dropped.
    fn is_dropped(&self, slot: usize) -> (flag: bool)
        requires
            self.wf(),
        ensures
            flag == self@.dropped(slot as nat),
    {
        slot >= self.flags.len() || self.flags[slot]
    }

    /// The run-time liveness check of the checked accessors. Its contract
    /// leaves a dropped slot out; a caller that brings one all the same does
    /// not get past this point.
    fn ensure_live(&self, slot: usize)
        requires
            self.wf(),
            self@.live(slot as nat),
    {
        if self.is_dropped(slot) {
            vstd::pervasive::unreached()
        }
    }

    /// Allocate and initialize a new value in the arena.
    ///
    /// The value gets a fresh slot and a fresh liveness flag, and its record
    /// becomes the head of the store. The handle that comes back names the
    /// slot; every checked access through it asks the flag first.
    pub fn allocate(&mut self, value: T) -> (handle: AllocMut<T>)
        requires
            old(self).wf(),
        ensures
            final(self).wf(),
            final(self)@ == old(self)@.allocate(value),
            handle.slot() == old(self)@.next_slot(),
    {
        let record = ArenaBox::new(value, &mut self.flags);
        let dropped = record.dropped;
        self.objects.push_front(record);
        proof {
            let fresh = old(self).flags@.len();
            assert forall|i: int|
                0 <= i < self.flags@.len() && !#[trigger] self.flags@[i] implies self.store().contains(
                i as nat,
            ) by {
                if i == fresh {
                    assert(self.store()[0] == i as nat);
                } else {
                    let at = old(self).store().index_of(i as nat);
                    assert(self.store()[at + 1] == i as nat);
                }
            }
            assert forall|i: int| 0 <= i < self.flags@.len() implies #[trigger] self@.slots[i]
                == old(self)@.allocate(value).slots[i] by {
                if i == fresh {
                    self.lemma_index_of(0);
                } else if !self.flags@[i] {
                    let at = old(self).store().index_of(i as nat);
                    self.lemma_index_of(at + 1);
                }
            }
            assert(self@.slots =~= old(self)@.allocate(value).slots);
            assert(self@.store =~= old(self)@.allocate(value).store);
        }
        AllocMut { dropped, marker: PhantomData }
    }

    /// Allocate and initialize a new value in the arena, and hand back plain
    /// exclusive access to it instead of a handle.
    ///
    /// Nothing checks the liveness of the value at a later access: the
    /// reference is only good for as long as the borrow of the arena lasts.
    pub fn alloc_unchecked(&mut self, value: T) -> (stored: &mut T)
        requires
            old(self).wf(),
        ensures
            *stored == value,
            final(self).wf(),
            final(self)@ == old(self)@.allocate(*final(stored)),
    {
        let handle = self.allocate(value);
        proof {
            model::lemma_round_trip(old(self)@, value);
        }
        let ghost before = self@;
        let stored = self.value_mut(handle.dropped);
        proof {
            assert(before.write(handle.slot(), *final(stored)).slots =~= old(self)@.allocate(
                *final(stored),
            ).slots);
        }
        stored
    }

    /// The value of a live slot.
    fn value_ref(&self, slot: usize) -> (value: &T)
        requires
            self.wf(),
            self@.live(slot as nat),
        ensures
            *value == self@.value(slot as nat),
    {
        let is_record = |record: &ArenaBox<T>| -> (hit: bool)
            ensures
                hit == (record.dropped == slot),
            { record.dropped == slot };
        let found = self.objects.find(is_record);
        proof {
            // The slot is alive, so its record is in the store, and the search
            // cannot have turned every record down.
            let p = self.store().index_of(slot as nat);
            assert(self.objects@[p].dropped == slot);
            assert(found is Some) by {
                if found is None {
                    assert(is_record.ensures((&self.objects@[p],), false));
                }
            }
            let at = choose|at: int|
                self.objects.first_match(is_record, at) && *found->0 == self.objects@[at];
            self.lemma_index_of(at);
        }
        &found.unwrap().object
    }

    /// Exclusive access to the value of a live slot. The arena changes only
    /// in what is written through the reference.
    fn value_mut(&mut self, slot: usize) -> (value: &mut T)
        requires
            old(self).wf(),
            old(self)@.live(slot as nat),
        ensures
            *value == old(self)@.value(slot as nat),
            final(self).wf(),
            final(self)@ == old(self)@.write(slot as nat, *final(value)),
    {
        let is_record = |record: &ArenaBox<T>| -> (hit: bool)
            ensures
                hit == (record.dropped == slot),
            { record.dropped == slot };
        let found = self.objects.find_mut(is_record);
        proof {
            let p = old(self).store().index_of(slot as nat);
            assert(old(self).objects@[p].dropped == slot);
            assert(found is Some) by {
                if found is None {
                    assert(is_record.ensures((&old(self).objects@[p],), false));
                }
            }
        }
        let record = found.unwrap();
        let ghost landed = *final(record);
        let ghost at = choose|at: int|
            old(self).objects.first_match(is_record, at) && *record == old(self).objects@[at]
                && after_borrow(self.objects)@ == old(self).objects@.update(at, landed);
        let value = &mut record.object;
        proof {
            let after = Arena::<T> { objects: after_borrow(self.objects), flags: self.flags };
            old(self).lemma_index_of(at);
            assert(landed.dropped == slot && landed.object == *final(value));
            assert(after.store() =~= old(self).store());
            assert forall|i: int| 0 <= i < after.flags@.len() implies #[trigger] after@.slots[i]
                == old(self)@.write(slot as nat, *final(value)).slots[i] by {
                if !after.flags@[i] {
                    let p = after.store().index_of(i as nat);
                    assert(after.objects@[p].dropped == i);
                }
            }
            assert(after@.slots =~= old(self)@.write(slot as nat, *final(value)).slots);
        }
        value
    }

    /// One step of teardown: destroy the record at the head of the store and
    /// hand back its value, whose liveness flag is set by then. `None` when no
    /// allocation is left alive.
    pub fn finalize_next(&mut self) -> (value: Option<T>)
        requires
            old(self).wf(),
        ensures
            final(self).wf(),
            final(self)@ == old(self)@.finalize_next(),
            value == old(self)@.next_finalized(),
    {
        match self.objects.pop_front() {
            None => None,
            Some(record) => {
                proof {
                    old(self).lemma_index_of(0);
                }
                let value = record.finalize(&mut self.flags);
                proof {
                    assert forall|p: int| 0 <= p < self.objects@.len() implies (
                    #[trigger] self.objects@[p]).dropped < self.flags@.len()
                        && !self.flags@[self.objects@[p].dropped as int] by {
                    }
                    assert forall|p: int, q: int|
                        0 <= p < q < self.objects@.len() implies self.objects@[p].dropped
                        > self.objects@[q].dropped by {
                    }
                    assert forall|i: int|
                        0 <= i < self.flags@.len() && !#[trigger] self.flags@[i] implies self.store().contains(
                    i as nat) by {
                        let at = old(self).store().index_of(i as nat);
                        assert(self.store()[at - 1] == i as nat);
                    }
                    assert forall|i: int| 0 <= i < self.flags@.len() implies #[trigger] self@.slots[i]
                        == old(self)@.finalize_next().slots[i] by {
                        if !self.flags@[i] {
                            let at = old(self).store().index_of(i as nat);
                            self.lemma_index_of(at - 1);
                        }
                    }
                    assert(self@.slots =~= old(self)@.finalize_next().slots);
                    assert(self@.store =~= old(self)@.finalize_next().store);
                }
                Some(value)
            },
        }
    }

    /// Tear the arena down: destroy every live allocation, the most recently
    /// allocated first, and hand back the values in the order in which they
    /// were finalized. Afterwards every handle of this arena reports its
    /// value as dropped.
    pub fn teardown(&mut self) -> (log: Vec<T>)
        requires
            old(self).wf(),
        ensures
            final(self).wf(),
            final(self)@ == old(self)@.torn_down(),
            log@ == old(self)@.teardown_log(),
    {
        let mut log: Vec<T> = Vec::new();
        proof {
            old(self).lemma_view_wf();
        }
        loop
            invariant
                self.wf(),
                self@.wf(),
                self@.slots.len() == old(self)@.slots.len(),
                log@ + self@.teardown_log() == old(self)@.teardown_log(),
            ensures
                self.wf(),
                self@.store.len() == 0,
                self@.slots.len() == old(self)@.slots.len(),
                log@ == old(self)@.teardown_log(),
            decreases self@.store.len(),
        {
            let ghost before = self@;
            proof {
                lemma_teardown_by_steps(before);
                lemma_finalize_next_wf(before);
            }
            match self.finalize_next() {
                None => {
                    break ;
                },
                Some(value) => {
                    log.push(value);
                },
            }
        }
        proof {
            lemma_teardown_by_steps(self@);
            self.lemma_view_wf();
        }
        log
    }
}

/// The answer of a `try_` accessor to a handle whose value has been dropped.
#[derive(Debug, Clone, Copy, PartialEq, Eq)]
pub struct UseAfterDrop;

impl UseAfterDrop {
    /// What went wrong, in words.
    pub fn message(&self) -> (text: &'static str)
        ensures
            text@ == "The allocated object requesting for use has been dropped"@,
    {
        "The allocated object requesting for use has been dropped"
    }
}

/// A handle that grants exclusive access to a value allocated in an arena.
///
/// The handle does not own the value, and dropping the handle does nothing
/// to it. A checked access is owed only while the value is alive: its
/// contract leaves a dropped handle out, and the accessor still asks the
/// liveness flag at run time, so that a caller whom Verus has not seen is
/// stopped before it reaches a value that is gone. The `try_` accessors take
/// any handle and answer a dropped one with [`UseAfterDrop`].
///
/// A handle belongs to the arena that made it. Another arena takes it for
/// the allocation that has the same slot there, if there is one.
pub struct AllocMut<T> {
    /// Index of the liveness flag that the handle shares with the record.
    dropped: usize,
    marker: PhantomData<T>,
}

impl<T> AllocMut<T> {
    /// The slot of the allocation that the handle names.
    pub closed spec fn slot(&self) -> nat {
        self.dropped as nat
    }

    /// Get a shared reference to the allocated value.
    ///
    /// The value must not have been dropped.
    pub fn get<'a>(&self, arena: &'a Arena<T>) -> (value: &'a T)
        requires
            arena.wf(),
            arena@.live(self.slot()),
        ensures
            *value == arena@.value(self.slot()),
    {
        self.ensure_not_dropped(arena);
        arena.value_ref(self.dropped)
    }

    /// Get an exclusive reference to the allocated value.
    ///
    /// The value must not have been dropped. The arena changes only in what
    /// is written through the reference.
    pub fn get_mut<'a>(&mut self, arena: &'a mut Arena<T>) -> (value: &'a mut T)
        requires
            old(arena).wf(),
            old(arena)@.live(old(self).slot()),
        ensures
            final(self).slot() == old(self).slot(),
            *value == old(arena)@.value(old(self).slot()),
            final(arena).wf(),
            final(arena)@ == old(arena)@.write(old(self).slot(), *final(value)),
    {
        self.ensure_not_dropped(arena);
        arena.value_mut(self.dropped)
    }

    /// Get a shared reference to the allocated value, if it is still alive.
    ///
    /// Fails exactly if the value has been dropped.
    pub fn try_get<'a>(&self, arena: &'a Arena<T>) -> (value: Result<&'a T, UseAfterDrop>)
        requires
            arena.wf(),
        ensures
            arena@.dropped(self.slot()) ==> value is Err,
            arena@.live(self.slot()) ==> value == Ok::<&T, UseAfterDrop>(
                &arena@.value(self.slot()),
            ),
    {
        match self.try_ensure_not_dropped(arena) {
            Ok(()) => Ok(arena.value_ref(self.dropped)),
            Err(violation) => Err(violation),
        }
    }

    /// Get an exclusive reference to the allocated value, if it is still
    /// alive.
    ///
    /// Fails exactly if the value has been dropped; the arena is then
    /// unchanged. Otherwise the arena changes only in what is written through
    /// the reference.
    pub fn try_get_mut<'a>(&mut self, arena: &'a mut Arena<T>) -> (value: Result<
        &'a mut T,
        UseAfterDrop,
    >)
        requires
            old(arena).wf(),
        ensures
            final(self).slot() == old(self).slot(),
            final(arena).wf(),
            old(arena)@.dropped(old(self).slot()) ==> value is Err && final(arena)@ == old(arena)@,
            old(arena)@.live(old(self).slot()) ==> value is Ok && *value->Ok_0 == old(
                arena,
            )@.value(old(self).slot()) && final(arena)@ == old(arena)@.write(
                old(self).slot(),
                *final(value->Ok_0),
            ),
    {
        match self.try_ensure_not_dropped(arena) {
            Ok(()) => Ok(arena.value_mut(self.dropped)),
            Err(violation) => Err(violation),
        }
    }

    /// Get a shared reference to the allocated value, without the liveness
    /// check. The caller answers for the value being alive.
    pub fn get_unchecked<'a>(&self, arena: &'a Arena<T>) -> (value: &'a T)
        requires
            arena.wf(),
            arena@.live(self.slot()),
        ensures
            *value == arena@.value(self.slot()),
    {
        arena.value_ref(self.dropped)
    }

    /// Get an exclusive reference to the allocated value, without the
    /// liveness check. The caller answers for the value being alive.
    pub fn get_mut_unchecked<'a>(&mut self, arena: &'a mut Arena<T>) -> (value: &'a mut T)
        requires
            old(arena).wf(),
            old(arena)@.live(old(self).slot()),
        ensures
            final(self).slot() == old(self).slot(),
            *value == old(arena)@.value(old(self).slot()),
            final(arena).wf(),
            final(arena)@ == old(arena)@.write(old(self).slot(), *final(value)),
    {
        arena.value_mut(self.dropped)
    }

    /// Determine whether the referenced value has been dropped.
    pub fn dropped(&self, arena: &Arena<T>) -> (flag: bool)
        requires
            arena.wf(),
        ensures
            flag == arena@.dropped(self.slot()),
    {
        arena.is_dropped(self.dropped)
    }

    /// Consume the handle and hand out the exclusive reference to the value
    /// for as long as the arena is borrowed.
    ///
    /// The value must not have been dropped.
    pub fn leak<'a>(self, arena: &'a mut Arena<T>) -> (value: &'a mut T)
        requires
            old(arena).wf(),
            old(arena)@.live(self.slot()),
        ensures
            *value == old(arena)@.value(self.slot()),
            final(arena).wf(),
            final(arena)@ == old(arena)@.write(self.slot(), *final(value)),
    {
        self.ensure_not_dropped(arena);
        arena.value_mut(self.dropped)
    }

    /// Consume the handle and hand out the exclusive reference to the value
    /// for as long as the arena is borrowed, if the value is still alive.
    ///
    /// Fails exactly if the value has been dropped; the arena is then
    /// unchanged.
    pub fn try_leak<'a>(self, arena: &'a mut Arena<T>) -> (value: Result<&'a mut T, UseAfterDrop>)
        requires
            old(arena).wf(),
        ensures
            final(arena).wf(),
            old(arena)@.dropped(self.slot()) ==> value is Err && final(arena)@ == old(arena)@,
            old(arena)@.live(self.slot()) ==> value is Ok && *value->Ok_0 == old(arena)@.value(
                self.slot(),
            ) && final(arena)@ == old(arena)@.write(self.slot(), *final(value->Ok_0)),
    {
        match self.try_ensure_not_dropped(arena) {
            Ok(()) => Ok(arena.value_mut(self.dropped)),
            Err(violation) => Err(violation),
        }
    }

    /// Consume the handle and hand out the exclusive reference to the value
    /// for as long as the arena is borrowed, without the liveness check.
    pub fn leak_unchecked<'a>(self, arena: &'a mut Arena<T>) -> (value: &'a mut T)
        requires
            old(arena).wf(),
            old(arena)@.live(self.slot()),
        ensures
            *value == old(arena)@.value(self.slot()),
            final(arena).wf(),
            final(arena)@ == old(arena)@.write(self.slot(), *final(value)),
    {
        arena.value_mut(self.dropped)
    }

    /// Ensure that the referenced value has not been dropped.
    ///
    /// The liveness flag of the allocation must not be set. The flag is
    /// asked at run time all the same: where it is set, the call does not
    /// return.
    pub fn ensure_not_dropped(&self, arena: &Arena<T>)
        requires
            arena.wf(),
            !arena@.dropped(self.slot()),
    {
        arena.ensure_live(self.dropped)
    }

    /// Ask whether the referenced value has not been dropped.
    ///
    /// Fails exactly if the liveness flag of the allocation is set.
    pub fn try_ensure_not_dropped(&self, arena: &Arena<T>) -> (checked: Result<(), UseAfterDrop>)
        requires
            arena.wf(),
        ensures
            checked is Err <==> arena@.dropped(self.slot()),
    {
        if self.dropped(arena) {
            Err(UseAfterDrop)
        } else {
            Ok(())
        }
    }

    /// Give up exclusive access: consume the handle and make a shared handle
    /// to the same allocation, with the same liveness flag.
    pub fn into_ref(self) -> (handle: AllocRef<T>)
        ensures
            handle.slot() == self.slot(),
    {
        AllocRef { dropped: self.dropped, marker: PhantomData }
    }
}

/// A handle that grants shared access to a value allocated in an arena. It
/// can be copied freely; all copies share the liveness flag of the
/// allocation.
pub struct AllocRef<T> {
    /// Index of the liveness flag that the handle shares with the record.
    dropped: usize,
    marker: PhantomData<T>,
}

impl<T> From<AllocMut<T>> for AllocRef<T> {
    /// The shared handle to the allocation of an exclusive handle.
    fn from(handle: AllocMut<T>) -> (shared: Self) {
        handle.into_ref()
    }
}

impl<T> vstd::std_specs::convert::FromSpecImpl<AllocMut<T>> for AllocRef<T> {
    open spec fn obeys_from_spec() -> bool {
        true
    }

    closed spec fn from_spec(handle: AllocMut<T>) -> Self {
        AllocRef { dropped: handle.dropped, marker: PhantomData }
    }
}

impl<T> Clone for AllocRef<T> {
    fn clone(&self) -> (copy: Self)
        ensures
            copy.slot() == self.slot(),
    {
        AllocRef { dropped: self.dropped, marker: PhantomData }
    }
}

impl<T> Copy for AllocRef<T> {

}

impl<T> AllocRef<T> {
    /// The slot of the allocation that the handle names.
    pub closed spec fn slot(&self) -> nat {
        self.dropped as nat
    }

    /// The conversion from an exclusive handle names the same allocation.
    pub proof fn lemma_from_keeps_slot(handle: AllocMut<T>)
        ensures
            <AllocRef<T> as vstd::std_specs::convert::FromSpec<AllocMut<T>>>::from_spec(
                handle,
            ).slot() == handle.slot(),
    {
    }

    /// Get a shared reference to the allocated value.
    ///
    /// The value must not have been dropped.
    pub fn get<'a>(&self, arena: &'a Arena<T>) -> (value: &'a T)
        requires
            arena.wf(),
            arena@.live(self.slot()),
        ensures
            *value == arena@.value(self.slot()),
    {
        arena.ensure_live(self.dropped);
        arena.value_ref(self.dropped)
    }

    /// Get a shared reference to the allocated value, if it is still alive.
    ///
    /// Fails exactly if the value has been dropped.
    pub fn try_get<'a>(&self, arena: &'a Arena<T>) -> (value: Result<&'a T, UseAfterDrop>)
        requires
            arena.wf(),
        ensures
            arena@.dropped(self.slot()) ==> value is Err,
            arena@.live(self.slot()) ==> value == Ok::<&T, UseAfterDrop>(
                &arena@.value(self.slot()),
            ),
    {
        if self.dropped(arena) {
            Err(UseAfterDrop)
        } else {
            Ok(arena.value_ref(self.dropped))
        }
    }

    /// Get a shared reference to the allocated value, without the liveness
    /// check. The caller answers for the value being alive.
    pub fn get_unchecked<'a>(&self, arena: &'a Arena<T>) -> (value: &'a T)
        requires
            arena.wf(),
            arena@.live(self.slot()),
        ensures
            *value == arena@.value(self.slot()),
    {
        arena.value_ref(self.dropped)
    }

    /// Determine whether the referenced value has been dropped.
    pub fn dropped(&self, arena: &Arena<T>) -> (flag: bool)
        requires
            arena.wf(),
        ensures
            flag == arena@.dropped(self.slot()),
    {
        arena.is_dropped(self.dropped)
    }

    /// Consume the handle and hand out the shared reference to the value for
    /// as long as the arena is borrowed.
    ///
    /// The value must not have been dropped.
    pub fn leak<'a>(self, arena: &'a Arena<T>) -> (value: &'a T)
        requires
            arena.wf(),
            arena@.live(self.slot()),
        ensures
            *value == arena@.value(self.slot()),
    {
        self.get(arena)
    }

    /// Consume the handle and hand out the shared reference to the value for
    /// as long as the arena is borrowed, if the value is still alive.
    ///
    /// Fails exactly if the value has been dropped.
    pub fn try_leak<'a>(self, arena: &'a Arena<T>) -> (value: Result<&'a T, UseAfterDrop>)
        requires
            arena.wf(),
        ensures
            arena@.dropped(self.slot()) ==> value is Err,
            arena@.live(self.slot()) ==> value == Ok::<&T, UseAfterDrop>(
                &arena@.value(self.slot()),
            ),
    {
        self.try_get(arena)
    }

    /// Consume the handle and hand out the shared reference to the value for
    /// as long as the arena is borrowed, without the liveness check.
    pub fn leak_unchecked<'a>(self, arena: &'a Arena<T>) -> (value: &'a T)
        requires
            arena.wf(),
            arena@.live(self.slot()),
        ensures
            *value == arena@.value(self.slot()),
    {
        arena.value_ref(self.dropped)
    }
}

} // verus!
