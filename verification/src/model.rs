//! The mathematical model of an arena and the laws that hold of it.
//!
//! An arena is modelled by the slots it has handed out, one per allocation and
//! never reused, together with the order in which its store will finalize the
//! allocations that are still alive. The contract of every executable operation
//! of the arena is one of the transitions defined here.

use vstd::prelude::*;

verus! {

/// The abstract state of an arena.
pub struct ArenaView<T> {
    /// One entry per allocation ever made, in allocation order: the current
    /// value of the allocation, or `None` once it has been finalized.
    pub slots: Seq<Option<T>>,
    /// The slots of the allocations that are still alive, in the order in
    /// which teardown will finalize them (the head of the store first).
    pub store: Seq<nat>,
}

impl<T> ArenaView<T> {
    /// The slot was handed out by this arena.
    pub open spec fn issued(self, slot: nat) -> bool {
        slot < self.slots.len()
    }

    /// The slot was handed out by this arena and its value has not been
    /// finalized.
    pub open spec fn live(self, slot: nat) -> bool {
        slot < self.slots.len() && self.slots[slot as int] is Some
    }

    /// The liveness flag of a slot: true once the allocation is gone. A slot
    /// that this arena never handed out has nothing alive behind it.
    pub open spec fn dropped(self, slot: nat) -> bool {
        !self.live(slot)
    }

    /// The value stored in a live slot.
    pub open spec fn value(self, slot: nat) -> T
        recommends
            self.live(slot),
    {
        self.slots[slot as int]->0
    }

    /// The store holds exactly the live slots, the most recently allocated
    /// first.
    pub open spec fn wf(self) -> bool {
        &&& forall|p: int| 0 <= p < self.store.len() ==> self.live(#[trigger] self.store[p])
        &&& forall|p: int, q: int|
            0 <= p < q < self.store.len() ==> self.store[p] > self.store[q]
        &&& forall|slot: nat| #[trigger] self.live(slot) ==> self.store.contains(slot)
    }

    /// The arena that has never allocated.
    pub open spec fn empty() -> Self {
        ArenaView { slots: Seq::empty(), store: Seq::empty() }
    }

    /// The slot that the next allocation will get.
    pub open spec fn next_slot(self) -> nat {
        self.slots.len()
    }

    /// Allocation: the value gets a fresh slot, which becomes the head of the
    /// store.
    pub open spec fn allocate(self, value: T) -> Self {
        ArenaView {
            slots: self.slots.push(Some(value)),
            store: seq![self.slots.len()] + self.store,
        }
    }

    /// A write through a handle: the value of one slot is replaced.
    pub open spec fn write(self, slot: nat, value: T) -> Self {
        ArenaView { slots: self.slots.update(slot as int, Some(value)), store: self.store }
    }

    /// The slot that the next teardown step finalizes, if any is left.
    pub open spec fn head(self) -> Option<nat> {
        if self.store.len() == 0 {
            None
        } else {
            Some(self.store.first())
        }
    }

    /// The value that the next teardown step finalizes, if any is left.
    pub open spec fn next_finalized(self) -> Option<T> {
        match self.head() {
            None => None,
            Some(slot) => Some(self.value(slot)),
        }
    }

    /// One teardown step: the head of the store is finalized.
    pub open spec fn finalize_next(self) -> Self {
        if self.store.len() == 0 {
            self
        } else {
            ArenaView {
                slots: self.slots.update(self.store.first() as int, None),
                store: self.store.drop_first(),
            }
        }
    }

    /// The values of the live allocations in the order in which teardown
    /// finalizes them.
    pub open spec fn teardown_log(self) -> Seq<T> {
        Seq::new(self.store.len(), |p: int| self.value(self.store[p]))
    }

    /// The arena after teardown: every slot is finalized, the store is empty.
    pub open spec fn torn_down(self) -> Self {
        ArenaView {
            slots: Seq::new(self.slots.len(), |i: int| None::<T>),
            store: Seq::empty(),
        }
    }

    /// The arena after allocating `values` one after the other.
    pub open spec fn allocate_all(self, values: Seq<T>) -> Self
        decreases values.len(),
    {
        if values.len() == 0 {
            self
        } else {
            self.allocate_all(values.drop_last()).allocate(values.last())
        }
    }

    /// The arena after `steps` teardown steps.
    pub open spec fn finalize_steps(self, steps: nat) -> Self
        decreases steps,
    {
        if steps == 0 {
            self
        } else {
            self.finalize_next().finalize_steps((steps - 1) as nat)
        }
    }
}

/// The empty arena is well formed.
pub proof fn lemma_empty_wf<T>()
    ensures
        ArenaView::<T>::empty().wf(),
{
}

/// Allocation keeps the arena well formed.
pub proof fn lemma_allocate_wf<T>(s: ArenaView<T>, value: T)
    requires
        s.wf(),
    ensures
        s.allocate(value).wf(),
{
    let t = s.allocate(value);
    let n = s.slots.len();
    assert forall|p: int| 0 <= p < t.store.len() implies t.live(#[trigger] t.store[p]) by {
    }
    assert forall|p: int, q: int| 0 <= p < q < t.store.len() implies t.store[p] > t.store[q] by {
    }
    assert forall|slot: nat| #[trigger] t.live(slot) implies t.store.contains(slot) by {
        if slot == n {
            assert(t.store[0] == slot);
        } else {
            assert(s.live(slot));
            let i = choose|i: int| 0 <= i < s.store.len() && s.store[i] == slot;
            assert(t.store[i + 1] == slot);
        }
    }
}

/// A write to a live slot keeps the arena well formed.
pub proof fn lemma_write_wf<T>(s: ArenaView<T>, slot: nat, value: T)
    requires
        s.wf(),
        s.live(slot),
    ensures
        s.write(slot, value).wf(),
{
    let t = s.write(slot, value);
    assert forall|p: int| 0 <= p < t.store.len() implies t.live(#[trigger] t.store[p]) by {
    }
    assert forall|other: nat| #[trigger] t.live(other) implies t.store.contains(other) by {
        assert(s.live(other));
    }
}

/// A teardown step keeps the arena well formed.
pub proof fn lemma_finalize_next_wf<T>(s: ArenaView<T>)
    requires
        s.wf(),
    ensures
        s.finalize_next().wf(),
{
    let t = s.finalize_next();
    if s.store.len() > 0 {
        assert forall|p: int| 0 <= p < t.store.len() implies t.live(#[trigger] t.store[p]) by {
        }
        assert forall|p: int, q: int| 0 <= p < q < t.store.len() implies t.store[p]
            > t.store[q] by {
        }
        assert forall|slot: nat| #[trigger] t.live(slot) implies t.store.contains(slot) by {
            assert(s.live(slot));
            let i = choose|i: int| 0 <= i < s.store.len() && s.store[i] == slot;
            assert(t.store[i - 1] == slot);
        }
    }
}

/// The torn-down arena is well formed.
pub proof fn lemma_torn_down_wf<T>(s: ArenaView<T>)
    ensures
        s.torn_down().wf(),
{
}

/// Round trip: a freshly allocated value is alive in its slot and reads back
/// unchanged.
pub proof fn lemma_round_trip<T>(s: ArenaView<T>, value: T)
    ensures
        s.allocate(value).live(s.next_slot()),
        s.allocate(value).value(s.next_slot()) == value,
{
}

/// Allocation and writes leave every liveness flag of an issued slot as it
/// was; the fresh slot of an allocation starts out alive.
pub proof fn lemma_flags_stable<T>(s: ArenaView<T>, slot: nat, target: nat, value: T)
    requires
        s.issued(slot),
        s.live(target),
    ensures
        s.allocate(value).dropped(slot) == s.dropped(slot),
        !s.allocate(value).dropped(s.next_slot()),
        s.write(target, value).dropped(slot) == s.dropped(slot),
{
}

/// A teardown step flips the flag of the head of the store, and of no other
/// slot.
pub proof fn lemma_finalize_next_flags<T>(s: ArenaView<T>, slot: nat)
    requires
        s.wf(),
        s.issued(slot),
    ensures
        s.finalize_next().dropped(slot) == (s.dropped(slot) || s.head() == Some(slot)),
{
}

/// Monotonic liveness: once the flag of an issued slot is set, no allocation,
/// write, teardown step or teardown ever clears it.
pub proof fn lemma_dropped_is_forever<T>(s: ArenaView<T>, slot: nat, target: nat, value: T)
    requires
        s.wf(),
        s.issued(slot),
        s.dropped(slot),
        s.live(target),
    ensures
        s.allocate(value).dropped(slot),
        s.write(target, value).dropped(slot),
        s.finalize_next().dropped(slot),
        s.torn_down().dropped(slot),
{
}

/// After teardown every slot is flagged as dropped, whichever slot is asked:
/// no handle meets what a checked access requires.
pub proof fn lemma_torn_down_all_dropped<T>(s: ArenaView<T>, slot: nat)
    ensures
        s.torn_down().dropped(slot),
        s.torn_down().next_finalized() is None,
{
}

/// Teardown is the teardown step repeated until the store is empty, and its
/// log lists the finalized values step by step.
pub proof fn lemma_teardown_by_steps<T>(s: ArenaView<T>)
    requires
        s.wf(),
    ensures
        s.finalize_steps(s.store.len()) == s.torn_down(),
        s.store.len() > 0 ==> s.teardown_log() == seq![s.next_finalized()->0]
            + s.finalize_next().teardown_log(),
    decreases s.store.len(),
{
    if s.store.len() == 0 {
        assert forall|i: int| 0 <= i < s.slots.len() implies s.slots[i] is None by {
            if s.slots[i] is Some {
                assert(s.live(i as nat));
            }
        }
        assert(s.slots =~= s.torn_down().slots);
        assert(s.store =~= s.torn_down().store);
    } else {
        let t = s.finalize_next();
        lemma_finalize_next_wf(s);
        lemma_teardown_by_steps(t);
        assert forall|p: int| 0 <= p < t.store.len() implies t.value(t.store[p]) == s.value(
            s.store[p + 1],
        ) by {
        }
    }
}

/// The state reached by allocating `values` into a fresh arena.
proof fn lemma_allocate_all_shape<T>(values: Seq<T>)
    ensures
        ArenaView::<T>::empty().allocate_all(values).wf(),
        ArenaView::<T>::empty().allocate_all(values).slots == Seq::new(
            values.len(),
            |i: int| Some(values[i]),
        ),
        ArenaView::<T>::empty().allocate_all(values).store == Seq::new(
            values.len(),
            |p: int| (values.len() - 1 - p) as nat,
        ),
    decreases values.len(),
{
    if values.len() > 0 {
        let before = ArenaView::<T>::empty().allocate_all(values.drop_last());
        lemma_allocate_all_shape(values.drop_last());
        lemma_allocate_wf(before, values.last());
    }
}

/// Destruction is last in, first out: after allocating `values` in order into
/// a fresh arena, teardown finalizes them in the reverse order, each exactly
/// once.
pub proof fn lemma_teardown_is_lifo<T>(values: Seq<T>)
    ensures
        ArenaView::<T>::empty().allocate_all(values).wf(),
        ArenaView::<T>::empty().allocate_all(values).teardown_log() == values.reverse(),
        ArenaView::<T>::empty().allocate_all(values).teardown_log().to_multiset()
            == values.to_multiset(),
{
    lemma_allocate_all_shape(values);
    values.lemma_reverse_to_multiset();
}

/// Newest first: while an allocation is alive, every older live allocation
/// survives the next teardown step; so when teardown reaches an allocation,
/// everything allocated after it is already dropped, and a handle to it no
/// longer meets what a checked access requires.
pub proof fn lemma_newer_dies_first<T>(s: ArenaView<T>, older: nat, newer: nat)
    requires
        s.wf(),
        older < newer,
        s.live(older),
    ensures
        s.live(newer) ==> s.finalize_next().live(older),
        s.finalize_next().dropped(older) ==> s.finalize_next().dropped(newer),
        s.head() == Some(older) ==> s.dropped(newer),
{
    if s.live(newer) {
        // Both are in the store, the newer one nearer to the head: the older
        // one is not the head.
        let i = choose|i: int| 0 <= i < s.store.len() && s.store[i] == newer;
        let j = choose|j: int| 0 <= j < s.store.len() && s.store[j] == older;
        assert(i < j) by {
            if j < i {
                assert(s.store[j] > s.store[i]);
            }
        }
        assert(s.store.first() != older);
    }
}

} // verus!
