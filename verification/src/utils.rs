//! Building blocks shared by the arena.

pub mod linked_list;
