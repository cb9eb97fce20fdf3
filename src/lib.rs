//! A generational slot arena.
//!
//! Values live in a densely packed table of slots. Each insertion hands out an
//! [`Index`]: the slot's position together with the generation stamp that was
//! written into the slot. A lookup succeeds only while the slot still carries
//! that stamp, so a handle into a slot that has since been vacated or reused can
//! never reach the new occupant.
mod arena;
mod entry;
mod free_list;
mod index;
mod iter;
mod laws;

pub use arena::{next_generation, Arena};
pub use entry::{occupied_items, Entry};
pub use index::Index;
pub use iter::Iter;
pub use laws::{
    lemma_overwrite_retires, lemma_remove_idempotent, lemma_remove_retires, lemma_retired_stays_retired,
    lemma_reused_slot_new_stamp, lemma_take_once,
};
