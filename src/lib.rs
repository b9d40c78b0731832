//! Intrusive singly linked chains with back-references, held in an arena of
//! index-addressed nodes.
//!
//! Each node records its successor and the slot that currently links to it, so a
//! node is spliced in or out in constant time without walking the chain.

pub mod laws;
pub mod llist;

pub use llist::{ArenaView, IterMut, Llist, LlistNode, Slot};
