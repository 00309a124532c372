//! Group-scoped collaborative content: who may write for a group, how their
//! contributions are anchored, and how the current state of a piece of content
//! is resolved from a branching history of immutable update records.

pub mod keys;
pub mod membership;
pub mod walk;
pub mod error;
pub mod records;
pub mod lineage;
pub mod order;
pub mod evolution;
pub mod hash;
pub mod tag;
pub mod shortcut;
pub mod catalog;
pub mod anchor;
pub mod validation;
pub mod writes;
pub mod links;
