//! Which quest-boost prizes a participant has won and not yet claimed.
//!
//! Win records name one or more winners of a quest; claim records are an
//! append-only history of claims against one (quest id, winner) pair, where
//! only the version with no closing marker is active. A win is pending for a
//! participant when no active claim correlates with it.

pub mod record;
pub mod resolver;
pub mod laws;
