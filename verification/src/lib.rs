//! A container that gives every value it holds a small integer identifier.
//!
//! Inserting, removing and looking up by identifier take constant time. An
//! identifier that has been freed is handed out again, smallest first.

pub mod equality;
pub mod iter;
pub mod laws;
pub mod map;
pub mod model;
pub mod occupancy;
mod storage;
pub mod text;

pub use id_set::Id;
pub use iter::{Ids, IntoIter, Iter, IterMut, Values, ValuesMut};
pub use map::IdMap;
