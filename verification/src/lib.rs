//! Fixed-size containers keyed by the variants of a closed enumeration.
//!
//! Every variant of the key type owns one slot of a backing buffer, found by
//! the variant's ordinal position, so a lookup is a bounds-free array access
//! and iteration always follows declaration order.
//!
//! - [`Enumerated`] numbers the variants of a key type.
//! - [`EnumMap`] holds one value per variant in an array.
//! - [`EnumTable`] holds one value per variant on the heap.
//! - [`sparse::EnumMap`] holds one optional value per variant.
pub mod derive;
pub mod enumerated;
pub mod enummap;
pub mod enumtable;
pub mod ext;
pub mod order;
pub mod render;
pub mod sparse;

pub use crate::enumerated::Enumerated;
pub use crate::enummap::EnumMap;
pub use crate::enumtable::EnumTable;
