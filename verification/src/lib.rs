//! An immutable mapping from string keys to numbers, with scalar and
//! elementwise arithmetic over storage that its handles share.

pub mod error;
pub mod key_index;
pub mod laws;
pub mod numeric_map;
pub mod operation;
mod shared;

pub use error::ConstructionError;
pub use key_index::KeyIndex;
pub use numeric_map::NumericMap;
pub use operation::Operation;
