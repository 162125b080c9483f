//! A structural diff engine: compares two trees of scalars, sequences,
//! mappings and sets, and reports every difference by category, each
//! addressed by the path at which it was found.

pub mod compare;
pub mod diff;
pub mod laws;
pub mod number;
pub mod path;
pub mod value;

pub use compare::generate_diff;
pub use diff::{Diff, ItemChange, TypeChange, ValueChange};
pub use number::Number;
pub use path::{format_path, PathComponent};
pub use value::{Value, ValueKind};
