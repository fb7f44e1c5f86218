//! Small building blocks that the rest of the crate rests on.
pub mod array_str;
pub mod order;
