//! Task hierarchy projection and cursor state for a terminal task tracker.
pub mod cursor;
pub mod model;
pub mod session;
pub mod text;
pub mod tree;
pub mod tree_lemmas;
