//! Crafting-recipe graph analysis: recipe classification, deterministic
//! ingredient ordering, transitive ingredient and unknown-recipe collection,
//! and detection of items whose production chain requires themselves.

pub mod recipe;
pub mod seed;
pub mod traversal;
pub mod ordering;
pub mod import;
pub mod lemmas;
