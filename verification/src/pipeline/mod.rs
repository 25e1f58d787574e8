//! From the source of a challenge to its model: parsing, finding the string table and
//! its rotation, folding the script, and reading its payload and probes.
pub mod bundle;
pub mod checks;
pub mod deob;
pub mod flow;
pub mod fold;
pub mod html;
pub mod jit;
pub mod mba;
pub mod ops;
pub mod parse;
pub mod probes;
pub mod propagate;
pub mod render;
pub mod roles;
pub mod statics;
pub mod sx;
pub mod syntax;
pub mod table;
pub mod walk;
