//! What the operations of the library are for: laws that relate their inputs and their
//! results.
pub mod asking;
pub mod calculating;
pub mod checking;
pub mod commanding;
pub mod conversing;
pub mod declaring;
pub mod folding;
pub mod gathering;
pub mod listing;
pub mod locating;
pub mod measuring;
pub mod probing;
pub mod propagating;
pub mod reading;
pub mod sealing;
pub mod traversing;
pub mod visiting;
pub mod walking;
pub mod writing;
