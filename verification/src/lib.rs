//! A client for Duck.ai: it models the challenges of the service, answers them, and
//! keeps the state of a chat.
//!
//! The library computes and decides. Files, the network, random bytes, rounding
//! arithmetic, the e-graph and the code generator are the caller's; they reach the
//! library as plain values or as functions whose results it takes as they come.
pub mod b64;
pub mod chat;
pub mod cli;
pub mod err;
pub mod floats;
pub mod ident;
pub mod ints;
pub mod jsnum;
pub mod laws;
pub mod net;
pub mod pipeline;
pub mod request;
pub mod session;
pub mod sha;
pub mod solver;
pub mod text;
pub mod turn;
pub mod wire;
