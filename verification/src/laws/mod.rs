//! What the operations of the library are for, said of their inputs and their
//! results.
pub mod addresses;
pub mod bodies;
pub mod bypass;
pub mod calls;
pub mod challenges;
pub mod dialing;
pub mod fields;
pub mod handshake;
pub mod lists;
pub mod relay;
pub mod reports;
pub mod requests;
pub mod resolver;
pub mod tasks;
