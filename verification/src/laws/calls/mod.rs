//! What comes out of the calls themselves, whatever they are given.
pub mod connections;
pub mod messages;
pub mod routes;
pub mod telling;
