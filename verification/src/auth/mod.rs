//! Authentication to an upstream proxy as the user who is logged in.
pub mod handshake;
pub mod sspi;

pub use handshake::{AuthSession, Handshake};
