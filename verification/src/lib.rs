//! A local HTTP proxy for programs that cannot authenticate to the proxy of
//! their network. It answers that proxy's NTLM and Negotiate challenges as the
//! user who is logged in.
//!
//! The library holds what the program decides and computes. Sockets, files and
//! the calls of the operating system are its caller's.
pub mod auth;
pub mod boundary;
pub mod bytes;
pub mod chunk;
pub mod config;
pub mod dial;
pub mod doctor;
pub mod error;
pub mod filter;
pub mod hop;
pub mod http1;
pub mod io;
pub mod ip;
pub mod laws;
pub mod noproxy;
pub mod number;
pub mod platform;
pub mod resolve;
pub mod server;
pub mod service;
pub mod text;
pub mod wide;

pub use config::{Config, Mode};
pub use error::Error;
