//! The operating system that the program runs on.
use vstd::prelude::*;

verus! {

/// The operating systems that make a difference.
#[derive(Debug, Clone, Copy, PartialEq, Eq, Structural)]
pub enum Platform {
    Windows,
    Other,
}

} // verus!
