//! What is reported of bytes that a peer sent.

use vstd::prelude::*;

verus! {

#[derive(Debug, Clone, Copy, PartialEq, Eq)]
pub enum PeerError {
    WrongType,
    Invalid,
    EOF,
    Unknown,
}

} // verus!
