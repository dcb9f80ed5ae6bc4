//! The kinds of message of the peer protocol.

use vstd::prelude::*;

verus! {

/// The kind of a message, which its first byte names.
#[derive(Copy, Clone, Debug, PartialEq)]
pub enum MessageValue {
    Choke,
    Unchoke,
    Interested,
    NotInterested,
    Have,
    Bitfield,
    Request,
    Block,
    Cancel,
}

impl MessageValue {
    /// The byte that names the kind on the wire.
    pub open spec fn id(self) -> u8 {
        match self {
            MessageValue::Choke => 0,
            MessageValue::Unchoke => 1,
            MessageValue::Interested => 2,
            MessageValue::NotInterested => 3,
            MessageValue::Have => 4,
            MessageValue::Bitfield => 5,
            MessageValue::Request => 6,
            MessageValue::Block => 7,
            MessageValue::Cancel => 8,
        }
    }

    /// The byte that names the kind on the wire.
    pub fn value(self) -> (byte: u8)
        ensures
            byte == self.id(),
    {
        match self {
            MessageValue::Choke => 0,
            MessageValue::Unchoke => 1,
            MessageValue::Interested => 2,
            MessageValue::NotInterested => 3,
            MessageValue::Have => 4,
            MessageValue::Bitfield => 5,
            MessageValue::Request => 6,
            MessageValue::Block => 7,
            MessageValue::Cancel => 8,
        }
    }
}

} // verus!
