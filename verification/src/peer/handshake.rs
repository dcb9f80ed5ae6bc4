//! The handshake that opens a connection to a peer.

use vstd::prelude::*;
use vstd::string::StringSliceAdditionalSpecFns;

verus! {

pub const PROTOCOL_STRING: &'static str = "BitTorrent protocol";

/// The first message to a peer: the length and the name of the protocol,
/// eight reserved bytes, the info-hash of the torrent and the id of the
/// sender.
#[derive(Default)]
pub struct Handshake {
    pub pstrlen: u8,
    pub pstr: &'static str,
    pub reserved: [u8; 8],
    pub info_hash: [u8; 20],
    pub peer_id: [u8; 20],
}

/// The handshake on the wire.
pub open spec fn handshake_bytes(h: Handshake) -> Seq<u8> {
    seq![h.pstrlen] + h.pstr.spec_bytes() + h.reserved@ + h.info_hash@ + h.peer_id@
}

/// The name of the protocol has nineteen bytes.
pub proof fn lemma_protocol_string_len()
    ensures
        PROTOCOL_STRING.spec_bytes().len() == 19,
{
    reveal_strlit("BitTorrent protocol");
    vstd::utf8::is_ascii_chars_encode_utf8(PROTOCOL_STRING@);
}

impl Handshake {
    /// The handshake of the BitTorrent protocol for a torrent and a sender.
    pub fn new(info_hash: [u8; 20], peer_id: [u8; 20]) -> (h: Handshake)
        ensures
            h.pstrlen == 19,
            h.pstr == PROTOCOL_STRING,
            h.reserved@ == Seq::new(8, |i: int| 0u8),
            h.info_hash == info_hash,
            h.peer_id == peer_id,
            handshake_bytes(h).len() == 68,
    {
        proof {
            lemma_protocol_string_len();
        }
        let h = Handshake {
            pstrlen: 19,
            pstr: PROTOCOL_STRING,
            reserved: [0;8],
            info_hash,
            peer_id,
        };
        assert(h.reserved@ =~= Seq::new(8, |i: int| 0u8));
        h
    }

    /// The number of bytes of a handshake of the BitTorrent protocol.
    pub fn len() -> (n: usize)
        ensures
            n == 68,
    {
        1 + 19 + 8 + 20 + 20
    }

    /// The handshake on the wire: the length of the protocol's name, the
    /// name, the reserved bytes, the info-hash and the sender's id.
    pub fn encode(&self) -> (buf: Vec<u8>)
        ensures
            buf@ == handshake_bytes(*self),
    {
        let mut buf = Vec::with_capacity(Self::len());
        buf.push(self.pstrlen);
        buf.extend_from_slice(self.pstr.as_bytes());
        buf.extend_from_slice(self.reserved.as_slice());
        buf.extend_from_slice(self.info_hash.as_slice());
        buf.extend_from_slice(self.peer_id.as_slice());
        assert(buf@ =~= handshake_bytes(*self));
        buf
    }
}

} // verus!
