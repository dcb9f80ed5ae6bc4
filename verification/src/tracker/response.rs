//! From the bytes of a tracker's answer to the peers that it names.

use vstd::prelude::*;
use vstd::string::StringSliceAdditionalSpecFns;
use crate::bencode::decode::decode;
use crate::bencode::value::{dict_get, lemma_view, list_view, BenObject, BenValue, Dict};
use crate::text::{text_from_utf8, utf8_text};
use crate::tracker::error::{TrackerError, TrackerErrorView};
use crate::tracker::model::{Host, HostView, Peer, PeerView, Response, ResponseView, Tracker};

verus! {

/// The bytes of one peer in a compact list: four of address, two of port.
pub const ENTRY_LEN: usize = 6;

/// The number of four bytes, the first the most significant.
pub open spec fn be_u32(b0: u8, b1: u8, b2: u8, b3: u8) -> u32 {
    (b0 as int * 16777216 + b1 as int * 65536 + b2 as int * 256 + b3 as int) as u32
}

/// The number of two bytes, the first the most significant.
pub open spec fn be_u16(b0: u8, b1: u8) -> u16 {
    (b0 as int * 256 + b1 as int) as u16
}

/// The peer at `i` in a compact list.
pub open spec fn compact_peer(b: Seq<u8>, i: int) -> PeerView {
    PeerView {
        ip: HostView::V4(be_u32(b[6 * i], b[6 * i + 1], b[6 * i + 2], b[6 * i + 3])),
        port: be_u16(b[6 * i + 4], b[6 * i + 5]),
    }
}

/// The peers of a compact list: one for every six bytes.
///
/// - `InvalidPeers` where the number of bytes is no multiple of six.
pub open spec fn compact_peers(b: Seq<u8>) -> Result<Seq<PeerView>, TrackerErrorView> {
    if b.len() % 6 != 0 {
        Err(TrackerErrorView::InvalidPeers)
    } else {
        Ok(Seq::new(b.len() / 6, |i: int| compact_peer(b, i)))
    }
}

/// The text under `name`, where the key is there.
///
/// - `WrongType` with the key where the value is no byte string, or one
///   that is no UTF-8.
pub open spec fn text_at(d: Seq<(Seq<u8>, BenValue)>, name: &'static str) -> Result<
    Option<Seq<char>>,
    TrackerErrorView,
> {
    match dict_get(d, name.spec_bytes()) {
        None => Ok(None),
        Some(BenValue::String(b)) => match utf8_text(b) {
            Some(t) => Ok(Some(t)),
            None => Err(TrackerErrorView::WrongType(name)),
        },
        Some(_) => Err(TrackerErrorView::WrongType(name)),
    }
}

/// The integer under `name`, where the key is there.
///
/// - `WrongType` with the key where the value is no integer.
pub open spec fn int_at(d: Seq<(Seq<u8>, BenValue)>, name: &'static str) -> Result<
    Option<i64>,
    TrackerErrorView,
> {
    match dict_get(d, name.spec_bytes()) {
        None => Ok(None),
        Some(BenValue::Int(i)) => Ok(Some(i)),
        Some(_) => Err(TrackerErrorView::WrongType(name)),
    }
}

/// What was found under a key that has to be there.
///
/// - `MissingKey` with the key where nothing was found.
pub open spec fn required<T>(
    found: Result<Option<T>, TrackerErrorView>,
    name: &'static str,
) -> Result<T, TrackerErrorView> {
    match found {
        Err(e) => Err(e),
        Ok(None) => Err(TrackerErrorView::MissingKey(name)),
        Ok(Some(x)) => Ok(x),
    }
}

/// The seconds that an integer stands for: its lower 64 bits without sign.
pub open spec fn seconds(i: i64) -> u64 {
    i as u64
}

pub open spec fn optional_seconds(i: Option<i64>) -> Option<u64> {
    match i {
        Some(i) => Some(seconds(i)),
        None => None,
    }
}

/// The address under `ip`, as text that is not looked at.
pub open spec fn ip_of(d: Seq<(Seq<u8>, BenValue)>) -> Result<HostView, TrackerErrorView> {
    match required(text_at(d, "ip"), "ip") {
        Ok(name) => Ok(HostView::Name(name)),
        Err(e) => Err(e),
    }
}

/// The port under `port`: the lower 16 bits of the integer.
pub open spec fn port_of(d: Seq<(Seq<u8>, BenValue)>) -> Result<u16, TrackerErrorView> {
    match required(int_at(d, "port"), "port") {
        Ok(port) => Ok(port as u16),
        Err(e) => Err(e),
    }
}

/// The peer that a dictionary describes by `ip` and `port`.
pub open spec fn peer_of(d: Seq<(Seq<u8>, BenValue)>) -> Result<PeerView, TrackerErrorView> {
    let ip = ip_of(d);
    let port = port_of(d);
    if ip is Err {
        Err(ip->Err_0)
    } else if port is Err {
        Err(port->Err_0)
    } else {
        Ok(PeerView { ip: ip->Ok_0, port: port->Ok_0 })
    }
}

/// The peers of a list of dictionaries, with the error of the first
/// dictionary that describes none. Items that are no dictionaries are
/// passed over.
pub open spec fn legacy_peers(l: Seq<BenValue>) -> Result<Seq<PeerView>, TrackerErrorView>
    decreases l.len(),
{
    if l.len() == 0 {
        Ok(Seq::empty())
    } else {
        match legacy_peers(l.drop_last()) {
            Err(e) => Err(e),
            Ok(peers) => match l.last() {
                BenValue::Dict(d) => match peer_of(d) {
                    Err(e) => Err(e),
                    Ok(peer) => Ok(peers.push(peer)),
                },
                _ => Ok(peers),
            },
        }
    }
}

/// The peers under `peers`, in the compact form where the value is a byte
/// string and in the form of dictionaries where it is a list.
///
/// - `MissingKey("peers")` where the key is not there;
/// - `WrongType("peers")` where the value is an integer or a dictionary.
pub open spec fn peers_of(d: Seq<(Seq<u8>, BenValue)>) -> Result<Seq<PeerView>, TrackerErrorView> {
    match dict_get(d, "peers".spec_bytes()) {
        None => Err(TrackerErrorView::MissingKey("peers")),
        Some(BenValue::String(b)) => compact_peers(b),
        Some(BenValue::List(l)) => legacy_peers(l),
        Some(_) => Err(TrackerErrorView::WrongType("peers")),
    }
}

/// The answer that a bencoded value holds. The keys are looked at in the
/// order `failure reason`, `warning message`, `interval`, `min interval`,
/// `tracker id`, `complete`, `incomplete`, `peers`, and the first that
/// fails decides the error.
///
/// - `InvalidResponse` where the value is no dictionary;
/// - `Failure` with the reason where `failure reason` is there.
pub open spec fn response_of(v: BenValue) -> Result<ResponseView, TrackerErrorView> {
    match v {
        BenValue::Dict(d) => {
            let failure = text_at(d, "failure reason");
            let warning = text_at(d, "warning message");
            let interval = required(int_at(d, "interval"), "interval");
            let min_interval = int_at(d, "min interval");
            let tracker_id = text_at(d, "tracker id");
            let complete = int_at(d, "complete");
            let incomplete = int_at(d, "incomplete");
            let peers = peers_of(d);
            if failure is Err {
                Err(failure->Err_0)
            } else if failure->Ok_0 is Some {
                Err(TrackerErrorView::Failure(failure->Ok_0->0))
            } else if warning is Err {
                Err(warning->Err_0)
            } else if interval is Err {
                Err(interval->Err_0)
            } else if min_interval is Err {
                Err(min_interval->Err_0)
            } else if tracker_id is Err {
                Err(tracker_id->Err_0)
            } else if complete is Err {
                Err(complete->Err_0)
            } else if incomplete is Err {
                Err(incomplete->Err_0)
            } else if peers is Err {
                Err(peers->Err_0)
            } else {
                Ok(
                    ResponseView {
                        failure_reason: None,
                        warning_message: warning->Ok_0,
                        interval: seconds(interval->Ok_0),
                        min_interval: optional_seconds(min_interval->Ok_0),
                        tracker_id: tracker_id->Ok_0,
                        complete: complete->Ok_0,
                        incomplete: incomplete->Ok_0,
                        peers: peers->Ok_0,
                    },
                )
            }
        },
        _ => Err(TrackerErrorView::InvalidResponse),
    }
}

/// The answer that the bytes of a tracker's reply hold.
///
/// - `BenObjectParseError` with the codec's error where the bytes are no
///   bencoded value.
pub open spec fn parse_response(bytes: Seq<u8>) -> Result<ResponseView, TrackerErrorView> {
    match decode(bytes) {
        Err(e) => Err(TrackerErrorView::BenObjectParseError(e)),
        Ok(v) => response_of(v),
    }
}

/// The result is what the model says: the value with that view, or the
/// error with that view.
pub open spec fn agrees<T: DeepView>(res: Result<T, TrackerError>, model: Result<
    T::V,
    TrackerErrorView,
>) -> bool {
    match res {
        Ok(x) => model == Ok::<T::V, TrackerErrorView>(x.deep_view()),
        Err(e) => model == Err::<T::V, TrackerErrorView>(e.deep_view()),
    }
}

/// Where the peers of the first `n` items fail, the peers of all fail in the same way.
pub proof fn lemma_legacy_peers_error(l: Seq<BenValue>, n: int)
    requires
        0 <= n <= l.len(),
        legacy_peers(l.take(n)) is Err,
    ensures
        legacy_peers(l) == legacy_peers(l.take(n)),
    decreases l.len() - n,
{
    if n < l.len() {
        assert(l.take(n + 1).drop_last() =~= l.take(n));
        lemma_legacy_peers_error(l, n + 1);
    } else {
        assert(l.take(n) =~= l);
    }
}

fn optional_text(dict: &Dict, name: &'static str) -> (res: Result<Option<String>, TrackerError>)
    ensures
        agrees(res, text_at(dict@, name)),
{
    match dict.get(name.as_bytes()) {
        None => Ok(None),
        Some(obj) => {
            proof {
                lemma_view(*obj);
            }
            match obj {
                BenObject::String(bytes) => match text_from_utf8(bytes.as_slice()) {
                    Some(text) => Ok(Some(text)),
                    None => Err(TrackerError::WrongType(name)),
                },
                _ => Err(TrackerError::WrongType(name)),
            }
        },
    }
}

fn optional_int(dict: &Dict, name: &'static str) -> (res: Result<Option<i64>, TrackerError>)
    ensures
        agrees(res, int_at(dict@, name)),
{
    match dict.get(name.as_bytes()) {
        None => Ok(None),
        Some(obj) => {
            proof {
                lemma_view(*obj);
            }
            match obj {
                BenObject::Int(i) => Ok(Some(*i)),
                _ => Err(TrackerError::WrongType(name)),
            }
        },
    }
}

fn to_seconds(i: i64) -> (s: u64)
    ensures
        s == seconds(i),
{
    #[verifier::truncate]
    (i as u64)
}

impl Tracker {
    /// Reads a tracker's answer to an announce.
    pub fn parse_bytes(&self, bytes: &[u8]) -> (res: Result<Response, TrackerError>)
        ensures
            agrees(res, parse_response(bytes@)),
    {
        let obj = match BenObject::from_bytes(bytes) {
            Ok(obj) => obj,
            Err(e) => {
                return Err(TrackerError::BenObjectParseError(e));
            },
        };
        proof {
            lemma_view(obj);
        }
        match &obj {
            BenObject::Dict(dict) => {
                let failure_reason = match self.failure_reason(dict) {
                    Ok(x) => x,
                    Err(e) => {
                        return Err(e);
                    },
                };
                if let Some(reason) = failure_reason {
                    return Err(TrackerError::Failure(reason));
                }
                let warning_message = match self.warning_message(dict) {
                    Ok(x) => x,
                    Err(e) => {
                        return Err(e);
                    },
                };
                let interval = match self.interval(dict) {
                    Ok(x) => x,
                    Err(e) => {
                        return Err(e);
                    },
                };
                let min_interval = match self.min_interval(dict) {
                    Ok(x) => x,
                    Err(e) => {
                        return Err(e);
                    },
                };
                let tracker_id = match self.tracker_id(dict) {
                    Ok(x) => x,
                    Err(e) => {
                        return Err(e);
                    },
                };
                let complete = match self.complete(dict) {
                    Ok(x) => x,
                    Err(e) => {
                        return Err(e);
                    },
                };
                let incomplete = match self.incomplete(dict) {
                    Ok(x) => x,
                    Err(e) => {
                        return Err(e);
                    },
                };
                let peers = match self.peers(dict) {
                    Ok(x) => x,
                    Err(e) => {
                        return Err(e);
                    },
                };
                Ok(
                    Response {
                        failure_reason: None,
                        warning_message,
                        interval,
                        min_interval,
                        tracker_id,
                        complete,
                        incomplete,
                        peers,
                    },
                )
            },
            _ => Err(TrackerError::InvalidResponse),
        }
    }

    fn port(&self, dict: &Dict) -> (res: Result<u16, TrackerError>)
        ensures
            agrees(res, port_of(dict@)),
    {
        match optional_int(dict, "port") {
            Ok(Some(port)) => Ok(
                #[verifier::truncate]
                (port as u16),
            ),
            Ok(None) => Err(TrackerError::MissingKey("port")),
            Err(e) => Err(e),
        }
    }

    fn ip(&self, dict: &Dict) -> (res: Result<Host, TrackerError>)
        ensures
            agrees(res, ip_of(dict@)),
    {
        match optional_text(dict, "ip") {
            Ok(Some(ip)) => Ok(Host::Name(ip)),
            Ok(None) => Err(TrackerError::MissingKey("ip")),
            Err(e) => Err(e),
        }
    }

    /// The peers of a compact list: for every six bytes the address of
    /// four and the port of two, the most significant byte first.
    pub fn peers_from_bytes(&self, bytes: &[u8]) -> (res: Result<Vec<Peer>, TrackerError>)
        ensures
            agrees(res, compact_peers(bytes@)),
    {
        let buf_len = bytes.len();
        if buf_len % ENTRY_LEN != 0 {
            return Err(TrackerError::InvalidPeers);
        }
        let count = buf_len / ENTRY_LEN;
        let mut peers: Vec<Peer> = Vec::with_capacity(count);
        let mut i: usize = 0;
        while i < count
            invariant
                0 <= i <= count,
                count * 6 == bytes@.len(),
                bytes@.len() == buf_len,
                peers@.len() == i,
                forall|j: int| 0 <= j < i ==> (#[trigger] peers@[j]).deep_view() == compact_peer(
                    bytes@,
                    j,
                ),
            decreases count - i,
        {
            assert(i * 6 + 6 <= count * 6);
            let at = i * ENTRY_LEN;
            let addr: u32 = (bytes[at] as u32) * 16777216 + (bytes[at + 1] as u32) * 65536 + (
            bytes[at + 2] as u32) * 256 + (bytes[at + 3] as u32);
            let port: u16 = (bytes[at + 4] as u16) * 256 + (bytes[at + 5] as u16);
            peers.push(Peer { ip: Host::V4(addr), port });
            i += 1;
        }
        assert(peers.deep_view() =~= Seq::new(
            bytes@.len() / 6,
            |i: int| compact_peer(bytes@, i),
        ));
        Ok(peers)
    }

    fn peers(&self, dict: &Dict) -> (res: Result<Vec<Peer>, TrackerError>)
        ensures
            agrees(res, peers_of(dict@)),
    {
        match dict.get("peers".as_bytes()) {
            None => Err(TrackerError::MissingKey("peers")),
            Some(obj) => {
                proof {
                    lemma_view(*obj);
                }
                match obj {
                    BenObject::String(bytes) => self.peers_from_bytes(bytes.as_slice()),
                    BenObject::List(list) => {
                        let ghost items = list_view(list@);
                        let mut peers: Vec<Peer> = Vec::with_capacity(list.len());
                        let mut i: usize = 0;
                        assert(items.take(0) =~= Seq::<BenValue>::empty());
                        assert(peers.deep_view() =~= Seq::<PeerView>::empty());
                        while i < list.len()
                            invariant
                                0 <= i <= list@.len(),
                                items == list_view(list@),
                                dict_get(dict@, "peers".spec_bytes()) == Some(
                                    BenValue::List(items),
                                ),
                                legacy_peers(items.take(i as int)) == Ok::<
                                    Seq<PeerView>,
                                    TrackerErrorView,
                                >(peers.deep_view()),
                            decreases list@.len() - i,
                        {
                            let ghost before = peers.deep_view();
                            proof {
                                assert(items.take(i + 1).drop_last() =~= items.take(i as int));
                                assert(items.take(i + 1).last() == list@[i as int]@);
                                lemma_view(list@[i as int]);
                            }
                            if let BenObject::Dict(peer) = &list[i] {
                                let ip = match self.ip(peer) {
                                    Ok(x) => x,
                                    Err(e) => {
                                        proof {
                                            lemma_legacy_peers_error(items, i + 1);
                                        }
                                        return Err(e);
                                    },
                                };
                                let port = match self.port(peer) {
                                    Ok(x) => x,
                                    Err(e) => {
                                        proof {
                                            lemma_legacy_peers_error(items, i + 1);
                                        }
                                        return Err(e);
                                    },
                                };
                                let found = Peer { ip, port };
                                peers.push(found);
                                assert(peers.deep_view() =~= before.push(found.deep_view()));
                            }
                            i += 1;
                        }
                        assert(items.take(i as int) =~= items);
                        Ok(peers)
                    },
                    _ => Err(TrackerError::WrongType("peers")),
                }
            },
        }
    }

    fn incomplete(&self, dict: &Dict) -> (res: Result<Option<i64>, TrackerError>)
        ensures
            agrees(res, int_at(dict@, "incomplete")),
    {
        optional_int(dict, "incomplete")
    }

    fn complete(&self, dict: &Dict) -> (res: Result<Option<i64>, TrackerError>)
        ensures
            agrees(res, int_at(dict@, "complete")),
    {
        optional_int(dict, "complete")
    }

    fn tracker_id(&self, dict: &Dict) -> (res: Result<Option<String>, TrackerError>)
        ensures
            agrees(res, text_at(dict@, "tracker id")),
    {
        optional_text(dict, "tracker id")
    }

    fn min_interval(&self, dict: &Dict) -> (res: Result<Option<u64>, TrackerError>)
        ensures
            match res {
                Ok(x) => int_at(dict@, "min interval") matches Ok(i) && x == optional_seconds(i),
                Err(e) => int_at(dict@, "min interval") == Err::<Option<i64>, TrackerErrorView>(
                    e.deep_view(),
                ),
            },
    {
        match optional_int(dict, "min interval") {
            Ok(Some(min_interval)) => Ok(Some(to_seconds(min_interval))),
            Ok(None) => Ok(None),
            Err(e) => Err(e),
        }
    }

    fn interval(&self, dict: &Dict) -> (res: Result<u64, TrackerError>)
        ensures
            match res {
                Ok(x) => required(int_at(dict@, "interval"), "interval") matches Ok(i) && x
                    == seconds(i),
                Err(e) => required(int_at(dict@, "interval"), "interval") == Err::<
                    i64,
                    TrackerErrorView,
                >(e.deep_view()),
            },
    {
        match optional_int(dict, "interval") {
            Ok(Some(interval)) => Ok(to_seconds(interval)),
            Ok(None) => Err(TrackerError::MissingKey("interval")),
            Err(e) => Err(e),
        }
    }

    fn warning_message(&self, dict: &Dict) -> (res: Result<Option<String>, TrackerError>)
        ensures
            agrees(res, text_at(dict@, "warning message")),
    {
        optional_text(dict, "warning message")
    }

    fn failure_reason(&self, dict: &Dict) -> (res: Result<Option<String>, TrackerError>)
        ensures
            agrees(res, text_at(dict@, "failure reason")),
    {
        optional_text(dict, "failure reason")
    }
}

} // verus!
