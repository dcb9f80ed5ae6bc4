//! The records of an announce and their mathematical models.

use vstd::prelude::*;
use crate::torrent::hash::Sha1Hash;

verus! {

pub type PeerId = [u8; 20];

/// Where a peer is to be reached.
#[derive(Debug, Clone, PartialEq, Eq)]
pub enum Host {
    /// An IPv4 address: its four bytes as one number, the first byte the
    /// most significant.
    V4(u32),
    /// What a tracker gave as text: an address of either version or a
    /// host name, not looked at.
    Name(String),
}

pub enum HostView {
    V4(u32),
    Name(Seq<char>),
}

/// A peer that a tracker names.
#[derive(Debug, Clone, PartialEq, Eq)]
pub struct Peer {
    pub ip: Host,
    pub port: u16,
}

pub struct PeerView {
    pub ip: HostView,
    pub port: u16,
}

/// What the client reports with its announce.
#[derive(Debug, Clone, Copy, PartialEq, Eq)]
pub enum Event {
    Started,
    Completed,
    Stopped,
}

/// An announce.
#[derive(Debug)]
pub struct Request {
    pub info_hash: Sha1Hash,
    pub peer_id: PeerId,
    pub port: usize,
    pub uploaded: usize,
    pub downloaded: usize,
    pub left: i64,
    pub compact: usize,
    pub no_peer_id: Option<bool>,
    pub event: Option<Event>,
    /// The address that the client wants the tracker to hand out, as text.
    pub ip: Option<String>,
    pub numwant: Option<usize>,
    pub key: Option<String>,
    pub tracker_id: Option<String>,
}

pub struct RequestView {
    pub info_hash: Seq<u8>,
    pub peer_id: Seq<u8>,
    pub port: usize,
    pub uploaded: usize,
    pub downloaded: usize,
    pub left: i64,
    pub compact: usize,
    pub no_peer_id: Option<bool>,
    pub event: Option<Event>,
    pub ip: Option<Seq<char>>,
    pub numwant: Option<usize>,
    pub key: Option<Seq<char>>,
    pub tracker_id: Option<Seq<char>>,
}

/// A tracker's answer to an announce.
#[derive(Debug, Clone, PartialEq, Eq)]
pub struct Response {
    pub failure_reason: Option<String>,
    pub warning_message: Option<String>,
    /// The seconds to wait between two announces.
    pub interval: u64,
    /// The seconds that have to pass between two announces.
    pub min_interval: Option<u64>,
    pub tracker_id: Option<String>,
    pub complete: Option<i64>,
    pub incomplete: Option<i64>,
    pub peers: Vec<Peer>,
}

pub struct ResponseView {
    pub failure_reason: Option<Seq<char>>,
    pub warning_message: Option<Seq<char>>,
    pub interval: u64,
    pub min_interval: Option<u64>,
    pub tracker_id: Option<Seq<char>>,
    pub complete: Option<i64>,
    pub incomplete: Option<i64>,
    pub peers: Seq<PeerView>,
}

/// The tracker of a torrent, known by its announce URL.
#[derive(Debug, Clone, PartialEq, Eq)]
pub struct Tracker {
    pub url: String,
}

impl DeepView for Host {
    type V = HostView;

    open spec fn deep_view(&self) -> HostView {
        match self {
            Host::V4(address) => HostView::V4(*address),
            Host::Name(name) => HostView::Name(name@),
        }
    }
}

impl DeepView for Peer {
    type V = PeerView;

    open spec fn deep_view(&self) -> PeerView {
        PeerView { ip: self.ip.deep_view(), port: self.port }
    }
}

impl View for Peer {
    type V = PeerView;

    open spec fn view(&self) -> PeerView {
        self.deep_view()
    }
}

impl View for Request {
    type V = RequestView;

    open spec fn view(&self) -> RequestView {
        RequestView {
            info_hash: self.info_hash@,
            peer_id: self.peer_id@,
            port: self.port,
            uploaded: self.uploaded,
            downloaded: self.downloaded,
            left: self.left,
            compact: self.compact,
            no_peer_id: self.no_peer_id,
            event: self.event,
            ip: self.ip.deep_view(),
            numwant: self.numwant,
            key: self.key.deep_view(),
            tracker_id: self.tracker_id.deep_view(),
        }
    }
}

impl DeepView for Response {
    type V = ResponseView;

    open spec fn deep_view(&self) -> ResponseView {
        ResponseView {
            failure_reason: self.failure_reason.deep_view(),
            warning_message: self.warning_message.deep_view(),
            interval: self.interval,
            min_interval: self.min_interval,
            tracker_id: self.tracker_id.deep_view(),
            complete: self.complete,
            incomplete: self.incomplete,
            peers: self.peers.deep_view(),
        }
    }
}

impl View for Response {
    type V = ResponseView;

    open spec fn view(&self) -> ResponseView {
        self.deep_view()
    }
}

} // verus!
