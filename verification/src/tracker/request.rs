//! The URL and the query of an announce.

use vstd::prelude::*;
use vstd::string::StringExecFns;
use crate::bencode::decimal::{decimal, digits};
use crate::text::{hex_digit, latin1, push_char, push_signed, push_unsigned};
use crate::tracker::model::{Event, Request, RequestView, Tracker};

verus! {

/// The byte is a letter or a digit of ASCII or one of `-`, `.`, `_` and `~`.
pub open spec fn is_unreserved(b: u8) -> bool {
    ||| 48 <= b <= 57
    ||| 65 <= b <= 90
    ||| 97 <= b <= 122
    ||| b == 45
    ||| b == 46
    ||| b == 95
    ||| b == 126
}

/// A percent sign and the two hexadecimal digits of the byte, in upper case.
pub open spec fn percent_triplet(b: u8) -> Seq<char> {
    seq!['%', hex_digit(b as int / 16), hex_digit(b as int % 16)]
}

/// The bytes with every one that is not unreserved written as a percent
/// sign and two hexadecimal digits.
pub open spec fn percent_encoded(bytes: Seq<u8>) -> Seq<char>
    decreases bytes.len(),
{
    if bytes.len() == 0 {
        Seq::empty()
    } else if is_unreserved(bytes.last()) {
        percent_encoded(bytes.drop_last()).push(bytes.last() as char)
    } else {
        percent_encoded(bytes.drop_last()) + percent_triplet(bytes.last())
    }
}

/// `percent_encode_byte` of the crate `percent_encoding`: the text of
/// three characters that escapes the byte, a percent sign and the byte's
/// two hexadecimal digits in upper case.
#[verifier::external_body]
fn escape_byte(byte: u8) -> (text: &'static str)
    ensures
        text@ == percent_triplet(byte),
{
    percent_encoding::percent_encode_byte(byte)
}

fn unreserved(b: u8) -> (keep: bool)
    ensures
        keep == is_unreserved(b),
{
    (48 <= b && b <= 57) || (65 <= b && b <= 90) || (97 <= b && b <= 122) || b == 45 || b == 46
        || b == 95 || b == 126
}

/// Appends the bytes to `url`, escaped for a query.
pub fn push_percent_encoded(url: &mut String, bytes: &[u8])
    ensures
        final(url)@ == old(url)@ + percent_encoded(bytes@),
{
    let mut i: usize = 0;
    while i < bytes.len()
        invariant
            0 <= i <= bytes@.len(),
            url@ == old(url)@ + percent_encoded(bytes@.take(i as int)),
        decreases bytes@.len() - i,
    {
        let b = bytes[i];
        proof {
            assert(bytes@.take(i + 1).drop_last() =~= bytes@.take(i as int));
            assert(bytes@.take(i + 1).last() == b);
        }
        let ghost before = url@;
        if unreserved(b) {
            push_char(url, b as char);
            assert(url@ =~= old(url)@ + percent_encoded(bytes@.take(i + 1)));
        } else {
            url.append(escape_byte(b));
            assert(url@ =~= old(url)@ + percent_encoded(bytes@.take(i + 1)));
        }
        i += 1;
    }
    assert(bytes@.take(i as int) =~= bytes@);
}

/// The word that stands for the event in a query.
pub open spec fn event_name(event: Event) -> Seq<char> {
    match event {
        Event::Started => "started"@,
        Event::Completed => "completed"@,
        Event::Stopped => "stopped"@,
    }
}

/// The announce URL with the two binary fields of the query, `info_hash`
/// and `peer_id`, escaped byte by byte.
pub open spec fn announce_url(url: Seq<char>, req: RequestView) -> Seq<char> {
    url + "?info_hash="@ + percent_encoded(req.info_hash) + "&peer_id="@ + percent_encoded(
        req.peer_id,
    )
}

/// One pair where there is a value.
pub open spec fn optional_pair(name: Seq<char>, value: Option<Seq<char>>) -> Seq<
    (Seq<char>, Seq<char>),
> {
    match value {
        Some(v) => seq![(name, v)],
        None => Seq::empty(),
    }
}

pub open spec fn unsigned_text(n: usize) -> Seq<char> {
    latin1(digits(n as nat))
}

pub open spec fn optional_unsigned_text(n: Option<usize>) -> Option<Seq<char>> {
    match n {
        Some(n) => Some(unsigned_text(n)),
        None => None,
    }
}

pub open spec fn optional_event_name(event: Option<Event>) -> Option<Seq<char>> {
    match event {
        Some(e) => Some(event_name(e)),
        None => None,
    }
}

/// The pairs of the query besides the two binary fields: `port`,
/// `uploaded`, `downloaded`, `left` and `compact` always; `event`, `ip`,
/// `numwant`, `key` and `trackerid` where they are set; and `no_peer_id`
/// with an empty value where `compact` is not 1.
pub open spec fn announce_query(req: RequestView) -> Seq<(Seq<char>, Seq<char>)> {
    seq![
        ("port"@, unsigned_text(req.port)),
        ("uploaded"@, unsigned_text(req.uploaded)),
        ("downloaded"@, unsigned_text(req.downloaded)),
        ("left"@, latin1(decimal(req.left as int))),
        ("compact"@, unsigned_text(req.compact)),
    ] + optional_pair("event"@, optional_event_name(req.event)) + optional_pair("ip"@, req.ip)
        + optional_pair("numwant"@, optional_unsigned_text(req.numwant)) + optional_pair(
        "key"@,
        req.key,
    ) + optional_pair("trackerid"@, req.tracker_id) + (if req.compact != 1 {
        seq![("no_peer_id"@, Seq::<char>::empty())]
    } else {
        Seq::empty()
    })
}

fn unsigned_string(n: usize) -> (text: String)
    ensures
        text@ == unsigned_text(n),
{
    let mut text = String::new();
    push_unsigned(&mut text, n as u64);
    assert(text@ =~= unsigned_text(n));
    text
}

fn signed_string(i: i64) -> (text: String)
    ensures
        text@ == latin1(decimal(i as int)),
{
    let mut text = String::new();
    push_signed(&mut text, i);
    assert(text@ =~= latin1(decimal(i as int)));
    text
}

impl Event {
    /// The word that stands for the event in a query.
    pub fn event(&self) -> (name: String)
        ensures
            name@ == event_name(*self),
    {
        match *self {
            Self::Started => "started".to_string(),
            Self::Completed => "completed".to_string(),
            Self::Stopped => "stopped".to_string(),
        }
    }
}

impl Tracker {
    pub fn new(url: String) -> (tracker: Tracker)
        ensures
            tracker.url == url,
    {
        Tracker { url }
    }

    /// The announce URL with the two binary fields of the query.
    pub fn build_url(&self, req: &Request) -> (url: String)
        ensures
            url@ == announce_url(self.url@, req@),
    {
        let mut url = self.url.clone();
        url.append("?info_hash=");
        push_percent_encoded(&mut url, req.info_hash.as_slice());
        url.append("&peer_id=");
        push_percent_encoded(&mut url, req.peer_id.as_slice());
        url
    }

    /// The pairs of the query besides the two binary fields.
    pub fn build_query(&self, req: &Request) -> (query: Vec<(&'static str, String)>)
        ensures
            query.deep_view() == announce_query(req@),
    {
        let mut query: Vec<(&'static str, String)> = Vec::new();
        query.push(("port", unsigned_string(req.port)));
        query.push(("uploaded", unsigned_string(req.uploaded)));
        query.push(("downloaded", unsigned_string(req.downloaded)));
        query.push(("left", signed_string(req.left)));
        query.push(("compact", unsigned_string(req.compact)));
        let ghost fixed = query.deep_view();
        assert(fixed =~= seq![
            ("port"@, unsigned_text(req.port)),
            ("uploaded"@, unsigned_text(req.uploaded)),
            ("downloaded"@, unsigned_text(req.downloaded)),
            ("left"@, latin1(decimal(req.left as int))),
            ("compact"@, unsigned_text(req.compact)),
        ]);
        if let Some(event) = &req.event {
            query.push(("event", event.event()));
        }
        let ghost with_event = query.deep_view();
        assert(with_event =~= fixed + optional_pair("event"@, optional_event_name(req.event)));
        if let Some(ip) = &req.ip {
            query.push(("ip", ip.clone()));
        }
        let ghost with_ip = query.deep_view();
        assert(with_ip =~= with_event + optional_pair("ip"@, req@.ip));
        if let Some(numwant) = req.numwant {
            query.push(("numwant", unsigned_string(numwant)));
        }
        let ghost with_numwant = query.deep_view();
        assert(with_numwant =~= with_ip + optional_pair(
            "numwant"@,
            optional_unsigned_text(req.numwant),
        ));
        if let Some(key) = &req.key {
            query.push(("key", key.clone()));
        }
        let ghost with_key = query.deep_view();
        assert(with_key =~= with_numwant + optional_pair("key"@, req@.key));
        if let Some(tracker_id) = &req.tracker_id {
            query.push(("trackerid", tracker_id.clone()));
        }
        let ghost with_id = query.deep_view();
        assert(with_id =~= with_key + optional_pair("trackerid"@, req@.tracker_id));
        if req.compact != 1 {
            query.push(("no_peer_id", String::new()));
        }
        assert(query.deep_view() =~= announce_query(req@));
        query
    }
}

} // verus!
