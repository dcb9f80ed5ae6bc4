use cbt::bencode::{BenObject, BencodeError, Dict};
use cbt::text::to_hex_upper;
use cbt::tracker::request::push_percent_encoded;
use cbt::tracker::{Event, Host, Peer, Request, Response, Tracker, TrackerError};

fn dict(pairs: Vec<(&str, BenObject)>) -> BenObject {
    BenObject::Dict(Dict::from_pairs(
        pairs.into_iter().map(|(k, v)| (k.as_bytes().to_vec(), v)).collect(),
    ))
}

fn tracker() -> Tracker {
    Tracker::new("http://bttracker.debian.org:6969/announce".to_owned())
}

fn request() -> Request {
    let mut info_hash = [0; 20];
    info_hash.copy_from_slice("abcdefghij1234567890".as_bytes());
    let mut peer_id = [0; 20];
    peer_id.copy_from_slice("cbt-2020-03-03-00000".as_bytes());
    Request {
        info_hash,
        peer_id,
        port: 16,
        downloaded: 1234,
        uploaded: 1234,
        left: 1234,
        compact: 1,
        no_peer_id: None,
        numwant: Some(1),
        ip: None,
        event: None,
        key: None,
        tracker_id: None,
    }
}

fn percent_encode(bytes: &[u8]) -> String {
    let mut out = String::new();
    push_percent_encoded(&mut out, bytes);
    out
}

fn answer(pairs: Vec<(&str, BenObject)>) -> Result<Response, TrackerError> {
    tracker().parse_bytes(&dict(pairs).bencode().unwrap())
}

fn v4(a: u8, b: u8, c: u8, d: u8, port: u16) -> Peer {
    Peer { ip: Host::V4(u32::from_be_bytes([a, b, c, d])), port }
}

#[test]
fn it_works() {
    let v = vec![
        1, 2, 3, 4, 5, 6, 7, 8, 9, 10, 11, 12, 13, 14, 15, 16, 17, 18, 19, 20,
    ];
    let bytes = to_hex_upper(&v);
    assert_eq!(bytes, "0102030405060708090A0B0C0D0E0F1011121314");

    let hash: Vec<u8> = vec![
        177, 17, 129, 60, 230, 15, 66, 145, 151, 52, 130, 61, 245, 236, 32, 189, 30, 4, 231, 247,
    ];
    let s = percent_encode(&hash);
    assert_eq!(s, "%B1%11%81%3C%E6%0FB%91%974%82%3D%F5%EC%20%BD%1E%04%E7%F7");
}

#[test]
fn percent_encoding_keeps_unreserved_bytes() {
    assert_eq!(
        percent_encode(b"AZaz09-._~"),
        "AZaz09-._~"
    );
    assert_eq!(percent_encode(b" !*'();:@&=+$,/?#[]%"), "%20%21%2A%27%28%29%3B%3A%40%26%3D%2B%24%2C%2F%3F%23%5B%5D%25");
    assert_eq!(percent_encode(&[0x00, 0x7f, 0x80, 0xff]), "%00%7F%80%FF");
    assert_eq!(percent_encode(b"@[`{/:"), "%40%5B%60%7B%2F%3A");
    assert_eq!(percent_encode(b""), "");
    // The example of the protocol's description.
    assert_eq!(
        percent_encode(&[
            0x12, 0x34, 0x56, 0x78, 0x9a, 0xbc, 0xde, 0xf1, 0x23, 0x45, 0x67, 0x89, 0xab, 0xcd,
            0xef, 0x12, 0x34, 0x56, 0x78, 0x9a
        ]),
        "%124Vx%9A%BC%DE%F1%23Eg%89%AB%CD%EF%124Vx%9A"
    );
}

#[test]
fn build_url_escapes_the_binary_fields() {
    let mut req = request();
    assert_eq!(
        tracker().build_url(&req),
        "http://bttracker.debian.org:6969/announce?info_hash=abcdefghij1234567890&peer_id=cbt-2020-03-03-00000"
    );
    req.info_hash = [
        177, 17, 129, 60, 230, 15, 66, 145, 151, 52, 130, 61, 245, 236, 32, 189, 30, 4, 231, 247,
    ];
    req.peer_id = [0xff; 20];
    assert_eq!(
        tracker().build_url(&req),
        format!(
            "http://bttracker.debian.org:6969/announce?info_hash={}&peer_id={}",
            "%B1%11%81%3C%E6%0FB%91%974%82%3D%F5%EC%20%BD%1E%04%E7%F7",
            "%FF".repeat(20)
        )
    );
}

#[test]
fn build_query_of_the_fixed_fields() {
    let mut req = request();
    req.numwant = None;
    assert_eq!(
        tracker().build_query(&req),
        vec![
            ("port", "16".to_owned()),
            ("uploaded", "1234".to_owned()),
            ("downloaded", "1234".to_owned()),
            ("left", "1234".to_owned()),
            ("compact", "1".to_owned()),
        ]
    );
}

#[test]
fn build_query_of_every_field() {
    let mut req = request();
    req.port = 6881;
    req.uploaded = 0;
    req.downloaded = usize::MAX;
    req.left = -1;
    req.compact = 0;
    req.event = Some(Event::Started);
    req.ip = Some("10.0.0.1".to_owned());
    req.numwant = Some(50);
    req.key = Some("k&y".to_owned());
    req.tracker_id = Some("id".to_owned());
    assert_eq!(
        tracker().build_query(&req),
        vec![
            ("port", "6881".to_owned()),
            ("uploaded", "0".to_owned()),
            ("downloaded", usize::MAX.to_string()),
            ("left", "-1".to_owned()),
            ("compact", "0".to_owned()),
            ("event", "started".to_owned()),
            ("ip", "10.0.0.1".to_owned()),
            ("numwant", "50".to_owned()),
            ("key", "k&y".to_owned()),
            ("trackerid", "id".to_owned()),
            ("no_peer_id", "".to_owned()),
        ]
    );
}

#[test]
fn event_names() {
    assert_eq!(Event::Started.event(), "started");
    assert_eq!(Event::Completed.event(), "completed");
    assert_eq!(Event::Stopped.event(), "stopped");
}

#[test]
fn compact_response() {
    let mut encoded_resp = Vec::new();
    encoded_resp.extend_from_slice(
        b"d\
        8:completei5e\
        10:incompletei3e\
        8:intervali15e\
        12:min intervali10e",
    );
    encoded_resp.extend_from_slice(b"5:peers6:");
    encoded_resp.extend_from_slice(&[0x02, 0x9c, 0xc9, 0xfe, 0xc0, 0x43]);
    encoded_resp.push(b'e');
    let expected = Response {
        tracker_id: None,
        failure_reason: None,
        warning_message: None,
        interval: 15,
        min_interval: Some(10),
        complete: Some(5),
        incomplete: Some(3),
        peers: vec![v4(2, 156, 201, 254, 49219)],
    };
    assert_eq!(tracker().parse_bytes(&encoded_resp), Ok(expected));
}

fn encode_compact_peers_list(peers: &[([u8; 4], u16)]) -> Vec<u8> {
    let encoded_peers: Vec<_> = peers
        .iter()
        .map(|(ip, port)| {
            ip.iter()
                .chain([(port >> 8) as u8, (port & 0xff) as u8].iter())
                .cloned()
                .collect::<Vec<_>>()
        })
        .flatten()
        .collect();

    let mut encoded = Vec::new();
    encoded.extend_from_slice(encoded_peers.len().to_string().as_bytes());
    encoded.push(b':');
    encoded.extend_from_slice(&encoded_peers);

    encoded
}

#[test]
fn test_mock_tracker_resp() {
    let tracker = tracker();
    let req = request();
    assert_eq!(
        tracker.build_url(&req),
        "http://bttracker.debian.org:6969/announce?info_hash=abcdefghij1234567890&peer_id=cbt-2020-03-03-00000"
    );
    assert_eq!(
        tracker.build_query(&req),
        vec![
            ("port", req.port.to_string()),
            ("uploaded", req.uploaded.to_string()),
            ("downloaded", req.downloaded.to_string()),
            ("left", req.left.to_string()),
            ("compact", "1".to_owned()),
            ("numwant", req.numwant.unwrap().to_string()),
        ]
    );

    let peer_ip = [2, 156, 201, 254];
    let peer_port = 49123;
    let expected = Response {
        tracker_id: None,
        failure_reason: None,
        warning_message: None,
        interval: 15,
        min_interval: Some(10),
        complete: Some(5),
        incomplete: Some(3),
        peers: vec![v4(2, 156, 201, 254, peer_port)],
    };

    let mut encoded_resp = Vec::new();
    // unterminated dict
    encoded_resp.extend_from_slice(
        b"d\
        8:completei5e\
        10:incompletei3e\
        8:intervali15e\
        12:min intervali10e",
    );
    // insert peers field into dict
    encoded_resp.extend_from_slice(b"5:peers");
    encoded_resp.extend_from_slice(&encode_compact_peers_list(&[(peer_ip, peer_port)]));
    // terminate dict
    encoded_resp.push(b'e');

    let actual = tracker.parse_bytes(&encoded_resp).unwrap();
    assert_eq!(actual, expected);
}

#[test]
fn compact_peers() {
    let t = tracker();
    let twelve = [1, 2, 3, 4, 0x1a, 0xe1, 255, 254, 253, 252, 0, 80];
    assert_eq!(
        t.peers_from_bytes(&twelve),
        Ok(vec![v4(1, 2, 3, 4, 6881), v4(255, 254, 253, 252, 80)])
    );
    let thirteen = [1, 2, 3, 4, 0x1a, 0xe1, 255, 254, 253, 252, 0, 80, 9];
    assert_eq!(t.peers_from_bytes(&thirteen), Err(TrackerError::InvalidPeers));
    assert_eq!(t.peers_from_bytes(&[]), Ok(vec![]));
    assert_eq!(t.peers_from_bytes(&[1, 2, 3, 4, 5]), Err(TrackerError::InvalidPeers));
    assert_eq!(
        t.peers_from_bytes(&[0, 0, 0, 0, 0, 0]),
        Ok(vec![Peer { ip: Host::V4(0), port: 0 }])
    );
    assert_eq!(
        t.peers_from_bytes(&[255, 255, 255, 255, 255, 255]),
        Ok(vec![Peer { ip: Host::V4(u32::MAX), port: u16::MAX }])
    );
}

#[test]
fn legacy_response() {
    let resp = answer(vec![
        ("interval", BenObject::from(900)),
        ("tracker id", BenObject::from("t1")),
        ("warning message", BenObject::from("slow down")),
        (
            "peers",
            BenObject::List(vec![
                dict(vec![
                    ("peer id", BenObject::from("p")),
                    ("ip", BenObject::from("192.168.0.1")),
                    ("port", BenObject::from(6881)),
                ]),
                BenObject::from("not a peer"),
                dict(vec![
                    ("ip", BenObject::from("tracker.example.org")),
                    ("port", BenObject::from(65536 + 7)),
                ]),
                dict(vec![("ip", BenObject::from("::1")), ("port", BenObject::from(-1))]),
            ]),
        ),
    ]);
    assert_eq!(
        resp,
        Ok(Response {
            failure_reason: None,
            warning_message: Some("slow down".to_owned()),
            interval: 900,
            min_interval: None,
            tracker_id: Some("t1".to_owned()),
            complete: None,
            incomplete: None,
            peers: vec![
                Peer { ip: Host::Name("192.168.0.1".to_owned()), port: 6881 },
                Peer { ip: Host::Name("tracker.example.org".to_owned()), port: 7 },
                Peer { ip: Host::Name("::1".to_owned()), port: 65535 },
            ],
        })
    );
}

#[test]
fn failure_is_an_error_of_its_own() {
    assert_eq!(
        answer(vec![("failure reason", BenObject::from("unregistered torrent"))]),
        Err(TrackerError::Failure("unregistered torrent".to_owned()))
    );
    assert_eq!(
        answer(vec![
            ("failure reason", BenObject::from("no")),
            ("interval", BenObject::from(1)),
            ("peers", BenObject::from("")),
        ]),
        Err(TrackerError::Failure("no".to_owned()))
    );
    assert_eq!(
        answer(vec![("failure reason", BenObject::from(1))]),
        Err(TrackerError::WrongType("failure reason"))
    );
}

#[test]
fn response_errors() {
    let t = tracker();
    assert_eq!(
        t.parse_bytes(b"<html>"),
        Err(TrackerError::BenObjectParseError(BencodeError::Invalid))
    );
    assert_eq!(
        t.parse_bytes(b"d8:interval"),
        Err(TrackerError::BenObjectParseError(BencodeError::EOF))
    );
    assert_eq!(t.parse_bytes(b"i1e"), Err(TrackerError::InvalidResponse));
    assert_eq!(answer(vec![]), Err(TrackerError::MissingKey("interval")));
    assert_eq!(
        answer(vec![("interval", BenObject::from(1))]),
        Err(TrackerError::MissingKey("peers"))
    );
    assert_eq!(
        answer(vec![("interval", BenObject::from("1")), ("peers", BenObject::from(""))]),
        Err(TrackerError::WrongType("interval"))
    );
    for key in ["warning message", "tracker id"] {
        assert_eq!(
            answer(vec![
                ("interval", BenObject::from(1)),
                ("peers", BenObject::from("")),
                (key, BenObject::from(1)),
            ]),
            Err(TrackerError::WrongType(key))
        );
    }
    for key in ["min interval", "complete", "incomplete"] {
        assert_eq!(
            answer(vec![
                ("interval", BenObject::from(1)),
                ("peers", BenObject::from("")),
                (key, BenObject::from("1")),
            ]),
            Err(TrackerError::WrongType(key))
        );
    }
    assert_eq!(
        answer(vec![("interval", BenObject::from(1)), ("peers", BenObject::from(5))]),
        Err(TrackerError::WrongType("peers"))
    );
    assert_eq!(
        answer(vec![("interval", BenObject::from(1)), ("peers", BenObject::from("12345"))]),
        Err(TrackerError::InvalidPeers)
    );
    let peer = |pairs: Vec<(&str, BenObject)>| {
        answer(vec![
            ("interval", BenObject::from(1)),
            ("peers", BenObject::List(vec![dict(pairs)])),
        ])
    };
    assert_eq!(
        peer(vec![("port", BenObject::from(1))]),
        Err(TrackerError::MissingKey("ip"))
    );
    assert_eq!(
        peer(vec![("ip", BenObject::from("h"))]),
        Err(TrackerError::MissingKey("port"))
    );
    assert_eq!(
        peer(vec![("ip", BenObject::from(1)), ("port", BenObject::from(1))]),
        Err(TrackerError::WrongType("ip"))
    );
    assert_eq!(
        peer(vec![("ip", BenObject::from("h")), ("port", BenObject::from("1"))]),
        Err(TrackerError::WrongType("port"))
    );
}

#[test]
fn interval_keeps_the_lower_bits() {
    let resp = answer(vec![
        ("interval", BenObject::from(-1)),
        ("min interval", BenObject::from(0)),
        ("peers", BenObject::from("")),
    ])
    .unwrap();
    assert_eq!(resp.interval, u64::MAX);
    assert_eq!(resp.min_interval, Some(0));
    assert_eq!(resp.peers, vec![]);
}
