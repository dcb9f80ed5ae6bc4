use cbt::bencode::{BenObject, BencodeError, Dict};
use cbt::torrent::{File, Info, MultipleFile, SingleFile, TorrentError, TorrentFile};
use sha1::{Digest, Sha1};

fn dict(pairs: Vec<(&str, BenObject)>) -> BenObject {
    BenObject::Dict(Dict::from_pairs(
        pairs.into_iter().map(|(k, v)| (k.as_bytes().to_vec(), v)).collect(),
    ))
}

fn list(items: Vec<&str>) -> BenObject {
    BenObject::List(items.into_iter().map(BenObject::from).collect())
}

fn path(components: &[&str]) -> Vec<Vec<u8>> {
    components.iter().map(|c| c.as_bytes().to_vec()).collect()
}

fn pieces_of_one() -> Vec<u8> {
    vec![
        0x00, 0x01, 0x02, 0x03, 0x04, 0x05, 0x06, 0x07, 0x08, 0x09, 0x0a, 0x0b, 0x0c, 0x0d, 0x0e,
        0x0f, 0x10, 0x11, 0x12, 0x13,
    ]
}

fn info_with(pairs: Vec<(&str, BenObject)>) -> Vec<u8> {
    dict(vec![
        ("info", dict(pairs)),
        ("announce", BenObject::from("https://www.google.com")),
    ])
    .bencode()
    .unwrap()
}

fn single_file_info() -> Vec<(&'static str, BenObject)> {
    vec![
        ("piece length", BenObject::from(2)),
        ("pieces", BenObject::String(pieces_of_one())),
        ("name", BenObject::from("startdusk")),
        ("length", BenObject::from(2)),
    ]
}

fn without(pairs: Vec<(&'static str, BenObject)>, key: &str) -> Vec<(&'static str, BenObject)> {
    pairs.into_iter().filter(|(k, _)| *k != key).collect()
}

fn with(
    pairs: Vec<(&'static str, BenObject)>,
    key: &'static str,
    value: BenObject,
) -> Vec<(&'static str, BenObject)> {
    let mut pairs = without(pairs, key);
    pairs.push((key, value));
    pairs
}

#[test]
fn test_torrent_single_file_parse() {
    let pieces: Vec<u8> = pieces_of_one();
    let pieces_str = std::str::from_utf8(pieces.as_slice()).unwrap();
    let bytes = dict(vec![
        (
            "info",
            dict(vec![
                ("piece length", BenObject::from(2)),
                ("pieces", BenObject::from(pieces_str)),
                ("name", BenObject::from("startdusk")),
                ("length", BenObject::from(2)),
            ]),
        ),
        ("announce", BenObject::from("https://www.google.com")),
    ])
    .bencode()
    .unwrap();

    assert_eq!(
        TorrentFile::parse(&bytes).unwrap(),
        TorrentFile {
            info: Info::SingleFile(SingleFile {
                piece_length: 2,
                pieces,
                private: None,
                name: b"startdusk".to_vec(),
                length: 2,
                md5sum: None,
                extra: Dict::new(),
            }),
            announce: "https://www.google.com".to_owned(),
            announce_list: None,
            creation_date: None,
            comment: None,
            created_by: None,
            encoding: None
        }
    );

    // The digests of this one take 39 bytes, which is no multiple of twenty.
    let bytes = r#"d8:announce41:http://bttracker.debian.org:6969/announce7:comment35:"Debian CD from cdimage.debian.org"13:creation datei1573903810e4:infod6:lengthi351272960e4:name31:debian-10.2.0-amd64-netinst.iso12:piece lengthi262144e6:pieces39:binary blob of the hashes of each pieceee"#;
    assert_eq!(
        TorrentFile::parse(bytes.as_bytes()),
        Err(TorrentError::InvalidPieces)
    );

    let bytes = r#"d8:announce41:http://bttracker.debian.org:6969/announce7:comment35:"Debian CD from cdimage.debian.org"13:creation datei1573903810e4:infod6:lengthi351272960e4:name31:debian-10.2.0-amd64-netinst.iso12:piece lengthi262144e6:pieces40:binary blob of the hashes of each piece.ee"#;
    assert_eq!(
        TorrentFile::parse(bytes.as_bytes()).unwrap(),
        TorrentFile {
            info: Info::SingleFile(SingleFile {
                piece_length: 262144,
                pieces: "binary blob of the hashes of each piece."
                    .as_bytes()
                    .to_vec(),
                private: None,
                name: b"debian-10.2.0-amd64-netinst.iso".to_vec(),
                length: 351272960,
                md5sum: None,
                extra: Dict::new(),
            }),
            announce: "http://bttracker.debian.org:6969/announce".to_owned(),
            announce_list: None,
            creation_date: Some(1573903810),
            comment: Some(r#""Debian CD from cdimage.debian.org""#.to_owned()),
            created_by: None,
            encoding: None
        }
    );
}

#[test]
fn test_torrent_multiple_file_parse() {
    let pieces: Vec<u8> = pieces_of_one();
    let pieces_str = std::str::from_utf8(pieces.as_slice()).unwrap();
    let bytes = dict(vec![
        (
            "info",
            dict(vec![
                ("name", BenObject::from("startdusk")),
                ("piece length", BenObject::from(2)),
                ("pieces", BenObject::from(pieces_str)),
                (
                    "files",
                    BenObject::List(vec![
                        dict(vec![
                            ("length", BenObject::from(512)),
                            ("path", list(vec!["a", "b", "c", "d.txt"])),
                        ]),
                        dict(vec![
                            ("length", BenObject::from(1024)),
                            ("path", list(vec!["a", "b", "c", "f.txt"])),
                        ]),
                    ]),
                ),
            ]),
        ),
        ("announce", BenObject::from("https://www.google.com")),
    ])
    .bencode()
    .unwrap();

    assert_eq!(
        TorrentFile::parse(&bytes).unwrap(),
        TorrentFile {
            info: Info::MultipleFile(MultipleFile {
                name: b"startdusk".to_vec(),
                piece_length: 2,
                pieces,
                private: None,
                files: vec![
                    File {
                        length: 512,
                        md5sum: None,
                        path: path(&["a", "b", "c", "d.txt"]),
                extra: Dict::new(),
                    },
                    File {
                        length: 1024,
                        md5sum: None,
                        path: path(&["a", "b", "c", "f.txt"]),
                extra: Dict::new(),
                    }
                ],
                extra: Dict::new(),
            }),
            announce: "https://www.google.com".to_owned(),
            announce_list: None,
            creation_date: None,
            comment: None,
            created_by: None,
            encoding: None
        }
    );
}

#[test]
fn test_into_single_file_hash() {
    let info = Info::SingleFile(SingleFile {
        piece_length: 100,
        pieces: vec![1, 2],
        private: Some(0),
        name: b"startdusk".to_vec(),
        length: 100,
        md5sum: Some(["to", "do!()"].concat().into_bytes()),
        extra: Dict::new(),
    });

    assert_eq!(
        info.hash_string().unwrap(),
        "6067089A615467A306BE088FEB301AF27B4CE034".to_owned()
    );
}

#[test]
fn test_into_multiple_file_hash() {
    let shash = Info::MultipleFile(MultipleFile {
        piece_length: 262144,
        pieces: vec![1, 2],
        private: Some(1),
        name: b"debian-10.2.0-amd64-netinst.iso".to_vec(),
        files: vec![
            File {
                length: 512,
                md5sum: Some(b"14e1b600b1fd579f47433b88e8d85291132".to_vec()),
                path: path(&["a", "b", "c", "d.txt"]),
                extra: Dict::new(),
            },
            File {
                length: 1024,
                md5sum: Some(b"1d4bbcfed31c6e01e90d8e4099e39eb7".to_vec()),
                path: path(&["a", "b", "c", "f.txt"]),
                extra: Dict::new(),
            },
        ],
        extra: Dict::new(),
    })
    .hash_string()
    .unwrap();

    assert_eq!(shash, "57EFD09D0E3C07FC983DFC2A7303A81556272A21".to_owned());
}

#[test]
fn marshal_writes_the_keys_in_order() {
    let info = Info::SingleFile(SingleFile {
        piece_length: 100,
        pieces: vec![1, 2],
        private: Some(0),
        name: b"startdusk".to_vec(),
        length: 100,
        md5sum: Some(b"abc".to_vec()),
        extra: Dict::new(),
    });
    let mut expected = b"d6:lengthi100e6:md5sum3:abc4:name9:startdusk12:piece lengthi100e6:pieces2:".to_vec();
    expected.extend_from_slice(&[1, 2]);
    expected.extend_from_slice(b"7:privatei0ee");
    assert_eq!(info.marshal().unwrap(), expected);

    let info = Info::MultipleFile(MultipleFile {
        piece_length: 4,
        pieces: vec![],
        private: None,
        name: b"n".to_vec(),
        files: vec![File {
            length: 1,
            md5sum: None,
            path: path(&["a", "b"]),
            extra: Dict::new(),
        }],
        extra: Dict::new(),
    });
    assert_eq!(
        info.marshal().unwrap(),
        b"d5:filesld6:lengthi1e4:pathl1:a1:beee4:name1:n12:piece lengthi4e6:pieces0:e".to_vec()
    );
}

#[test]
fn hash_is_the_sha1_of_the_encoded_info() {
    // SHA-1 of "d6:lengthi0e4:name0:12:piece lengthi0e6:pieces0:e".
    let info = Info::SingleFile(SingleFile {
        piece_length: 0,
        pieces: vec![],
        private: None,
        name: b"".to_vec(),
        length: 0,
        md5sum: None,
        extra: Dict::new(),
    });
    assert_eq!(
        info.marshal().unwrap(),
        b"d6:lengthi0e4:name0:12:piece lengthi0e6:pieces0:e".to_vec()
    );
    let bytes = info.hash_bytes().unwrap();
    let string = info.hash_string().unwrap();
    assert_eq!(string.len(), 40);
    let hex: String = bytes.iter().map(|b| format!("{:02X}", b)).collect();
    assert_eq!(string, hex);
    assert_eq!(info.hash_bytes().unwrap(), bytes);
    assert_ne!(bytes, [0u8; 20]);
}

#[test]
fn hash_of_a_parsed_torrent_is_the_hash_of_its_info_bytes() {
    let at = Info::SingleFile(SingleFile {
        piece_length: 2,
        pieces: pieces_of_one(),
        private: None,
        name: b"startdusk".to_vec(),
        length: 2,
        md5sum: None,
        extra: Dict::new(),
    });
    let parsed = TorrentFile::parse(&info_with(single_file_info())).unwrap();
    assert_eq!(parsed.info, at);
    assert_eq!(
        parsed.info.marshal().unwrap(),
        dict(single_file_info()).bencode().unwrap()
    );
    assert_eq!(parsed.info.hash_bytes().unwrap(), at.hash_bytes().unwrap());
}

#[test]
fn torrent_with_every_optional_key() {
    let bytes = dict(vec![
        ("info", dict(with(
            with(single_file_info(), "private", BenObject::from(1)),
            "md5sum",
            BenObject::from("0123456789abcdef0123456789abcdef"),
        ))),
        ("announce", BenObject::from("http://t/announce")),
        (
            "announce-list",
            BenObject::List(vec![list(vec!["http://a", "http://b"]), list(vec![]), list(vec!["udp://c"])]),
        ),
        ("creation date", BenObject::from(-5)),
        ("comment", BenObject::from("c")),
        ("created by", BenObject::from("me")),
        ("encoding", BenObject::from("UTF-8")),
        ("unknown", BenObject::from(1)),
    ])
    .bencode()
    .unwrap();
    assert_eq!(
        TorrentFile::parse(&bytes).unwrap(),
        TorrentFile {
            info: Info::SingleFile(SingleFile {
                piece_length: 2,
                pieces: pieces_of_one(),
                private: Some(1),
                name: b"startdusk".to_vec(),
                length: 2,
                md5sum: Some(b"0123456789abcdef0123456789abcdef".to_vec()),
                extra: Dict::new(),
            }),
            announce: "http://t/announce".to_owned(),
            announce_list: Some(vec![
                vec!["http://a".to_owned(), "http://b".to_owned()],
                vec![],
                vec!["udp://c".to_owned()],
            ]),
            creation_date: Some(-5),
            comment: Some("c".to_owned()),
            created_by: Some("me".to_owned()),
            encoding: Some("UTF-8".to_owned()),
        }
    );
}

#[test]
fn torrent_that_is_no_bencode_or_no_dict() {
    assert_eq!(
        TorrentFile::parse(b""),
        Err(TorrentError::BenObjectParseError(BencodeError::EOF))
    );
    assert_eq!(
        TorrentFile::parse(b"d3:fooe"),
        Err(TorrentError::BenObjectParseError(BencodeError::Invalid))
    );
    assert_eq!(TorrentFile::parse(b"i1e"), Err(TorrentError::InvalidTorrent));
    assert_eq!(TorrentFile::parse(b"le"), Err(TorrentError::InvalidTorrent));
}

#[test]
fn torrent_with_missing_keys() {
    assert_eq!(TorrentFile::parse(b"de"), Err(TorrentError::MissingKey("info")));
    let no_announce = dict(vec![("info", dict(single_file_info()))]).bencode().unwrap();
    assert_eq!(
        TorrentFile::parse(&no_announce),
        Err(TorrentError::MissingKey("announce"))
    );
    for key in ["name", "piece length", "pieces", "length"] {
        assert_eq!(
            TorrentFile::parse(&info_with(without(single_file_info(), key))),
            Err(TorrentError::MissingKey(key))
        );
    }
    assert_eq!(
        TorrentFile::parse(&info_with(vec![])),
        Err(TorrentError::MissingKey("name"))
    );
}

#[test]
fn torrent_with_wrong_types() {
    let wrong = dict(vec![("info", BenObject::from(1))]).bencode().unwrap();
    assert_eq!(TorrentFile::parse(&wrong), Err(TorrentError::WrongType("info")));
    let cases: Vec<(&'static str, BenObject)> = vec![
        ("name", BenObject::from(1)),
        ("piece length", BenObject::from("2")),
        ("pieces", BenObject::from(20)),
        ("private", BenObject::from("1")),
        ("length", BenObject::from("2")),
        ("md5sum", BenObject::from(5)),
    ];
    for (key, value) in cases {
        assert_eq!(
            TorrentFile::parse(&info_with(with(single_file_info(), key, value))),
            Err(TorrentError::WrongType(key))
        );
    }
    let top: Vec<(&'static str, BenObject)> = vec![
        ("announce", BenObject::from(1)),
        ("announce-list", BenObject::from("x")),
        ("announce-list", BenObject::List(vec![BenObject::from("x")])),
        ("announce-list", BenObject::List(vec![BenObject::List(vec![BenObject::from(1)])])),
        ("creation date", BenObject::from("x")),
        ("comment", BenObject::from(1)),
        ("created by", BenObject::List(vec![])),
        ("encoding", BenObject::String(vec![0x80])),
    ];
    for (key, value) in top {
        let bytes = dict(vec![
            ("info", dict(single_file_info())),
            ("announce", BenObject::from("http://t")),
            (key, value),
        ])
        .bencode()
        .unwrap();
        assert_eq!(TorrentFile::parse(&bytes), Err(TorrentError::WrongType(key)));
    }
}

#[test]
fn torrent_with_malformed_pieces() {
    for len in [1usize, 19, 21, 39] {
        assert_eq!(
            TorrentFile::parse(&info_with(with(
                single_file_info(),
                "pieces",
                BenObject::String(vec![7; len])
            ))),
            Err(TorrentError::InvalidPieces)
        );
    }
    for len in [0usize, 20, 40] {
        let parsed = TorrentFile::parse(&info_with(with(
            single_file_info(),
            "pieces",
            BenObject::String(vec![7; len]),
        )))
        .unwrap();
        match parsed.info {
            Info::SingleFile(single) => assert_eq!(single.pieces, vec![7; len]),
            _ => panic!("not a single file torrent"),
        }
    }
}

#[test]
fn torrent_with_malformed_files() {
    let multi = |files: BenObject| info_with(with(without(single_file_info(), "length"), "files", files));
    assert_eq!(
        TorrentFile::parse(&multi(BenObject::List(vec![]))),
        Err(TorrentError::EmptyFiles)
    );
    assert_eq!(
        TorrentFile::parse(&multi(BenObject::from(1))),
        Err(TorrentError::WrongType("files"))
    );
    assert_eq!(
        TorrentFile::parse(&multi(BenObject::List(vec![BenObject::from(1)]))),
        Err(TorrentError::WrongType("files"))
    );
    let file = |pairs: Vec<(&str, BenObject)>| multi(BenObject::List(vec![dict(pairs)]));
    assert_eq!(
        TorrentFile::parse(&file(vec![("path", list(vec!["a"]))])),
        Err(TorrentError::MissingKey("length"))
    );
    assert_eq!(
        TorrentFile::parse(&file(vec![("length", BenObject::from(1))])),
        Err(TorrentError::MissingKey("path"))
    );
    assert_eq!(
        TorrentFile::parse(&file(vec![("length", BenObject::from(1)), ("path", list(vec![]))])),
        Err(TorrentError::WrongType("path"))
    );
    assert_eq!(
        TorrentFile::parse(&file(vec![
            ("length", BenObject::from(1)),
            ("path", BenObject::from("a"))
        ])),
        Err(TorrentError::WrongType("path"))
    );
    assert_eq!(
        TorrentFile::parse(&file(vec![
            ("length", BenObject::from(1)),
            ("path", BenObject::List(vec![BenObject::from(1)]))
        ])),
        Err(TorrentError::WrongType("path"))
    );
    assert_eq!(
        TorrentFile::parse(&file(vec![
            ("length", BenObject::from(1)),
            ("md5sum", BenObject::from(1)),
            ("path", list(vec!["a"]))
        ])),
        Err(TorrentError::WrongType("md5sum"))
    );
    // The first file that fails decides.
    let two = multi(BenObject::List(vec![
        dict(vec![("length", BenObject::from(1))]),
        dict(vec![("path", list(vec!["a"]))]),
    ]));
    assert_eq!(TorrentFile::parse(&two), Err(TorrentError::MissingKey("path")));
}

#[test]
fn files_decide_between_the_two_kinds_of_info() {
    let both = info_with(with(
        single_file_info(),
        "files",
        BenObject::List(vec![dict(vec![
            ("length", BenObject::from(9)),
            ("md5sum", BenObject::from("m")),
            ("path", list(vec!["d", "f"])),
        ])]),
    ));
    match TorrentFile::parse(&both).unwrap().info {
        Info::MultipleFile(multiple) => {
            assert_eq!(
                multiple.files,
                vec![File {
                    length: 9,
                    md5sum: Some(b"m".to_vec()),
                    path: path(&["d", "f"]),
                    extra: Dict::new(),
                }]
            );
        }
        _ => panic!("not a multiple file torrent"),
    }
}

fn sha1_of(bytes: &[u8]) -> [u8; 20] {
    Sha1::digest(bytes).into()
}

fn extra_of(pairs: Vec<(&str, BenObject)>) -> Dict {
    Dict::from_pairs(
        pairs.into_iter().map(|(k, v)| (k.as_bytes().to_vec(), v)).collect(),
    )
}

#[test]
fn info_hash_is_the_sha1_of_info_in_the_source() {
    let info = dict(single_file_info()).bencode().unwrap();
    let parsed = TorrentFile::parse(&info_with(single_file_info())).unwrap();
    assert_eq!(parsed.info.marshal().unwrap(), info);
    assert_eq!(parsed.info.hash_bytes().unwrap(), sha1_of(&info));
}

#[test]
fn info_hash_counts_keys_that_have_no_field() {
    let plain = TorrentFile::parse(&info_with(single_file_info())).unwrap();
    let with_key = with(
        with(single_file_info(), "source", BenObject::from("elsewhere")),
        "x-list",
        BenObject::List(vec![BenObject::from(1), dict(vec![("k", BenObject::from("v"))])]),
    );
    let info = dict(with_key.clone()).bencode().unwrap();
    let parsed = TorrentFile::parse(&info_with(with_key)).unwrap();
    assert_ne!(
        parsed.info.hash_bytes().unwrap(),
        plain.info.hash_bytes().unwrap()
    );
    assert_eq!(parsed.info.marshal().unwrap(), info);
    assert_eq!(parsed.info.hash_bytes().unwrap(), sha1_of(&info));
    match &parsed.info {
        Info::SingleFile(single) => {
            assert_eq!(single.name, b"startdusk".to_vec());
            assert_eq!(
                single.extra,
                extra_of(vec![
                    ("source", BenObject::from("elsewhere")),
                    (
                        "x-list",
                        BenObject::List(vec![
                            BenObject::from(1),
                            dict(vec![("k", BenObject::from("v"))])
                        ])
                    ),
                ])
            );
        }
        _ => panic!("not a single file torrent"),
    }
    match &plain.info {
        Info::SingleFile(single) => assert_eq!(single.extra, Dict::new()),
        _ => panic!("not a single file torrent"),
    }
}

#[test]
fn info_hash_counts_what_else_stands_beside_files_and_in_them() {
    let files = BenObject::List(vec![
        dict(vec![
            ("attr", BenObject::from("x")),
            ("length", BenObject::from(9)),
            ("path", list(vec!["d", "f"])),
            ("sha1", BenObject::String(vec![0xaa; 20])),
        ]),
        dict(vec![("length", BenObject::from(1)), ("path", list(vec!["g"]))]),
    ]);
    let pairs = with(
        with(single_file_info(), "files", files),
        "md5sum",
        BenObject::from(7),
    );
    let info = dict(pairs.clone()).bencode().unwrap();
    let parsed = TorrentFile::parse(&info_with(pairs)).unwrap();
    assert_eq!(parsed.info.marshal().unwrap(), info);
    assert_eq!(parsed.info.hash_bytes().unwrap(), sha1_of(&info));
    match parsed.info {
        Info::MultipleFile(multiple) => {
            assert_eq!(
                multiple.extra,
                extra_of(vec![("length", BenObject::from(2)), ("md5sum", BenObject::from(7))])
            );
            assert_eq!(
                multiple.files,
                vec![
                    File {
                        length: 9,
                        md5sum: None,
                        path: path(&["d", "f"]),
                        extra: extra_of(vec![
                            ("attr", BenObject::from("x")),
                            ("sha1", BenObject::String(vec![0xaa; 20])),
                        ]),
                    },
                    File { length: 1, md5sum: None, path: path(&["g"]), extra: Dict::new() },
                ]
            );
        }
        _ => panic!("not a multiple file torrent"),
    }
}

#[test]
fn info_hash_of_a_source_with_unsorted_keys_is_that_of_its_canonical_form() {
    let unsorted = b"d4:infod6:pieces0:4:name1:n6:lengthi1e12:piece lengthi4e1:zi0ee8:announce1:ae";
    let sorted = b"d6:lengthi1e4:name1:n12:piece lengthi4e6:pieces0:1:zi0ee";
    let parsed = TorrentFile::parse(unsorted).unwrap();
    assert_eq!(parsed.info.marshal().unwrap(), sorted.to_vec());
    assert_eq!(parsed.info.hash_bytes().unwrap(), sha1_of(sorted));
}

#[test]
fn names_keep_bytes_that_are_no_utf8() {
    let raw = vec![0xff, 0xfe, b'.', b'i', b's', b'o'];
    let pairs = with(single_file_info(), "name", BenObject::String(raw.clone()));
    let info = dict(pairs.clone()).bencode().unwrap();
    let parsed = TorrentFile::parse(&info_with(pairs)).unwrap();
    assert_eq!(parsed.info.name_text(), None);
    assert_eq!(parsed.info.hash_bytes().unwrap(), sha1_of(&info));
    match parsed.info {
        Info::SingleFile(single) => assert_eq!(single.name, raw),
        _ => panic!("not a single file torrent"),
    }
    let plain = TorrentFile::parse(&info_with(single_file_info())).unwrap();
    assert_eq!(plain.info.name_text(), Some("startdusk".to_owned()));

    let files = BenObject::List(vec![dict(vec![
        ("length", BenObject::from(1)),
        ("md5sum", BenObject::String(vec![0x80])),
        ("path", BenObject::List(vec![BenObject::String(vec![0xc3, 0x28])])),
    ])]);
    let parsed = TorrentFile::parse(&info_with(with(single_file_info(), "files", files))).unwrap();
    match parsed.info {
        Info::MultipleFile(multiple) => {
            assert_eq!(multiple.files[0].md5sum, Some(vec![0x80]));
            assert_eq!(multiple.files[0].path, vec![vec![0xc3, 0x28]]);
            assert_eq!(multiple.extra, extra_of(vec![("length", BenObject::from(2))]));
        }
        _ => panic!("not a multiple file torrent"),
    }
}

#[test]
fn fields_win_over_what_else_info_held() {
    let info = Info::SingleFile(SingleFile {
        piece_length: 4,
        pieces: vec![],
        private: None,
        name: b"n".to_vec(),
        length: 1,
        md5sum: None,
        extra: extra_of(vec![("name", BenObject::from("other")), ("z", BenObject::from(0))]),
    });
    assert_eq!(
        info.marshal().unwrap(),
        b"d6:lengthi1e4:name1:n12:piece lengthi4e6:pieces0:1:zi0ee".to_vec()
    );
}
