use cbt::bencode::decode::{read_decimal, read_int, read_string};
use cbt::bencode::{BenObject, BencodeError, ByteBuffer, Dict};

fn text(s: &str) -> BenObject {
    BenObject::String(s.as_bytes().to_vec())
}

fn dict(pairs: Vec<(&str, BenObject)>) -> Dict {
    Dict::from_pairs(
        pairs.into_iter().map(|(k, v)| (k.as_bytes().to_vec(), v)).collect(),
    )
}

fn decode(bytes: &[u8]) -> Result<BenObject, BencodeError> {
    BenObject::from_bytes(bytes)
}

#[test]
fn test_read_string() {
    let cases = [("4:spam", "spam"), ("2:to", "to"), ("0:", "")];
    for cc in cases {
        let mut buf = ByteBuffer::new(cc.0.as_bytes());
        let obj = read_string(&mut buf).unwrap();
        if let BenObject::String(string) = obj {
            assert_eq!(string, cc.1.as_bytes().to_vec());
        } else {
            panic!("expect bencode string!!!")
        }
    }
}

#[test]
fn test_read_int() {
    let cases = [("i999e", 999), ("i0e", 0), ("i-99e", -99)];
    for cc in cases {
        let mut buf = ByteBuffer::new(cc.0.as_bytes());
        let obj = read_int(&mut buf).unwrap();
        assert_eq!(buf.pos(), cc.0.len());
        if let BenObject::Int(num) = obj {
            assert_eq!(num, cc.1);
        } else {
            panic!("expect bencode int!!!")
        }
    }
}

#[test]
fn test_parse_list() {
    let source = "li123e6:archeri789ee";
    let mut buf = ByteBuffer::new(source.as_bytes());
    match BenObject::parse(&mut buf).unwrap() {
        BenObject::List(ref list) => {
            assert_eq!(list.len(), 3);
            match &list[0] {
                BenObject::Int(num) => {
                    assert_eq!(*num, 123)
                }
                _ => panic!("expect list index 0 int"),
            };
            match &list[1] {
                BenObject::String(string) => {
                    assert_eq!(string, &"archer".as_bytes().to_vec())
                }
                _ => panic!("expect list index 1 string"),
            }
            match &list[2] {
                BenObject::Int(num) => {
                    assert_eq!(*num, 789)
                }
                _ => panic!("expect list index 1 string"),
            }
        }
        _ => panic!("expect bencode list"),
    }
}

#[test]
fn test_parse_simple_dict() {
    let source = "d4:name3:ben3:agei29ee";
    let mut buf = ByteBuffer::new(source.as_bytes());
    match BenObject::parse(&mut buf).unwrap() {
        BenObject::Dict(ref dict) => {
            assert_eq!(dict.len(), 2);
            match dict.get(b"name").unwrap() {
                BenObject::String(string) => {
                    assert_eq!(string, &"ben".as_bytes().to_vec())
                }
                _ => panic!("expect dict key `name`"),
            };
            match dict.get(b"age").unwrap() {
                BenObject::Int(num) => {
                    assert_eq!(*num, 29)
                }
                _ => panic!("expect dict key `age`"),
            };
        }
        _ => panic!("expect bencode dict"),
    }
}

#[test]
fn test_parse_complex_dict() {
    let source = "d4:userd4:name3:ben3:agei29ee5:valueli80ei85ei90eee";
    // { "user": { "name": "ben", "age": 29 }, "value": [80, 85, 90] }
    let mut buf = ByteBuffer::new(source.as_bytes());
    let user_val = dict(vec![("name", text("ben")), ("age", BenObject::Int(29))]);
    match BenObject::parse(&mut buf).unwrap() {
        BenObject::Dict(ref dict) => {
            assert_eq!(dict.len(), 2);
            match dict.get(b"user").unwrap() {
                BenObject::Dict(dict) => {
                    assert_eq!(dict, &user_val)
                }
                _ => panic!("expect dict key `user`"),
            };
            match dict.get(b"value").unwrap() {
                BenObject::List(list) => {
                    assert_eq!(
                        list,
                        &[BenObject::Int(80), BenObject::Int(85), BenObject::Int(90)]
                    )
                }
                _ => panic!("expect dict value `age`"),
            };
        }
        _ => panic!("expect bencode dict"),
    }
    assert_eq!(buf.pos(), source.len());
}

#[test]
fn integer_edge_cases() {
    assert_eq!(decode(b"i0e"), Ok(BenObject::Int(0)));
    assert_eq!(decode(b"i-0e"), Err(BencodeError::Invalid));
    assert_eq!(decode(b"i00e"), Err(BencodeError::Invalid));
    assert_eq!(decode(b"i03e"), Err(BencodeError::Invalid));
    assert_eq!(decode(b"ie"), Err(BencodeError::ExpectNumberError(0, 0)));
    assert_eq!(decode(b"i-e"), Err(BencodeError::ExpectNumberError(0, 1)));
    assert_eq!(
        decode(b"i9223372036854775807e"),
        Ok(BenObject::Int(9223372036854775807))
    );
    assert_eq!(
        decode(b"i-9223372036854775808e"),
        Ok(BenObject::Int(-9223372036854775808))
    );
}

#[test]
fn integers_that_do_not_fit_are_invalid() {
    assert_eq!(decode(b"i9223372036854775808e"), Err(BencodeError::Invalid));
    assert_eq!(decode(b"i-9223372036854775809e"), Err(BencodeError::Invalid));
    assert_eq!(
        decode(b"i123456789012345678901234567890e"),
        Err(BencodeError::Invalid)
    );
    assert_eq!(decode(b"i-03e"), Err(BencodeError::Invalid));
}

#[test]
fn integers_that_do_not_end() {
    assert_eq!(decode(b"i12"), Err(BencodeError::EOF));
    assert_eq!(decode(b"i"), Err(BencodeError::EOF));
    assert_eq!(decode(b"i-"), Err(BencodeError::EOF));
    assert_eq!(decode(b"i03"), Err(BencodeError::EOF));
    assert_eq!(decode(b"i12x"), Err(BencodeError::ExpectCharEError));
    assert_eq!(decode(b"i1-2e"), Err(BencodeError::ExpectCharEError));
    assert_eq!(decode(b"ixe"), Err(BencodeError::ExpectNumberError(0, 0)));
}

#[test]
fn string_edge_cases() {
    assert_eq!(decode(b"0:"), Ok(BenObject::String(vec![])));
    assert_eq!(decode(b"01:a"), Err(BencodeError::Invalid));
    assert_eq!(decode(b"00:"), Err(BencodeError::Invalid));
    assert_eq!(decode(b"5:spam"), Err(BencodeError::EOF));
    assert_eq!(decode(b"4:"), Err(BencodeError::EOF));
    assert_eq!(decode(b"4"), Err(BencodeError::EOF));
    assert_eq!(decode(b"4spam"), Err(BencodeError::ExpectColonError));
    assert_eq!(decode(b"9223372036854775808:"), Err(BencodeError::Invalid));
    assert_eq!(decode(b"9223372036854775807:a"), Err(BencodeError::EOF));
}

#[test]
fn strings_keep_raw_bytes() {
    assert_eq!(
        decode(&[b'3', b':', 0x00, 0xff, 0x80]),
        Ok(BenObject::String(vec![0x00, 0xff, 0x80]))
    );
    assert_eq!(decode(b"3:i0e"), Ok(BenObject::String(b"i0e".to_vec())));
}

#[test]
fn read_string_asks_for_a_length_without_sign() {
    let mut buf = ByteBuffer::new(b"-5:hello");
    assert_eq!(
        read_string(&mut buf),
        Err(BencodeError::ExpectNumberError(-5, 2))
    );
    let mut buf = ByteBuffer::new(b"x");
    assert_eq!(
        read_string(&mut buf),
        Err(BencodeError::ExpectNumberError(0, 0))
    );
    let mut buf = ByteBuffer::new(b"");
    assert_eq!(read_string(&mut buf), Err(BencodeError::EOF));
}

#[test]
fn read_int_asks_for_the_prefix() {
    let mut buf = ByteBuffer::new(b"12e");
    assert_eq!(read_int(&mut buf), Err(BencodeError::ExpectCharIError));
    let mut buf = ByteBuffer::new(b"");
    assert_eq!(read_int(&mut buf), Err(BencodeError::EOF));
}

#[test]
fn read_decimal_leaves_the_end_unread() {
    let mut buf = ByteBuffer::new(b"-120:");
    assert_eq!(read_decimal(&mut buf), Ok((-120, 4)));
    assert_eq!(buf.pos(), 4);
    assert_eq!(buf.peek(), Some(&b':'));
    let mut buf = ByteBuffer::new(b"0e");
    assert_eq!(read_decimal(&mut buf), Ok((0, 1)));
    assert_eq!(buf.pos(), 1);
}

#[test]
fn values_with_an_invalid_prefix() {
    assert_eq!(decode(b""), Err(BencodeError::EOF));
    assert_eq!(decode(b"x"), Err(BencodeError::Invalid));
    assert_eq!(decode(b"e"), Err(BencodeError::Invalid));
    assert_eq!(decode(b"-1:a"), Err(BencodeError::Invalid));
    assert_eq!(decode(b"lxe"), Err(BencodeError::Invalid));
    assert_eq!(decode(b"d1:axe"), Err(BencodeError::Invalid));
}

#[test]
fn containers_that_do_not_end() {
    assert_eq!(decode(b"l"), Err(BencodeError::EOF));
    assert_eq!(decode(b"li1e"), Err(BencodeError::EOF));
    assert_eq!(decode(b"d"), Err(BencodeError::EOF));
    assert_eq!(decode(b"d1:a"), Err(BencodeError::EOF));
    assert_eq!(decode(b"d1:ai1e"), Err(BencodeError::EOF));
    assert_eq!(decode(b"lll"), Err(BencodeError::EOF));
}

#[test]
fn dict_keys_are_strings_and_unique() {
    assert_eq!(decode(b"di1ei2ee"), Err(BencodeError::ExpectStringError));
    assert_eq!(decode(b"dlei2ee"), Err(BencodeError::ExpectStringError));
    assert_eq!(decode(b"d1:ai1e1:ai2ee"), Err(BencodeError::DuplicateKey));
    assert_eq!(decode(b"d1:ai1e1:bi2e1:ai3ee"), Err(BencodeError::DuplicateKey));
    assert_eq!(decode(b"d1:a"), Err(BencodeError::EOF));
    assert_eq!(decode(b"d01:ai1ee"), Err(BencodeError::Invalid));
}

#[test]
fn dict_keys_may_come_in_any_order() {
    let sorted = decode(b"d1:ai1e1:bi2e1:ci3ee").unwrap();
    let unsorted = decode(b"d1:ci3e1:ai1e1:bi2ee").unwrap();
    assert_eq!(sorted, unsorted);
    assert_eq!(unsorted.bencode().unwrap(), b"d1:ai1e1:bi2e1:ci3ee".to_vec());
}

#[test]
fn empty_containers_decode() {
    assert_eq!(decode(b"le"), Ok(BenObject::List(vec![])));
    assert_eq!(decode(b"de"), Ok(BenObject::Dict(Dict::new())));
    assert_eq!(
        decode(b"llelee"),
        Ok(BenObject::List(vec![
            BenObject::List(vec![]),
            BenObject::List(vec![])
        ]))
    );
}

#[test]
fn bytes_behind_the_value_are_not_read() {
    assert_eq!(decode(b"i1egarbage"), Ok(BenObject::Int(1)));
    let mut buf = ByteBuffer::new(b"4:spami7e");
    assert_eq!(BenObject::parse(&mut buf), Ok(text("spam")));
    assert_eq!(buf.pos(), 6);
    assert_eq!(BenObject::parse(&mut buf), Ok(BenObject::Int(7)));
    assert_eq!(buf.pos(), 9);
    assert_eq!(BenObject::parse(&mut buf), Err(BencodeError::EOF));
}

fn corpus() -> Vec<BenObject> {
    let mut values = vec![
        BenObject::Int(0),
        BenObject::Int(-1),
        BenObject::Int(i64::MAX),
        BenObject::Int(i64::MIN),
        BenObject::String(vec![]),
        text("spam"),
        BenObject::String((0..=255).collect()),
        BenObject::List(vec![]),
        BenObject::Dict(Dict::new()),
    ];
    let nested = BenObject::List(vec![
        BenObject::Int(1),
        text("e"),
        BenObject::List(vec![text("i1e"), BenObject::Int(-5)]),
        BenObject::Dict(dict(vec![
            ("z", BenObject::Int(26)),
            ("a", BenObject::List(vec![])),
            ("", text("empty key")),
            ("aa", BenObject::Dict(dict(vec![("k", text("v"))]))),
        ])),
    ]);
    values.push(nested);
    let mut deep = BenObject::Int(7);
    for depth in 0..6 {
        deep = if depth % 2 == 0 {
            BenObject::List(vec![deep, BenObject::Int(depth)])
        } else {
            BenObject::Dict(dict(vec![("inner", deep), ("depth", BenObject::Int(depth))]))
        };
        values.push(BenObject::List(vec![text("copy"), decode(&deep.bencode().unwrap()).unwrap()]));
    }
    values.push(deep);
    values
}

#[test]
fn decode_undoes_encode() {
    for value in corpus() {
        let bytes = value.bencode().unwrap();
        let back = decode(&bytes).unwrap();
        assert_eq!(back, value);
        assert_eq!(back.bencode().unwrap(), bytes);
        let mut buf = ByteBuffer::new(&bytes);
        assert_eq!(BenObject::parse(&mut buf), Ok(value));
        assert_eq!(buf.pos(), bytes.len());
    }
}

#[test]
fn decode_complex_value() {
    let expected = BenObject::Dict(dict(vec![
        (
            "user",
            BenObject::Dict(dict(vec![("name", text("ben")), ("age", BenObject::Int(29))])),
        ),
        (
            "value",
            BenObject::List(vec![BenObject::Int(80), BenObject::Int(85), BenObject::Int(90)]),
        ),
    ]));
    assert_eq!(
        decode(b"d4:userd4:name3:ben3:agei29ee5:valueli80ei85ei90eee"),
        Ok(expected)
    );
}
