use cbt::bencode::{BenObject, Dict};

fn pairs(items: Vec<(&str, BenObject)>) -> Dict {
    Dict::from_pairs(
        items.into_iter().map(|(k, v)| (k.as_bytes().to_vec(), v)).collect(),
    )
}

#[test]
fn macros_test_u8_to_int() {
    assert_eq!(BenObject::from(0_u8), BenObject::Int(0))
}

#[test]
fn macros_test_u16_to_int() {
    assert_eq!(BenObject::from(0_u16), BenObject::Int(0))
}

#[test]
fn macros_test_u32_to_int() {
    assert_eq!(BenObject::from(0_u32), BenObject::Int(0))
}

#[test]
fn macros_test_i8_to_int() {
    assert_eq!(BenObject::from(0_i8), BenObject::Int(0))
}

#[test]
fn macros_test_i16_to_int() {
    assert_eq!(BenObject::from(0_i16), BenObject::Int(0))
}

#[test]
fn macros_test_i32_to_int() {
    assert_eq!(BenObject::from(0_i32), BenObject::Int(0))
}

#[test]
fn macros_test_i64_to_int() {
    assert_eq!(BenObject::from(0_i64), BenObject::Int(0))
}

#[test]
fn macros_test_str_ref_to_int() {
    assert_eq!(BenObject::from(""), BenObject::String("".as_bytes().to_vec()))
}

#[test]
fn macros_test_string_to_int() {
    let string = "".to_owned();
    assert_eq!(BenObject::from(string), BenObject::String("".as_bytes().to_vec()))
}

#[test]
fn macros_test_list() {
    assert_eq!(
        BenObject::List(vec![
            BenObject::from(0x01),
            BenObject::from("0x02"),
            BenObject::List(vec![BenObject::from(0x03)]),
        ]),
        BenObject::List(vec![
            BenObject::Int(0x01),
            BenObject::String("0x02".as_bytes().to_vec()),
            BenObject::List(vec![BenObject::Int(0x03)]),
        ])
    )
}

#[test]
fn macros_test_list_empty() {
    assert_eq!(BenObject::List(vec![]), BenObject::List(vec![]))
}

#[test]
fn macros_test_dict() {
    let mut cow = Dict::new();
    cow.insert("b00".as_bytes().to_vec(), BenObject::Int(6));
    cow.insert("moo".as_bytes().to_vec(), BenObject::Int(4_i64));
    let mut expected = Dict::new();
    expected.insert("spam".as_bytes().to_vec(), BenObject::String("eggs".as_bytes().to_vec()));
    expected.insert("cow".as_bytes().to_vec(), BenObject::Dict(cow));
    assert_eq!(
        BenObject::Dict(pairs(vec![
            (
                "cow",
                BenObject::Dict(pairs(vec![
                    ("moo", BenObject::from(4)),
                    ("b00", BenObject::from(6)),
                ])),
            ),
            ("spam", BenObject::from("eggs")),
        ])),
        BenObject::Dict(expected)
    )
}

#[test]
fn macros_test_dict_empty() {
    assert_eq!(BenObject::Dict(pairs(vec![])), BenObject::Dict(Dict::new()))
}

#[test]
fn marcos_test_u8_to_int() {
    assert_eq!(BenObject::from(0_u8), BenObject::Int(0))
}

#[test]
fn marcos_test_u16_to_int() {
    assert_eq!(BenObject::from(0_u16), BenObject::Int(0))
}

#[test]
fn marcos_test_u32_to_int() {
    assert_eq!(BenObject::from(0_u32), BenObject::Int(0))
}

#[test]
fn marcos_test_i8_to_int() {
    assert_eq!(BenObject::from(0_i8), BenObject::Int(0))
}

#[test]
fn marcos_test_i16_to_int() {
    assert_eq!(BenObject::from(0_i16), BenObject::Int(0))
}

#[test]
fn marcos_test_i32_to_int() {
    assert_eq!(BenObject::from(0_i32), BenObject::Int(0))
}

#[test]
fn marcos_test_i64_to_int() {
    assert_eq!(BenObject::from(0_i64), BenObject::Int(0))
}

#[test]
fn marcos_test_str_ref_to_int() {
    assert_eq!(BenObject::from(""), BenObject::String("".as_bytes().to_vec()))
}

#[test]
fn marcos_test_string_to_int() {
    let string = "".to_owned();
    assert_eq!(BenObject::from(string), BenObject::String("".as_bytes().to_vec()))
}

#[test]
fn marcos_test_list() {
    assert_eq!(
        BenObject::List(vec![
            BenObject::from(0x01),
            BenObject::from("0x02"),
            BenObject::List(vec![BenObject::from(0x03)]),
        ]),
        BenObject::List(vec![
            BenObject::Int(0x01),
            BenObject::String("0x02".as_bytes().to_vec()),
            BenObject::List(vec![BenObject::Int(0x03)]),
        ])
    )
}

#[test]
fn marcos_test_list_empty() {
    assert_eq!(BenObject::List(vec![]), BenObject::List(vec![]))
}

#[test]
fn marcos_test_dict() {
    let mut cow = Dict::new();
    cow.insert("moo".as_bytes().to_vec(), BenObject::Int(4_i64));
    let mut expected = Dict::new();
    expected.insert("cow".as_bytes().to_vec(), BenObject::Dict(cow));
    expected.insert("spam".as_bytes().to_vec(), BenObject::String("eggs".as_bytes().to_vec()));
    assert_eq!(
        BenObject::Dict(pairs(vec![
            ("cow", BenObject::Dict(pairs(vec![("moo", BenObject::from(4))]))),
            ("spam", BenObject::from("eggs")),
        ])),
        BenObject::Dict(expected)
    )
}

#[test]
fn marcos_test_dict_empty() {
    assert_eq!(BenObject::Dict(pairs(vec![])), BenObject::Dict(Dict::new()))
}

#[test]
fn from_text_keeps_the_bytes_of_utf8() {
    assert_eq!(
        BenObject::from("h\u{e9}"),
        BenObject::String(vec![b'h', 0xc3, 0xa9])
    );
    assert_eq!(BenObject::from(-7_i8), BenObject::Int(-7));
    assert_eq!(BenObject::from(u32::MAX), BenObject::Int(4294967295));
}
