use etf_codec::codec_common::DecodeError;
use etf_codec::decoder::Decoder;
use etf_codec::encoder::Encoder;
use etf_codec::string_convert::Convert;
use etf_codec::terms::{
    Atom, BigInteger, BitBinary, Binary, ByteList, FixInteger, List, MapTerm, Pid, Term, Tuple,
};

fn decode(bytes: Vec<u8>) -> Result<Term, DecodeError> {
    Decoder::new(bytes).decode()
}

fn encode(term: &Term) -> Vec<u8> {
    let mut enc = Encoder::new();
    enc.encode(term).unwrap();
    enc.into_bytes()
}

fn atom(name: &str) -> Atom {
    Atom { name: name.to_string() }
}

#[test]
fn str_should_convert_to_atom() {
    let a = "hello".to_atom();
    assert_eq!(Atom { name: "hello".to_string() }, a);
}

#[test]
fn str_should_convert_to_byte_list() {
    let a = "hello".to_byte_list();
    assert_eq!(ByteList { bytes: b"hello".to_vec() }, a);
}

#[test]
fn string_should_convert_to_atom() {
    let a = "hello".to_atom();
    assert_eq!(a.name, "hello");
}

#[test]
fn string_should_convert_to_byte_list() {
    let a = "hello".to_byte_list();
    assert_eq!(ByteList { bytes: b"hello".to_vec() }, a);
}

#[test]
fn decode_empty() {
    let input = vec![];
    assert!(decode(input).is_err());
}

#[test]
fn decode_small_integer() {
    let input = vec![131, 97, 5];
    let expected = 5;
    assert_eq!(decode(input).unwrap(), Term::FixInteger(FixInteger { value: expected }));
}

#[test]
fn decode_integer() {
    let input = vec![131, 98, 0, 0, 4, 210];
    let expected = 1234;
    assert_eq!(decode(input).unwrap(), Term::FixInteger(FixInteger { value: expected }));

    let input = vec![131, 98, 255, 255, 251, 46];
    let expected = -1234;
    assert_eq!(decode(input).unwrap(), Term::FixInteger(FixInteger { value: expected }));
}

#[test]
fn decode_atom() {
    let input = vec![131, 100, 0, 4, 104, 111, 103, 101];
    assert_eq!(decode(input).unwrap(), Term::Atom(atom("hoge")));
}

#[test]
fn decode_small_atom() {
    let input = vec![131, 115, 4, 104, 111, 103, 101];
    assert_eq!(decode(input).unwrap(), Term::Atom(atom("hoge")));
}

#[test]
fn decode_atom_utf8() {
    let input = vec![131, 118, 0, 4, 104, 111, 103, 101];
    assert_eq!(decode(input).unwrap(), Term::Atom(atom("hoge")));
}

#[test]
fn decode_small_atom_utf8() {
    let input = vec![131, 119, 4, 104, 111, 103, 101];
    assert_eq!(decode(input).unwrap(), Term::Atom(atom("hoge")));
}

#[test]
fn decode_small_tuple() {
    let input = vec![131, 104, 2, 97, 1, 100, 0, 3, 111, 110, 101];
    let expected = vec![
        Term::FixInteger(FixInteger { value: 1 }),
        Term::Atom(atom("one")),
    ];
    assert_eq!(decode(input).unwrap(), Term::Tuple(Tuple { elements: expected }));
}

#[test]
fn decode_large_tuple() {
    let input = vec![131, 105, 0, 0, 0, 2, 97, 1, 100, 0, 3, 111, 110, 101];
    let expected = vec![
        Term::FixInteger(FixInteger { value: 1 }),
        Term::Atom(atom("one")),
    ];
    assert_eq!(decode(input).unwrap(), Term::Tuple(Tuple { elements: expected }));
}

#[test]
fn decode_nil() {
    let input = vec![131, 106];
    assert_eq!(decode(input).unwrap(), Term::List(List { elements: vec![] }));
}

#[test]
fn decode_binary() {
    let input = vec![131, 109, 0, 0, 0, 4, 104, 111, 103, 101];
    let expected = vec![104, 111, 103, 101];
    assert_eq!(decode(input).unwrap(), Term::Binary(Binary { bytes: expected }));
}

#[test]
fn empty_list_decodes_from_both_forms_and_encodes_as_nil() {
    let nil = decode(vec![131, 106]).unwrap();
    let zero_count = decode(vec![131, 108, 0, 0, 0, 0, 106]).unwrap();
    assert_eq!(nil, zero_count);
    assert_eq!(nil, Term::List(List { elements: vec![] }));
    assert_eq!(encode(&Term::List(List { elements: vec![] })), vec![131, 106]);
}

#[test]
fn byte_range_list_uses_compact_string_tag() {
    let list = Term::List(List {
        elements: vec![
            Term::FixInteger(FixInteger { value: 0 }),
            Term::FixInteger(FixInteger { value: 255 }),
            Term::FixInteger(FixInteger { value: 7 }),
        ],
    });
    let bytes = encode(&list);
    assert_eq!(bytes, vec![131, 107, 0, 3, 0, 255, 7]);
    assert_eq!(
        decode(bytes).unwrap(),
        Term::ByteList(ByteList { bytes: vec![0, 255, 7] })
    );
}

#[test]
fn fix_integer_boundary_forms() {
    assert_eq!(encode(&Term::FixInteger(FixInteger { value: 255 })), vec![131, 97, 255]);
    assert_eq!(
        encode(&Term::FixInteger(FixInteger { value: 256 })),
        vec![131, 98, 0, 0, 1, 0]
    );
    assert_eq!(
        encode(&Term::FixInteger(FixInteger { value: -1 })),
        vec![131, 98, 255, 255, 255, 255]
    );
}

#[test]
fn bit_binary_padding_round_trips() {
    let input = vec![131, 77, 0, 0, 0, 1, 4, 0b1111_0000];
    let decoded = decode(input.clone()).unwrap();
    assert_eq!(
        decoded,
        Term::BitBinary(BitBinary { bytes: vec![0b0000_1111], tail_bits_size: 4 })
    );
    assert_eq!(encode(&decoded), input);
}

#[test]
fn big_integer_sign_bytes() {
    let bad = decode(vec![131, 110, 1, 2, 5]);
    assert_eq!(bad.unwrap_err(), DecodeError::OutOfRange { value: 2, range: 0..1 });
    let positive = decode(vec![131, 110, 1, 0, 5]).unwrap();
    assert_eq!(
        positive,
        Term::BigInteger(BigInteger { negative: false, magnitude: vec![5] })
    );
    let negative = decode(vec![131, 110, 1, 1, 5]).unwrap();
    assert_eq!(
        negative,
        Term::BigInteger(BigInteger { negative: true, magnitude: vec![5] })
    );
}

#[test]
fn unknown_tag_is_reported_with_its_byte() {
    let r = decode(vec![131, 200, 1, 2, 3]);
    assert_eq!(r.unwrap_err(), DecodeError::UnknownTag { tag: 200 });
}

#[test]
fn unsupported_version_fails_before_term_bytes() {
    let r = decode(vec![130, 97, 5]);
    assert_eq!(r.unwrap_err(), DecodeError::UnsupportedVersion { version: 130 });
}

#[test]
fn compressed_payload_is_rejected_as_unimplemented() {
    let r = decode(vec![131, 80, 0, 0, 0, 4]);
    assert_eq!(r.unwrap_err(), DecodeError::UnimplementedTag { tag: 80 });
}

#[test]
fn end_to_end_examples() {
    assert_eq!(
        decode(vec![131, 97, 5]).unwrap(),
        Term::FixInteger(FixInteger { value: 5 })
    );
    assert_eq!(
        decode(vec![131, 100, 0, 4, 104, 111, 103, 101]).unwrap(),
        Term::Atom(atom("hoge"))
    );
    assert_eq!(decode(vec![131, 106]).unwrap(), Term::List(List { elements: vec![] }));
    assert_eq!(
        decode(vec![131, 104, 2, 97, 1, 100, 0, 3, 111, 110, 101]).unwrap(),
        Term::Tuple(Tuple {
            elements: vec![
                Term::FixInteger(FixInteger { value: 1 }),
                Term::Atom(atom("one")),
            ],
        })
    );
}

#[test]
fn structured_terms_round_trip() {
    let pid = Pid { node: atom("node@host"), id: 7, serial: 3, creation: 11 };
    let terms = vec![
        Term::Atom(atom("hello")),
        Term::Atom(atom("héllo")),
        Term::FixInteger(FixInteger { value: -77 }),
        Term::BigInteger(BigInteger { negative: true, magnitude: vec![1, 2, 3] }),
        Term::BigInteger(BigInteger { negative: false, magnitude: vec![] }),
        Term::Pid(pid),
        Term::Binary(Binary { bytes: vec![9, 8, 7] }),
        Term::ByteList(ByteList { bytes: vec![1, 2, 3] }),
    ];
    for t in terms {
        let decoded = decode(encode(&t)).unwrap();
        assert_eq!(decoded, t);
    }
}

#[test]
fn map_keeps_last_duplicate_key() {
    // key 1 appears twice; the later value overwrites the earlier one
    let input = vec![131, 116, 0, 0, 0, 2, 97, 1, 97, 10, 97, 1, 97, 20];
    let decoded = decode(input).unwrap();
    assert_eq!(
        decoded,
        Term::MapTerm(MapTerm {
            entries: vec![(
                Term::FixInteger(FixInteger { value: 1 }),
                Term::FixInteger(FixInteger { value: 20 }),
            )],
        })
    );
}

#[test]
fn legacy_float_text_is_rejected_as_unimplemented() {
    let mut input = vec![131, 99];
    input.extend(vec![0u8; 31]);
    assert_eq!(decode(input).unwrap_err(), DecodeError::UnimplementedTag { tag: 99 });
}

#[test]
fn new_float_rejects_non_finite_bits() {
    // exponent bits all ones: an infinity
    let input = vec![131, 70, 0x7f, 0xf0, 0, 0, 0, 0, 0, 0];
    assert_eq!(decode(input).unwrap_err(), DecodeError::NonFiniteFloat);
}

#[test]
fn too_long_atom_name_is_an_encode_error() {
    let long = "a".repeat(70000);
    let mut enc = Encoder::new();
    let r = enc.encode(&Term::Atom(Atom { name: long }));
    assert!(matches!(
        r.unwrap_err(),
        etf_codec::codec_common::EncodeError::TooLongAtomName(_)
    ));
}
