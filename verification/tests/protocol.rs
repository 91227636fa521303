//! The core protocol: scalar decodes, widening, seeded decode, discard,
//! the streaming fold, and the custom map type.

use destream::decode::Decode;
use destream::decoder::Decoder;
use destream::decode::DecodeSeed;
use destream::mymap::MyMap;
use destream::nth::NthElement;
use destream::repr::SmallPrime;
use destream::stream_max::{deserialize_max, Outer};
use destream::token::{DecodeError, Shape, Token};

fn text(s: &str) -> Token {
    Token::Str(s.to_string())
}

#[test]
fn bool_round() {
    let mut d = Decoder::new(vec![Token::Bool(true)]);
    assert_eq!(bool::decode(&mut d), Ok(true));
    assert!(d.at_eof());
}

#[test]
fn u64_mismatch_cites_found_shape() {
    let mut d = Decoder::new(vec![Token::Bool(true)]);
    match u64::decode(&mut d) {
        Err(DecodeError::ShapeMismatch { found, .. }) => assert_eq!(found, Shape::Bool),
        other => panic!("expected a shape mismatch, got {:?}", other),
    }
}

#[test]
fn u64_eof_mismatch() {
    let mut d = Decoder::new(vec![]);
    match u64::decode(&mut d) {
        Err(DecodeError::ShapeMismatch { found, .. }) => assert_eq!(found, Shape::Eof),
        other => panic!("expected a shape mismatch, got {:?}", other),
    }
}

#[test]
fn i32_widens_minimum() {
    let mut d = Decoder::new(vec![Token::Int(-2147483648)]);
    assert_eq!(i32::decode(&mut d), Ok(-2147483648));
}

#[test]
fn i32_rejects_one_below_minimum() {
    let mut d = Decoder::new(vec![Token::Int(-2147483649)]);
    assert_eq!(
        i32::decode(&mut d),
        Err(DecodeError::RangeError { value: -2147483649 })
    );
}

#[test]
fn i32_widens_narrow_value() {
    let mut d = Decoder::new(vec![Token::Int(-5)]);
    assert_eq!(i32::decode(&mut d), Ok(-5));
}

#[test]
fn u64_rejects_negative_with_value() {
    let mut d = Decoder::new(vec![Token::Int(-1)]);
    assert_eq!(u64::decode(&mut d), Err(DecodeError::RangeError { value: -1 }));
}

#[test]
fn nth_element_picks_fourth() {
    let mut d = Decoder::new(vec![
        Token::SeqStart,
        Token::Int(10),
        Token::Int(20),
        Token::Int(30),
        Token::Int(40),
        Token::Int(50),
        Token::SeqEnd,
    ]);
    let nth: Result<i64, _> = NthElement::new(3).consume(&mut d);
    assert_eq!(nth, Ok(40));
    assert!(d.at_eof());
}

#[test]
fn nth_element_too_far_is_invalid_length() {
    let mut d = Decoder::new(vec![
        Token::SeqStart,
        Token::Int(10),
        Token::Int(20),
        Token::Int(30),
        Token::Int(40),
        Token::Int(50),
        Token::SeqEnd,
    ]);
    let nth: Result<i64, _> = NthElement::new(5).consume(&mut d);
    assert_eq!(nth, Err(DecodeError::InvalidLength { index: 5 }));
}

#[test]
fn nth_element_skips_nested_aggregates() {
    let mut d = Decoder::new(vec![
        Token::SeqStart,
        Token::Int(10),
        Token::MapStart,
        text("x"),
        Token::SeqStart,
        Token::Int(1),
        Token::Int(2),
        Token::SeqEnd,
        Token::MapEnd,
        Token::Int(30),
        Token::SeqEnd,
    ]);
    let nth: Result<i64, _> = NthElement::new(2).consume(&mut d);
    assert_eq!(nth, Ok(30));
    assert!(d.at_eof());
}

#[test]
fn nth_element_rejects_scalar_shape() {
    let mut d = Decoder::new(vec![Token::Int(7)]);
    let nth: Result<i64, _> = NthElement::new(0).consume(&mut d);
    assert!(matches!(nth, Err(DecodeError::ShapeMismatch { .. })));
}

#[test]
fn max_of_streamed_sequence() {
    let mut d = Decoder::new(vec![
        Token::SeqStart,
        Token::Int(256),
        Token::Int(100),
        Token::Int(384),
        Token::Int(314),
        Token::Int(271),
        Token::SeqEnd,
    ]);
    assert_eq!(deserialize_max(&mut d), Ok(384));
    assert!(d.at_eof());
}

#[test]
fn max_of_empty_sequence_is_custom_error() {
    let mut d = Decoder::new(vec![Token::SeqStart, Token::SeqEnd]);
    assert!(matches!(deserialize_max(&mut d), Err(DecodeError::Custom { .. })));
}

#[test]
fn outer_decodes_renamed_field_by_folding() {
    let mut d = Decoder::new(vec![
        Token::MapStart,
        text("id"),
        text("demo-deserialize-max"),
        text("values"),
        Token::SeqStart,
        Token::Int(256),
        Token::Int(100),
        Token::Int(384),
        Token::Int(314),
        Token::Int(271),
        Token::SeqEnd,
        Token::MapEnd,
    ]);
    let out = Outer::decode(&mut d).unwrap();
    assert_eq!(out.id, "demo-deserialize-max");
    assert_eq!(out.max_value, 384);
}

#[test]
fn outer_ignores_unknown_key() {
    let mut d = Decoder::new(vec![
        Token::MapStart,
        text("noise"),
        Token::Bool(false),
        text("id"),
        text("x"),
        text("values"),
        Token::SeqStart,
        Token::Int(9),
        Token::SeqEnd,
        Token::MapEnd,
    ]);
    let out = Outer::decode(&mut d).unwrap();
    assert_eq!(out.id, "x");
    assert_eq!(out.max_value, 9);
}

#[test]
fn mymap_collects_entries_in_order() {
    let mut d = Decoder::new(vec![
        Token::MapStart,
        text("a"),
        Token::Int(1),
        text("b"),
        Token::Int(2),
        Token::MapEnd,
    ]);
    let m: MyMap<String, i64> = MyMap::decode(&mut d).unwrap();
    assert_eq!(m.len(), 2);
    assert_eq!(m.items()[0], ("a".to_string(), 1));
    assert_eq!(m.items()[1], ("b".to_string(), 2));
}

#[test]
fn mymap_insert_appends() {
    let mut m: MyMap<String, i64> = MyMap::with_capacity(4);
    m.insert("k".to_string(), 7);
    assert_eq!(m.len(), 1);
    assert_eq!(m.items()[0], ("k".to_string(), 7));
}

#[test]
fn mymap_rejects_sequence_shape() {
    let mut d = Decoder::new(vec![Token::SeqStart, Token::SeqEnd]);
    let m: Result<MyMap<String, i64>, _> = MyMap::decode(&mut d);
    assert!(matches!(m, Err(DecodeError::ShapeMismatch { .. })));
}

#[test]
fn small_prime_decodes_from_number() {
    let mut d = Decoder::new(vec![Token::Int(2)]);
    assert_eq!(SmallPrime::decode(&mut d), Ok(SmallPrime::Two));
}

#[test]
fn small_prime_rejects_composite() {
    let mut d = Decoder::new(vec![Token::Int(4)]);
    assert!(matches!(SmallPrime::decode(&mut d), Err(DecodeError::Custom { .. })));
}

#[test]
fn small_prime_number_round_trip() {
    for p in [SmallPrime::Two, SmallPrime::Three, SmallPrime::Five, SmallPrime::Seven] {
        let mut out = Vec::new();
        p.encode(&mut out);
        let mut d = Decoder::new(out);
        assert_eq!(SmallPrime::decode(&mut d), Ok(p));
    }
}

#[test]
fn color_encodes_each_channel() {
    let c = destream::color::Color { r: 233, g: 103, b: 134 };
    let mut out = Vec::new();
    c.encode(&mut out);
    assert_eq!(
        out,
        vec![
            Token::MapStart,
            text("r"),
            Token::Int(233),
            text("g"),
            Token::Int(103),
            text("b"),
            Token::Int(134),
            Token::MapEnd,
        ]
    );
}

#[test]
fn from_str_decodes_decimal_text() {
    let mut d = Decoder::new(vec![text("1234567890")]);
    assert_eq!(destream::bounds::deserialize_from_str(&mut d), Ok(1234567890));
}

#[test]
fn from_str_accepts_largest_value() {
    let mut d = Decoder::new(vec![text("18446744073709551615")]);
    assert_eq!(destream::bounds::deserialize_from_str(&mut d), Ok(u64::MAX));
}

#[test]
fn from_str_rejects_value_past_largest() {
    let mut d = Decoder::new(vec![text("18446744073709551616")]);
    assert!(matches!(
        destream::bounds::deserialize_from_str(&mut d),
        Err(DecodeError::Custom { .. })
    ));
}

#[test]
fn from_str_rejects_non_digit() {
    let mut d = Decoder::new(vec![text("12a")]);
    assert!(matches!(
        destream::bounds::deserialize_from_str(&mut d),
        Err(DecodeError::Custom { .. })
    ));
}

#[test]
fn from_str_rejects_empty_text() {
    let mut d = Decoder::new(vec![text("")]);
    assert!(matches!(
        destream::bounds::deserialize_from_str(&mut d),
        Err(DecodeError::Custom { .. })
    ));
}

#[test]
fn ptr_decode_produces_owned_data() {
    let mut d = Decoder::new(vec![Token::Int(7)]);
    match destream::bounds::Ptr::<i64>::decode(&mut d) {
        Ok(destream::bounds::Ptr::Owned(b)) => assert_eq!(*b, 7),
        other => panic!("expected owned data, got {:?}", other),
    }
}

#[test]
fn resource_encode_skips_hash_and_empty_metadata() {
    let r = destream::resource::Resource {
        name: "Stack Overflow".to_string(),
        hash: "b6469c3f31653d281bbbfa6f94d60fea130abe38".to_string(),
        metadata: MyMap::with_capacity(0),
    };
    let mut out = Vec::new();
    r.encode(&mut out);
    assert_eq!(
        out,
        vec![Token::MapStart, text("name"), text("Stack Overflow"), Token::MapEnd]
    );
}

#[test]
fn resource_encode_writes_nonempty_metadata() {
    let mut metadata = MyMap::with_capacity(1);
    metadata.insert("headquarters".to_string(), "San Francisco".to_string());
    let r = destream::resource::Resource {
        name: "GitHub".to_string(),
        hash: "5cb7a0c47e53854cd00e1a968de5abce1c124601".to_string(),
        metadata,
    };
    let mut out = Vec::new();
    r.encode(&mut out);
    assert_eq!(
        out,
        vec![
            Token::MapStart,
            text("name"),
            text("GitHub"),
            text("metadata"),
            Token::MapStart,
            text("headquarters"),
            text("San Francisco"),
            Token::MapEnd,
            Token::MapEnd,
        ]
    );
}

#[test]
fn discard_consumes_whole_nested_value() {
    let mut d = Decoder::new(vec![
        Token::MapStart,
        text("x"),
        Token::SeqStart,
        Token::Int(1),
        Token::Bool(true),
        Token::SeqEnd,
        Token::MapEnd,
        Token::Int(99),
    ]);
    assert_eq!(destream::visitor::decode_any(&mut d, destream::discard::Discard), Ok(()));
    assert_eq!(i64::decode(&mut d), Ok(99));
}

#[test]
fn discard_rejects_bare_close() {
    let mut d = Decoder::new(vec![Token::SeqEnd]);
    assert!(matches!(
        destream::visitor::decode_any(&mut d, destream::discard::Discard),
        Err(DecodeError::ShapeMismatch { .. })
    ));
}

#[test]
fn map_key_must_be_an_identifier() {
    let mut d = Decoder::new(vec![
        Token::MapStart,
        Token::Int(1),
        Token::Int(2),
        Token::MapEnd,
    ]);
    assert!(matches!(
        destream::duration::Duration::decode(&mut d),
        Err(DecodeError::ShapeMismatch { .. })
    ));
}

#[test]
fn unterminated_aggregate_is_a_mismatch() {
    let mut d = Decoder::new(vec![Token::SeqStart, Token::Int(1)]);
    let nth: Result<i64, _> = NthElement::new(0).consume(&mut d);
    assert!(matches!(nth, Err(DecodeError::ShapeMismatch { .. })));
}

#[test]
fn from_str_accepts_leading_plus() {
    let mut d = Decoder::new(vec![text("+42")]);
    assert_eq!(destream::bounds::deserialize_from_str(&mut d), Ok(42));
}

#[test]
fn from_str_rejects_bare_plus() {
    let mut d = Decoder::new(vec![text("+")]);
    assert!(matches!(
        destream::bounds::deserialize_from_str(&mut d),
        Err(DecodeError::Custom { .. })
    ));
}

#[test]
fn from_str_rejects_double_plus() {
    let mut d = Decoder::new(vec![text("++1")]);
    assert!(matches!(
        destream::bounds::deserialize_from_str(&mut d),
        Err(DecodeError::Custom { .. })
    ));
}

#[test]
fn expecting_description_carries_the_wanted_index() {
    let mut d = Decoder::new(vec![Token::Int(7)]);
    let nth: Result<i64, _> = NthElement::new(23).consume(&mut d);
    match nth {
        Err(DecodeError::ShapeMismatch { expected, .. }) => {
            assert_eq!(expected, "a sequence in which we care about element 23");
        }
        other => panic!("expected a shape mismatch, got {:?}", other),
    }
}
