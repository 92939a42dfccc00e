use ciborium::de::{from_reader, Error};
use ciborium::ser::to_vec;
use ciborium::value::Value;
use ciborium::{Decoder, EndOfFile, Float, Header, Integer, Major, Segments};

fn num(v: i128) -> Value {
    Value::Integer(Integer::try_from_i128(v).unwrap())
}

#[test]
fn scalar_integers_decode() {
    assert_eq!(from_reader(&[0x00]).unwrap(), num(0));
    assert_eq!(from_reader(&[0x17]).unwrap(), num(23));
    assert_eq!(from_reader(&hex::decode("1818").unwrap()).unwrap(), num(24));
    assert_eq!(
        from_reader(&hex::decode("1bffffffffffffffff").unwrap()).unwrap(),
        num(0xffffffffffffffff)
    );
    assert_eq!(from_reader(&[0x20]).unwrap(), num(-1));
    assert_eq!(
        from_reader(&hex::decode("3bffffffffffffffff").unwrap()).unwrap(),
        num(-0x10000000000000000)
    );
}

#[test]
fn scalar_integers_encode() {
    assert_eq!(hex::encode(to_vec(&num(0))), "00");
    assert_eq!(hex::encode(to_vec(&num(23))), "17");
    assert_eq!(hex::encode(to_vec(&num(24))), "1818");
    assert_eq!(hex::encode(to_vec(&num(1000))), "1903e8");
    assert_eq!(hex::encode(to_vec(&num(1000000))), "1a000f4240");
    assert_eq!(hex::encode(to_vec(&num(-1))), "20");
    assert_eq!(hex::encode(to_vec(&num(-1000))), "3903e7");
    assert_eq!(
        hex::encode(to_vec(&num(-0x10000000000000000))),
        "3bffffffffffffffff"
    );
}

#[test]
fn floats_decode() {
    let f0 = from_reader(&hex::decode("f90000").unwrap()).unwrap();
    assert_eq!(f0, Value::Float(Float(0.0f64.to_bits())));
    let fneg0 = from_reader(&hex::decode("f98000").unwrap()).unwrap();
    assert_eq!(fneg0, Value::Float(Float((-0.0f64).to_bits())));
    let finf = from_reader(&hex::decode("f97c00").unwrap()).unwrap();
    assert_eq!(finf, Value::Float(Float(f64::INFINITY.to_bits())));
    let fnan = from_reader(&hex::decode("f97e00").unwrap()).unwrap();
    assert_eq!(fnan, Value::Float(Float(0x7ff8000000000000)));
}

#[test]
fn floats_encode_shortest() {
    let cases: &[(f64, &str)] = &[
        (0.0, "f90000"),
        (-0.0, "f98000"),
        (1.0, "f93c00"),
        (1.1, "fb3ff199999999999a"),
        (1.5, "f93e00"),
        (65504.0, "f97bff"),
        (100000.0, "fa47c35000"),
        (3.4028234663852886e+38, "fa7f7fffff"),
        (1.0e+300, "fb7e37e43c8800759c"),
        (5.960464477539063e-8, "f90001"),
        (0.00006103515625, "f90400"),
        (-4.0, "f9c400"),
        (-4.1, "fbc010666666666666"),
        (f64::INFINITY, "f97c00"),
        (f64::NEG_INFINITY, "f9fc00"),
        (f64::NAN, "f97e00"),
    ];
    for (v, expect) in cases {
        let bytes = to_vec(&Value::Float(Float(v.to_bits())));
        assert_eq!(hex::encode(&bytes), *expect, "for {v}");
    }
}

#[test]
fn float_round_trip_is_bit_exact() {
    let cases: &[f64] = &[
        0.0,
        -0.0,
        1.0,
        1.1,
        1.5,
        65504.0,
        100000.0,
        5.960464477539063e-8,
        f64::INFINITY,
        f64::NEG_INFINITY,
        f64::NAN,
        f64::MIN_POSITIVE,
        5e-324,
    ];
    for v in cases {
        let bytes = to_vec(&Value::Float(Float(v.to_bits())));
        match from_reader(&bytes).unwrap() {
            Value::Float(f) => assert_eq!(f.0, v.to_bits(), "for {v}"),
            other => panic!("not a float: {other:?}"),
        }
    }
}

#[test]
fn float_conversions_match_half() {
    let cases: &[f64] = &[
        0.0,
        -0.0,
        1.0,
        1.5,
        2.5e-5,
        65504.0,
        65505.0,
        5.960464477539063e-8,
        1.0e-8,
        f64::INFINITY,
        f64::NEG_INFINITY,
        f64::NAN,
    ];
    for v in cases {
        let h = half::f16::from_f64(*v);
        if f64::from(h).to_bits() == v.to_bits() {
            assert_eq!(ciborium::f64_to_f16(v.to_bits()), Some(h.to_bits()), "for {v}");
            assert_eq!(
                ciborium::f16_to_f64(h.to_bits()),
                f64::from(h).to_bits(),
                "for {v}"
            );
        } else {
            assert_eq!(ciborium::f64_to_f16(v.to_bits()), None, "for {v}");
        }
        let w = *v as f32;
        if (w as f64).to_bits() == v.to_bits() {
            assert_eq!(ciborium::f64_to_f32(v.to_bits()), Some(w.to_bits()), "for {v}");
        }
    }
    for h in [0u16, 1, 0x3c00, 0x7bff, 0x7c00, 0x7e00, 0x8000, 0xfc00, 0x0400] {
        assert_eq!(
            ciborium::f16_to_f64(h),
            f64::from(half::f16::from_bits(h)).to_bits(),
            "for bits {h:#x}"
        );
    }
}

#[test]
fn big_positive_integer() {
    let v = from_reader(&hex::decode("c249010000000000000000").unwrap()).unwrap();
    let mut magnitude = vec![1u8];
    magnitude.extend_from_slice(&[0u8; 8]);
    assert_eq!(v, Value::Tag(2, Box::new(Value::Bytes(magnitude))));
}

#[test]
fn big_integer_fits_u64() {
    let v = from_reader(&hex::decode("c2420080").unwrap()).unwrap();
    assert_eq!(v, num(0x80));
    let v = from_reader(&hex::decode("c3420080").unwrap()).unwrap();
    assert_eq!(v, num(-0x81));
}

#[test]
fn stray_break_is_semantic() {
    match from_reader(&[0xff]) {
        Err(Error::Semantic(Some(0), _)) => {}
        other => panic!("unexpected: {other:?}"),
    }
}

#[test]
fn truncated_indefinite_bytes_is_io() {
    match from_reader(&hex::decode("5f4100").unwrap()) {
        Err(Error::Io(EndOfFile)) => {}
        other => panic!("unexpected: {other:?}"),
    }
}

#[test]
fn reject_reserved_selectors() {
    for b in [0x1cu8, 0x1d, 0x1e, 0x1f] {
        match from_reader(&[b]) {
            Err(Error::Syntax(0)) => {}
            other => panic!("unexpected for {b:#x}: {other:?}"),
        }
    }
}

#[test]
fn unknown_simple_is_semantic() {
    match from_reader(&[0xe0]) {
        Err(Error::Semantic(Some(0), _)) => {}
        other => panic!("unexpected: {other:?}"),
    }
}

#[test]
fn reserved_two_byte_simple_is_syntax() {
    match from_reader(&[0xf8, 0x00]) {
        Err(Error::Syntax(0)) => {}
        other => panic!("unexpected: {other:?}"),
    }
}

#[test]
fn text_round_trip() {
    let v = Value::Text(String::from("hello"));
    let bytes = to_vec(&v);
    assert_eq!(hex::encode(&bytes), "6568656c6c6f");
    assert_eq!(from_reader(&bytes).unwrap(), v);
}

#[test]
fn split_code_point_across_chunks() {
    let bytes = hex::decode("7f6261c361a9ff").unwrap();
    let v = from_reader(&bytes).unwrap();
    assert_eq!(v, Value::Text(String::from("a\u{e9}")));
}

#[test]
fn invalid_utf8_points_at_first_invalid_byte() {
    // The payload's first byte is already invalid: offset 1.
    match from_reader(&hex::decode("61ff").unwrap()) {
        Err(Error::Syntax(1)) => {}
        other => panic!("unexpected: {other:?}"),
    }
    // A two-byte lead with a bad continuation: the lead opens the invalid
    // sequence at offset 1.
    match from_reader(&hex::decode("62c328").unwrap()) {
        Err(Error::Syntax(1)) => {}
        other => panic!("unexpected: {other:?}"),
    }
    // One valid character first: the invalid sequence starts at offset 2.
    match from_reader(&hex::decode("6361c328").unwrap()) {
        Err(Error::Syntax(2)) => {}
        other => panic!("unexpected: {other:?}"),
    }
    // Chunked text: the valid prefix ends inside the second chunk, whose
    // payload begins at offset 5, after its own header.
    match from_reader(&hex::decode("7f62616162c328ff").unwrap()) {
        Err(Error::Syntax(5)) => {}
        other => panic!("unexpected: {other:?}"),
    }
}

#[test]
fn map_round_trip() {
    let v = Value::Mapping(vec![
        (Value::Text(String::from("a")), num(42)),
        (Value::Text(String::from("aa")), num(420)),
        (Value::Text(String::from("b")), num(4200)),
    ]);
    let bytes = to_vec(&v);
    assert_eq!(hex::encode(&bytes), "a36161182a6261611901a46162191068");
    assert_eq!(from_reader(&bytes).unwrap(), v);
    let canonical = ciborium::value::canonical::canonical_into_vec(&v);
    assert_eq!(hex::encode(&canonical), "a36161182a61621910686261611901a4");
}

#[test]
fn newtype_variant_shape() {
    let v = Value::Mapping(vec![(Value::Text(String::from("Newtype")), num(45))]);
    assert_eq!(hex::encode(to_vec(&v)), "a1674e657774797065182d");
}

#[test]
fn indefinite_containers_decode() {
    let v = from_reader(&hex::decode("9f0102ff").unwrap()).unwrap();
    assert_eq!(v, Value::Array(vec![num(1), num(2)]));
    let v = from_reader(&hex::decode("bf616101616202ff").unwrap()).unwrap();
    assert_eq!(
        v,
        Value::Mapping(vec![
            (Value::Text(String::from("a")), num(1)),
            (Value::Text(String::from("b")), num(2)),
        ])
    );
}

#[test]
fn tags_are_skipped_dynamically() {
    let v = from_reader(&hex::decode("c074323031332d30332d32315432303a30343a30305a").unwrap());
    assert_eq!(
        v.unwrap(),
        Value::Text(String::from("2013-03-21T20:04:00Z"))
    );
}

#[test]
fn decoder_pull_and_push() {
    let data = hex::decode("1864f5").unwrap();
    let mut dec = Decoder::from(&data);
    assert_eq!(dec.offset(), 0);
    let h = dec.pull().unwrap();
    assert_eq!(h, Header::Positive(100));
    assert_eq!(dec.offset(), 2);
    dec.push(h);
    assert_eq!(dec.offset(), 0);
    assert_eq!(dec.pull().unwrap(), Header::Positive(100));
    assert_eq!(dec.pull().unwrap(), Header::Simple(21));
}

#[test]
fn segments_stream_chunks() {
    // An indefinite byte string with chunks of 2 and 1 bytes.
    let data = hex::decode("5f4201024103ff").unwrap();
    let mut dec = Decoder::from(&data);
    let h = dec.pull().unwrap();
    let len = match h {
        Header::Bytes(l) => l,
        _ => panic!("not bytes"),
    };
    let mut segments: Segments = dec.bytes(len);
    let mut payload = Vec::new();
    while let Some(mut segment) = segments.next(&mut dec).unwrap() {
        while let Some(chunk) = segment.next(&mut dec, 1).unwrap() {
            payload.extend_from_slice(&chunk);
        }
    }
    assert_eq!(payload, vec![1, 2, 3]);
    assert!(matches!(segments.major, Major::Bytes));
}

#[test]
fn tag_decode() {
    let bytes = hex::decode("c749010000000000000000").unwrap();
    let (number, inner) = ciborium::de::tagged_from_reader(&bytes).unwrap();
    assert_eq!(number, 7);
    let mut payload = vec![1u8];
    payload.extend_from_slice(&[0u8; 8]);
    assert_eq!(inner, Value::Bytes(payload));
    // An untagged item is refused by the tag-observing entry.
    match ciborium::de::tagged_from_reader(&[0x00]) {
        Err(Error::Semantic(Some(0), _)) => {}
        other => panic!("unexpected: {other:?}"),
    }
}

#[test]
fn big_integer_encode_round_trip() {
    let cases: &[i128] = &[
        0,
        123,
        -5,
        0xffffffffffffffff,
        -0x10000000000000000,
        0x10000000000000000,
        -0x10000000000000001,
        i128::MAX,
        i128::MIN,
    ];
    for v in cases {
        let value = ciborium::value::value_from_i128(*v);
        let bytes = to_vec(&value);
        assert_eq!(from_reader(&bytes).unwrap(), value, "for {v}");
    }
    let two_to_64 = ciborium::value::value_from_i128(0x10000000000000000);
    let mut magnitude = vec![1u8];
    magnitude.extend_from_slice(&[0u8; 8]);
    assert_eq!(two_to_64, Value::Tag(2, Box::new(Value::Bytes(magnitude))));
    assert_eq!(hex::encode(to_vec(&two_to_64)), "c249010000000000000000");
}

#[test]
fn bigint_magnitude() {
    assert_eq!(ciborium::de::bigint_magnitude_to_u128(&[0, 1, 2]), Some(0x0102));
    assert_eq!(ciborium::de::bigint_magnitude_to_u128(&[]), Some(0));
    let mut wide = vec![1u8];
    wide.extend_from_slice(&[0u8; 16]);
    assert_eq!(ciborium::de::bigint_magnitude_to_u128(&wide), None);
}
