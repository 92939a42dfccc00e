//! Canonical ordering and deterministic encoding.

use ciborium::de::from_reader;
use ciborium::ser::{into_writer, to_vec};
use ciborium::value::canonical::{canonical_into_vec, canonical_into_writer, canonical_value, cmp_value};
use ciborium::value::Value;
use ciborium::ser::{sort_serialized_entries, to_vec_canonical};
use ciborium::{CanonicalizationScheme, Integer};
use rand::seq::SliceRandom;

fn num(v: i128) -> Value {
    Value::Integer(Integer::try_from_i128(v).unwrap())
}

fn text(s: &str) -> Value {
    Value::Text(String::from(s))
}

#[test]
fn rfc8949_example() {
    let golden: Vec<Value> = vec![
        num(10),
        num(-1),
        Value::Bool(false),
        num(100),
        text("z"),
        Value::Array(vec![num(-1)]),
        text("aa"),
        Value::Array(vec![num(100)]),
    ];
    let mut array: Vec<Value> = golden.clone();

    // Shuffle the array.
    array.shuffle(&mut rand::thread_rng());

    array.sort_by(|a, b| cmp_value(a, b));

    assert_eq!(array, golden);
}

#[test]
fn canonical_map() {
    let map = Value::Mapping(vec![
        (Value::Bool(false), num(2)),
        (Value::Array(vec![num(-1)]), num(5)),
        (num(-1), num(1)),
        (num(10), num(0)),
        (num(100), num(3)),
        (Value::Array(vec![num(100)]), num(7)),
        (text("z"), num(4)),
        (text("aa"), num(6)),
    ]);

    let bytes1 = canonical_into_vec(&map);

    assert_eq!(
        hex::encode(&bytes1),
        "a80a002001f402186403617a048120056261610681186407"
    );
}

#[test]
fn negative_numbers() {
    let golden: Vec<Value> = vec![
        num(10),
        num(-1),
        num(-2),
        num(-3),
        num(-4),
        Value::Bool(false),
        num(100),
        num(-100),
        num(-200),
        text("z"),
        Value::Array(vec![num(-1)]),
        num(-300),
        text("aa"),
        Value::Array(vec![num(100)]),
    ];
    let mut array: Vec<Value> = golden.clone();

    // Shuffle the array.
    array.shuffle(&mut rand::thread_rng());

    array.sort_by(|a, b| cmp_value(a, b));

    assert_eq!(array, golden);
}

#[test]
fn canonical_value_example() {
    let map = Value::Mapping(vec![
        (Value::Bool(false), num(2)),
        (Value::Array(vec![num(-1)]), num(5)),
        (num(-1), num(1)),
        (num(10), num(0)),
        (num(100), num(3)),
        (Value::Array(vec![num(100)]), num(7)),
        (text("z"), num(4)),
        (text("aa"), num(6)),
    ]);

    let mut bytes = Vec::new();
    canonical_into_writer(&map, &mut bytes);
    assert_eq!(
        hex::encode(&bytes),
        "a80a002001f402186403617a048120056261610681186407"
    );

    bytes.clear();
    let canonical = canonical_value(map);
    into_writer(&canonical, &mut bytes);

    assert_eq!(
        hex::encode(&bytes),
        "a80a002001f402186403617a048120056261610681186407"
    );
}

#[test]
fn canonical_value_nested_structures() {
    // Create a nested structure with unsorted maps.
    let nested = Value::Array(vec![
        Value::Mapping(vec![(text("b"), num(2)), (text("a"), num(1))]),
        Value::Tag(
            1,
            Box::new(Value::Mapping(vec![
                (num(100), text("high")),
                (num(10), text("low")),
            ])),
        ),
    ]);

    let canonical = canonical_value(nested);

    if let Value::Array(elements) = canonical {
        // Check the first map is sorted.
        if let Value::Mapping(entries) = &elements[0] {
            assert_eq!(entries[0].0, text("a"));
            assert_eq!(entries[1].0, text("b"));
        }

        // Check the tagged map is sorted.
        if let Value::Tag(_, inner) = &elements[1] {
            if let Value::Mapping(entries) = inner.as_ref() {
                assert_eq!(entries[0].0, num(10));
                assert_eq!(entries[1].0, num(100));
            }
        }
    } else {
        panic!("Expected Array value");
    }
}

#[test]
fn canonical_value_struct() {
    let t1 = Value::Mapping(vec![
        (text("a"), num(1)),
        (text("b"), num(2)),
        (text("c"), num(3)),
    ]);
    let t2 = Value::Mapping(vec![
        (text("c"), num(3)),
        (text("b"), num(2)),
        (text("a"), num(1)),
    ]);

    let bytes1 = canonical_into_vec(&t1);
    let bytes2 = canonical_into_vec(&t2);
    assert_eq!(bytes1, bytes2);
}

#[test]
fn test_long_utf8_deserialization() {
    let s: String = (0..2000).map(|_| '\u{30dc}').collect();
    let mut v = Vec::new();
    into_writer(&Value::Text(s.clone()), &mut v);
    let decoded = from_reader(&*v).unwrap();
    assert_eq!(decoded, Value::Text(s));
}

#[test]
fn tag_encode() {
    let payload: Vec<u8> = vec![1, 0, 0, 0, 0, 0, 0, 0, 0];
    let value = Value::Tag(7, Box::new(Value::Bytes(payload.clone())));
    let bytes = to_vec(&value);
    assert_eq!(hex::encode(&bytes), "c749010000000000000000");
    // Dynamic decoding skips the tag and yields the payload.
    let skipped = from_reader(&bytes).unwrap();
    assert_eq!(skipped, Value::Bytes(payload));
}

#[test]
fn scheme_orders_differ_on_mixed_keys() {
    // Keys false (f4, one byte) and 256 (190100, three bytes): the
    // length-first order puts false first, the bytewise order puts 256
    // first.
    let map = Value::Mapping(vec![(num(256), num(2)), (Value::Bool(false), num(1))]);
    let rfc7049 = to_vec_canonical(&map, CanonicalizationScheme::Rfc7049);
    assert_eq!(hex::encode(&rfc7049), "a2f40119010002");
    let rfc8949 = to_vec_canonical(&map, CanonicalizationScheme::Rfc8949);
    assert_eq!(hex::encode(&rfc8949), "a219010002f401");
    // On the example map with text keys the two schemes agree.
    let example = Value::Mapping(vec![
        (text("a"), num(42)),
        (text("aa"), num(420)),
        (text("b"), num(4200)),
    ]);
    for scheme in [CanonicalizationScheme::Rfc7049, CanonicalizationScheme::Rfc8949] {
        let bytes = to_vec_canonical(&example, scheme);
        assert_eq!(hex::encode(&bytes), "a36161182a61621910686261611901a4");
    }
}

#[test]
fn canonical_output_ignores_insertion_order() {
    let one = Value::Mapping(vec![
        (num(256), num(2)),
        (Value::Bool(false), num(1)),
        (text("aa"), num(3)),
    ]);
    let two = Value::Mapping(vec![
        (text("aa"), num(3)),
        (num(256), num(2)),
        (Value::Bool(false), num(1)),
    ]);
    for scheme in [CanonicalizationScheme::Rfc7049, CanonicalizationScheme::Rfc8949] {
        assert_eq!(to_vec_canonical(&one, scheme), to_vec_canonical(&two, scheme));
    }
}

#[test]
fn sorted_serialized_entries() {
    let entries = vec![
        (vec![0xf4u8], vec![1u8]),
        (vec![0x19u8, 0x01, 0x00], vec![2u8]),
        (vec![0x0au8], vec![3u8]),
    ];
    let by_bytes = sort_serialized_entries(entries.clone(), CanonicalizationScheme::Rfc8949);
    let keys: Vec<u8> = by_bytes.iter().map(|e| e.0[0]).collect();
    assert_eq!(keys, vec![0x0a, 0x19, 0xf4]);
    let by_length = sort_serialized_entries(entries, CanonicalizationScheme::Rfc7049);
    let keys: Vec<u8> = by_length.iter().map(|e| e.0[0]).collect();
    assert_eq!(keys, vec![0x0a, 0xf4, 0x19]);
}
