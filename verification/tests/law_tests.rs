use std::collections::HashMap;

use bad_north_save::json::decoder::JsonDecoder;
use bad_north_save::json::value::{JsonNumber, JsonValue, NumberKind};
use bad_north_save::parser::parse;
use bad_north_save::records::{
    Class, ClassType, DeserializedRecord, Member, MemberType, Primitive, PrimitiveType, Record,
};
use bad_north_save::serializer::{serialize, serialize_checked};
use bad_north_save::serializer::string_patcher::calculate_string_record_size;

fn single(root: i32, record: Record) -> DeserializedRecord {
    DeserializedRecord {
        root_id: root,
        header_id: -1,
        records: HashMap::from([(root, record)]),
        class_types: Vec::new(),
        record_metadata: HashMap::new(),
        record_order: Vec::new(),
    }
}

#[test]
fn primitive_arrays_are_written_little_endian_and_read_back() {
    let cases: Vec<(PrimitiveType, Vec<Primitive>, Vec<u8>)> = vec![
        (PrimitiveType::Int16, vec![Primitive::Int16(-2)], vec![0xFE, 0xFF]),
        (PrimitiveType::UInt16, vec![Primitive::UInt16(0x1234)], vec![0x34, 0x12]),
        (PrimitiveType::UInt32, vec![Primitive::UInt32(0x01020304)], vec![4, 3, 2, 1]),
        (PrimitiveType::Int64, vec![Primitive::Int64(-1)], vec![0xFF; 8]),
        (PrimitiveType::UInt64, vec![Primitive::UInt64(0x0102030405060708)], vec![8, 7, 6, 5, 4, 3, 2, 1]),
        (PrimitiveType::Int8, vec![Primitive::Int8(-3)], vec![0xFD]),
        (PrimitiveType::Double, vec![Primitive::Double(1.5f64.to_bits())], 1.5f64.to_le_bytes().to_vec()),
        (PrimitiveType::Single, vec![Primitive::Single(2.5f32.to_bits())], 2.5f32.to_le_bytes().to_vec()),
        (PrimitiveType::Char, vec![Primitive::Char('é')], vec![0xE9, 0x00]),
        (PrimitiveType::TimeSpan, vec![Primitive::TimeSpan(256)], vec![0, 1, 0, 0, 0, 0, 0, 0]),
    ];
    for (t, vals, payload) in cases {
        let source = single(1, Record::PrimitiveArray(t, vals.clone()));
        let bytes = serialize_checked(&source).expect("serialize should succeed");
        // header (17), type 15, id, length, type code, then the values, then 11
        assert_eq!(bytes[17], 15);
        assert_eq!(&bytes[27..27 + payload.len()], &payload[..]);
        assert_eq!(bytes[27 + payload.len()], 11);
        let parsed = parse(&bytes).expect("parse should succeed");
        assert_eq!(parsed.records[&1], Record::PrimitiveArray(t, vals));
    }
}

#[test]
fn wide_char_is_written_as_question_mark() {
    let source = single(1, Record::PrimitiveArray(PrimitiveType::Char, vec![Primitive::Char('😀')]));
    let bytes = serialize_checked(&source).expect("serialize should succeed");
    assert_eq!(&bytes[27..29], &[b'?', 0]);
    let parsed = parse(&bytes).expect("parse should succeed");
    assert_eq!(parsed.records[&1], Record::PrimitiveArray(PrimitiveType::Char, vec![Primitive::Char('?')]));
}

#[test]
fn string_record_size_matches_written_length() {
    let value = "x".repeat(200);
    let source = single(1, Record::String(value.clone()));
    let bytes = serialize_checked(&source).expect("serialize should succeed");
    // header (17) + type byte + id (4) + the string + end record
    assert_eq!(bytes.len(), 17 + 1 + 4 + calculate_string_record_size(&value) + 1);
}

#[test]
fn parse_rejects_invalid_utf8_string() {
    let mut bytes = vec![0u8];
    for v in [1i32, -1, 1, 0] {
        bytes.extend_from_slice(&v.to_le_bytes());
    }
    bytes.push(6);
    bytes.extend_from_slice(&1i32.to_le_bytes());
    bytes.push(2);
    bytes.extend_from_slice(&[0xC3, 0x28]);
    bytes.push(11);
    let error = parse(&bytes).expect_err("invalid UTF-8 should be refused");
    assert!(error.starts_with("Invalid UTF-8 string: "));
}

fn num(i: i64) -> JsonValue {
    let kind = if i >= 0 { NumberKind::PosInt(i as u64) } else { NumberKind::NegInt(i) };
    JsonValue::Number(JsonNumber {
        kind,
        as_double: Some((i as f64).to_bits()),
        as_single: Some(((i as f64) as f32).to_bits()),
    })
}

fn obj(entries: Vec<(&str, JsonValue)>) -> JsonValue {
    JsonValue::Object(entries.into_iter().map(|(k, v)| (k.to_string(), v)).collect())
}

fn s(v: &str) -> JsonValue {
    JsonValue::String(v.to_string())
}

fn doc(records: JsonValue, extra: Vec<(&str, JsonValue)>) -> JsonValue {
    let mut entries = vec![
        ("root_id", num(1)),
        ("header_id", num(-1)),
        ("class_types", JsonValue::Array(vec![])),
        ("records", records),
    ];
    entries.extend(extra);
    obj(entries)
}

#[test]
fn decode_error_messages() {
    let class_without_members = obj(vec![("1", obj(vec![("type", s("Class")), ("class_type_id", num(5))]))]);
    assert_eq!(
        JsonDecoder::decode(&doc(class_without_members, vec![])).unwrap_err(),
        "Invalid class_type_id: 5"
    );
    let bad_order = doc(obj(vec![]), vec![("record_order", s("x"))]);
    assert_eq!(JsonDecoder::decode(&bad_order).unwrap_err(), "record_order must be an array");
    let bad_meta = doc(
        obj(vec![]),
        vec![("record_metadata", obj(vec![("3", obj(vec![("original_record_type", num(6))]))]))],
    );
    assert_eq!(JsonDecoder::decode(&bad_meta).unwrap_err(), "Missing start_offset for record 3");
    let bad_member = obj(vec![(
        "2",
        obj(vec![
            ("type", s("BinaryArray")),
            ("member_type", obj(vec![("type", s("Object"))])),
            ("values", JsonValue::Array(vec![obj(vec![("type", s("Int32"))])])),
        ]),
    )]);
    assert_eq!(JsonDecoder::decode(&doc(bad_member, vec![])).unwrap_err(), "Missing int32 value");
    let unknown_member = obj(vec![(
        "2",
        obj(vec![
            ("type", s("BinaryArray")),
            ("member_type", obj(vec![("type", s("Object"))])),
            ("values", JsonValue::Array(vec![obj(vec![("type", s("Weird"))])])),
        ]),
    )]);
    assert_eq!(JsonDecoder::decode(&doc(unknown_member, vec![])).unwrap_err(), "Unknown member type: Weird");
    let metadata_not_object = doc(obj(vec![]), vec![("record_metadata", num(3))]);
    let rec = JsonDecoder::decode(&metadata_not_object).expect("metadata that is not an object is ignored");
    assert!(rec.record_metadata.is_empty());
}

#[test]
fn graph_without_metadata_reads_back_with_class_types_renumbered() {
    let point = ClassType {
        name: "Point".to_string(),
        library_id: 2,
        system_class: false,
        member_names: vec!["x".to_string(), "next".to_string()],
        member_types: vec![MemberType::Primitive(PrimitiveType::Int32), MemberType::Object],
    };
    let pair = ClassType {
        name: "System.Pair".to_string(),
        library_id: 7,
        system_class: true,
        member_names: vec!["items".to_string()],
        member_types: vec![MemberType::ObjectArray],
    };
    let mut records = HashMap::new();
    records.insert(2, Record::BinaryLibrary("Game".to_string()));
    // The root uses the second class type, so the reader meets it first.
    records.insert(1, Record::Class(Class { class_type_id: 1, members: vec![Member::Reference(4)] }));
    records.insert(
        4,
        Record::BinaryArray(
            MemberType::Object,
            vec![Member::Reference(5), Member::Null, Member::NullMultiple(300), Member::Reference(6)],
        ),
    );
    records.insert(
        5,
        Record::Class(Class {
            class_type_id: 0,
            members: vec![Member::Primitive(Primitive::Int32(7)), Member::Reference(6)],
        }),
    );
    records.insert(
        6,
        Record::Class(Class {
            class_type_id: 0,
            members: vec![Member::Primitive(Primitive::Int32(-8)), Member::Null],
        }),
    );
    let source = DeserializedRecord {
        root_id: 1,
        header_id: -1,
        records,
        class_types: vec![point.clone(), pair.clone()],
        record_metadata: HashMap::new(),
        record_order: Vec::new(),
    };
    let bytes = serialize(&source);
    let parsed = parse(&bytes).expect("the written bytes read back");

    assert_eq!(parsed.root_id, 1);
    assert_eq!(parsed.header_id, -1);
    assert_eq!(parsed.records.len(), source.records.len());
    for (id, record) in &source.records {
        match (record, &parsed.records[id]) {
            (Record::Class(original), Record::Class(read)) => {
                assert_eq!(read.members, original.members);
                let expected = &source.class_types[original.class_type_id];
                let got = &parsed.class_types[read.class_type_id];
                assert_eq!(got.name, expected.name);
                assert_eq!(got.member_names, expected.member_names);
                assert_eq!(got.member_types, expected.member_types);
                assert_eq!(got.system_class, expected.system_class);
                let library = if expected.system_class { 0 } else { expected.library_id };
                assert_eq!(got.library_id, library);
            }
            (original, read) => assert_eq!(read, original),
        }
    }
    // Records 5 and 6 share a class type: the second refers to the first one's.
    match (&parsed.records[&5], &parsed.records[&6]) {
        (Record::Class(a), Record::Class(b)) => assert_eq!(a.class_type_id, b.class_type_id),
        _ => panic!("class records expected"),
    }
    // The root's class type is the first one read.
    match &parsed.records[&1] {
        Record::Class(root) => assert_eq!(root.class_type_id, 0),
        _ => panic!("class record expected"),
    }
}

#[test]
fn every_record_read_has_its_layout_noted_even_when_nested() {
    let mut bytes: Vec<u8> = vec![0];
    for v in [1i32, -1, 1, 0] {
        bytes.extend_from_slice(&v.to_le_bytes());
    }
    // Record 1: class "Root" with one object member, written in place as record 3.
    bytes.push(5);
    bytes.extend_from_slice(&1i32.to_le_bytes());
    bytes.push(4);
    bytes.extend_from_slice(b"Root");
    bytes.extend_from_slice(&1i32.to_le_bytes());
    bytes.push(5);
    bytes.extend_from_slice(b"child");
    bytes.push(2);
    // Library id of record 1's class.
    bytes.extend_from_slice(&2i32.to_le_bytes());
    // Record 3, in place: a string.
    bytes.push(6);
    bytes.extend_from_slice(&3i32.to_le_bytes());
    bytes.push(2);
    bytes.extend_from_slice(b"hi");
    bytes.push(11);

    let parsed = parse(&bytes).expect("well-formed stream");
    let mut record_ids: Vec<i32> = parsed.records.keys().copied().collect();
    let mut noted_ids: Vec<i32> = parsed.record_metadata.keys().copied().collect();
    let mut order = parsed.record_order.clone();
    record_ids.sort();
    noted_ids.sort();
    order.sort();
    assert_eq!(record_ids, vec![1, 3]);
    assert_eq!(noted_ids, record_ids);
    assert_eq!(order, record_ids);
    assert_eq!(parsed.records[&3], Record::String("hi".to_string()));
}

fn put_i32(bytes: &mut Vec<u8>, v: i32) {
    bytes.extend_from_slice(&v.to_le_bytes());
}

fn put_str(bytes: &mut Vec<u8>, s: &str) {
    bytes.push(s.len() as u8);
    bytes.extend_from_slice(s.as_bytes());
}

#[test]
fn graph_with_records_written_in_place_reads_back_after_writing() {
    let mut bytes: Vec<u8> = vec![0];
    for v in [1i32, -1, 1, 0] {
        put_i32(&mut bytes, v);
    }
    bytes.push(12);
    put_i32(&mut bytes, 2);
    put_str(&mut bytes, "Game");
    // Record 1: "Root" with two object members; the first is record 3, in place.
    bytes.push(5);
    put_i32(&mut bytes, 1);
    put_str(&mut bytes, "Root");
    put_i32(&mut bytes, 2);
    put_str(&mut bytes, "child");
    put_str(&mut bytes, "other");
    bytes.push(2);
    bytes.push(2);
    put_i32(&mut bytes, 2);
    bytes.push(5);
    put_i32(&mut bytes, 3);
    put_str(&mut bytes, "Child");
    put_i32(&mut bytes, 1);
    put_str(&mut bytes, "value");
    bytes.push(0);
    bytes.push(8);
    put_i32(&mut bytes, 2);
    put_i32(&mut bytes, 42);
    // The second member refers to record 4.
    bytes.push(9);
    put_i32(&mut bytes, 4);
    // Record 4 reuses the class type that record 3 defined.
    bytes.push(1);
    put_i32(&mut bytes, 4);
    put_i32(&mut bytes, 3);
    put_i32(&mut bytes, 7);
    bytes.push(11);

    let first = parse(&bytes).expect("well-formed stream");
    let written = serialize_checked(&first).expect("the graph can be written back");
    let second = parse(&written).expect("the written bytes read back");
    assert_eq!(second.root_id, first.root_id);
    assert_eq!(second.header_id, first.header_id);
    assert_eq!(second.records, first.records);
    for (id, record) in &first.records {
        if let (Record::Class(a), Record::Class(b)) = (record, &second.records[id]) {
            assert_eq!(second.class_types[b.class_type_id], first.class_types[a.class_type_id]);
        }
    }
    assert_eq!(written, bytes);
}
