use std::collections::HashMap;

use bad_north_save::parser::parse;
use bad_north_save::records::{
    Class, ClassType, DeserializedRecord, Member, MemberType, Primitive, PrimitiveType, Record,
    RecordMetadata,
};
use bad_north_save::serializer::{serialize, serialize_checked};

fn write_u8(bytes: &mut Vec<u8>, value: u8) {
    bytes.push(value);
}

fn write_i32(bytes: &mut Vec<u8>, value: i32) {
    bytes.extend_from_slice(&value.to_le_bytes());
}

fn write_string(bytes: &mut Vec<u8>, value: &str) {
    write_7bit_encoded_int(bytes, value.len() as u32);
    bytes.extend_from_slice(value.as_bytes());
}

fn write_7bit_encoded_int(bytes: &mut Vec<u8>, mut value: u32) {
    loop {
        let mut byte = (value & 0x7F) as u8;
        value >>= 7;
        if value != 0 {
            byte |= 0x80;
        }
        bytes.push(byte);
        if value == 0 {
            break;
        }
    }
}

fn header(bytes: &mut Vec<u8>) {
    write_u8(bytes, 0);
    write_i32(bytes, 1);
    write_i32(bytes, -1);
    write_i32(bytes, 1);
    write_i32(bytes, 0);
}

#[test]
fn parse_serialize_roundtrip() {
    let mut records = HashMap::new();

    records.insert(2, Record::BinaryLibrary("Assembly-CSharp".to_string()));
    records.insert(3, Record::String("hello".to_string()));
    records.insert(
        1,
        Record::Class(Class {
            class_type_id: 0,
            members: vec![
                Member::Primitive(Primitive::Int32(19)),
                Member::Reference(3),
                Member::Primitive(Primitive::Boolean(true)),
            ],
        }),
    );

    let class_types = vec![ClassType {
        name: "CampaignSave".to_string(),
        library_id: 2,
        system_class: false,
        member_names: vec![
            "serializedVersion".to_string(),
            "name".to_string(),
            "enabled".to_string(),
        ],
        member_types: vec![
            MemberType::Primitive(PrimitiveType::Int32),
            MemberType::String,
            MemberType::Primitive(PrimitiveType::Boolean),
        ],
    }];

    let source = DeserializedRecord {
        root_id: 1,
        header_id: -1,
        records,
        class_types,
        record_metadata: HashMap::new(),
        record_order: Vec::new(),
    };

    let bytes = serialize(&source);
    let parsed = parse(&bytes).expect("roundtrip parse should succeed");

    assert_eq!(parsed.root_id, source.root_id);
    assert_eq!(parsed.header_id, source.header_id);
    assert_eq!(parsed.class_types, source.class_types);
    assert_eq!(parsed.records, source.records);
    assert!(parsed.record_metadata.contains_key(&1));
    assert!(parsed.record_metadata.contains_key(&2));
    assert!(parsed.record_metadata.contains_key(&3));
}

#[test]
fn parse_member_inline_class_with_members_and_types() {
    let mut bytes = Vec::new();
    header(&mut bytes);

    write_u8(&mut bytes, 5);
    write_i32(&mut bytes, 1);
    write_string(&mut bytes, "Root");
    write_i32(&mut bytes, 1);
    write_string(&mut bytes, "child");
    write_u8(&mut bytes, 2);
    write_i32(&mut bytes, 2);
    write_u8(&mut bytes, 5);

    write_i32(&mut bytes, 3);
    write_string(&mut bytes, "Child");
    write_i32(&mut bytes, 1);
    write_string(&mut bytes, "value");
    write_u8(&mut bytes, 0);
    write_u8(&mut bytes, 8);
    write_i32(&mut bytes, 2);
    write_i32(&mut bytes, 42);

    write_u8(&mut bytes, 11);

    let parsed = parse(&bytes).expect("parse should support inline record type 5 in member");
    let root = parsed.records[&1].as_class();
    assert_eq!(root.members[0], Member::Reference(3));

    let child = parsed.records[&3].as_class();
    assert_eq!(child.members[0], Member::Primitive(Primitive::Int32(42)));
    assert_eq!(parsed.record_metadata[&1].original_record_type, 5);
    assert_eq!(parsed.record_metadata[&3].original_record_type, 5);
}

#[test]
fn parse_member_inline_array_single_primitive() {
    let mut bytes = Vec::new();
    header(&mut bytes);

    write_u8(&mut bytes, 5);
    write_i32(&mut bytes, 1);
    write_string(&mut bytes, "Root");
    write_i32(&mut bytes, 1);
    write_string(&mut bytes, "arr");
    write_u8(&mut bytes, 2);
    write_i32(&mut bytes, 2);
    write_u8(&mut bytes, 15);
    write_i32(&mut bytes, 4);
    write_i32(&mut bytes, 2);
    write_u8(&mut bytes, 8);
    write_i32(&mut bytes, 10);
    write_i32(&mut bytes, 20);

    write_u8(&mut bytes, 11);

    let parsed = parse(&bytes).expect("parse should support inline record type 15 in member");
    let root = parsed.records[&1].as_class();
    assert_eq!(root.members[0], Member::Reference(4));
    assert_eq!(
        parsed.records[&4],
        Record::PrimitiveArray(
            PrimitiveType::Int32,
            vec![Primitive::Int32(10), Primitive::Int32(20)]
        )
    );
    assert_eq!(parsed.record_metadata[&1].original_record_type, 5);
    assert_eq!(parsed.record_metadata[&4].original_record_type, 15);
}

#[test]
fn parse_serialize_checked_preserves_inline_string_record_bytes() {
    let mut bytes = Vec::new();
    header(&mut bytes);

    write_u8(&mut bytes, 5);
    write_i32(&mut bytes, 1);
    write_string(&mut bytes, "Root");
    write_i32(&mut bytes, 1);
    write_string(&mut bytes, "name");
    write_u8(&mut bytes, 1);
    write_i32(&mut bytes, 2);
    write_u8(&mut bytes, 6);
    write_i32(&mut bytes, 3);
    write_string(&mut bytes, "hello");

    write_u8(&mut bytes, 11);

    let parsed = parse(&bytes).expect("parse should succeed");
    let serialized = serialize_checked(&parsed).expect("serialize should succeed");
    assert_eq!(serialized, bytes);
}

#[test]
fn serialize_checked_reports_record_size_mismatch() {
    let mut records = HashMap::new();
    records.insert(
        2,
        Record::PrimitiveArray(PrimitiveType::Int32, vec![Primitive::Int32(1), Primitive::Int32(2)]),
    );
    let source = DeserializedRecord {
        root_id: 2,
        header_id: -1,
        records,
        class_types: Vec::new(),
        record_metadata: HashMap::from([(
            2,
            RecordMetadata {
                original_record_type: 15,
                start_offset: 100,
                end_offset: 105,
                original_byte_length: 1,
            },
        )]),
        record_order: Vec::new(),
    };

    let error = serialize_checked(&source).expect_err("should reject mismatched size");
    assert!(error.contains("record_id=2"));
    assert!(error.contains("original offsets 100..105"));
}

#[test]
fn serialize_checked_accepts_string_record_size_difference() {
    let mut records = HashMap::new();
    records.insert(2, Record::String("hello".to_string()));
    let source = DeserializedRecord {
        root_id: 2,
        header_id: -1,
        records,
        class_types: Vec::new(),
        record_metadata: HashMap::from([(
            2,
            RecordMetadata {
                original_record_type: 6,
                start_offset: 100,
                end_offset: 105,
                original_byte_length: 1,
            },
        )]),
        record_order: Vec::new(),
    };

    serialize_checked(&source).expect("string record size difference should be accepted");
}

#[test]
fn serialize_checked_accepts_class_record_size_difference() {
    let mut records = HashMap::new();
    records.insert(
        1,
        Record::Class(Class {
            class_type_id: 0,
            members: vec![Member::Primitive(Primitive::Int32(7)), Member::Null],
        }),
    );

    let source = DeserializedRecord {
        root_id: 1,
        header_id: -1,
        records,
        class_types: vec![ClassType {
            name: "Voxels.TowerDefense.ProfileInternals.CampaignSave".to_string(),
            library_id: 2,
            system_class: false,
            member_names: vec!["serializedVersion".to_string(), "heroes".to_string()],
            member_types: vec![MemberType::Primitive(PrimitiveType::Int32), MemberType::Object],
        }],
        record_metadata: HashMap::from([(
            1,
            RecordMetadata {
                original_record_type: 5,
                start_offset: 17,
                end_offset: 18,
                original_byte_length: 1,
            },
        )]),
        record_order: Vec::new(),
    };

    serialize_checked(&source).expect("class record size difference should be accepted");
}

#[test]
fn serialize_checked_rejects_non_positive_null_multiple_count() {
    let mut records = HashMap::new();
    records.insert(
        1,
        Record::Class(Class { class_type_id: 0, members: vec![Member::NullMultiple(0)] }),
    );

    let source = DeserializedRecord {
        root_id: 1,
        header_id: -1,
        records,
        class_types: vec![ClassType {
            name: "Root".to_string(),
            library_id: 2,
            system_class: false,
            member_names: vec!["child".to_string()],
            member_types: vec![MemberType::Object],
        }],
        record_metadata: HashMap::new(),
        record_order: Vec::new(),
    };

    let error = serialize_checked(&source).expect_err("should reject invalid NullMultiple");
    assert!(error.contains("NullMultiple count must be positive"));
}

#[test]
fn serialize_string_uses_7bit_length_prefix() {
    let value = "A".repeat(49);
    let source = DeserializedRecord {
        root_id: 1,
        header_id: -1,
        records: HashMap::from([(1, Record::String(value.clone()))]),
        class_types: Vec::new(),
        record_metadata: HashMap::new(),
        record_order: Vec::new(),
    };

    let bytes = serialize_checked(&source).expect("serialize should succeed");
    assert_eq!(bytes[17], 6);
    assert_eq!(&bytes[18..22], &1i32.to_le_bytes());
    assert_eq!(bytes[22], 0x31);
    assert_eq!(&bytes[23..72], value.as_bytes());
}

#[test]
fn patch_class_member_by_name_updates_member_in_place() {
    let mut graph = DeserializedRecord {
        root_id: 1,
        header_id: -1,
        records: HashMap::from([(
            1,
            Record::Class(Class {
                class_type_id: 0,
                members: vec![Member::Primitive(Primitive::Int32(10))],
            }),
        )]),
        class_types: vec![ClassType {
            name: "CampaignSave".to_string(),
            library_id: 2,
            system_class: false,
            member_names: vec!["coinBank".to_string()],
            member_types: vec![MemberType::Primitive(PrimitiveType::Int32)],
        }],
        record_metadata: HashMap::new(),
        record_order: vec![1],
    };

    graph
        .patch_class_member(1, "coinBank", Member::Primitive(Primitive::Int32(99)))
        .expect("patch should succeed");

    let class = graph.records[&1].as_class();
    assert_eq!(class.members[0], Member::Primitive(Primitive::Int32(99)));
}

#[test]
fn validate_graph_rejects_missing_reference_record() {
    let graph = DeserializedRecord {
        root_id: 1,
        header_id: -1,
        records: HashMap::from([(
            1,
            Record::Class(Class { class_type_id: 0, members: vec![Member::Reference(42)] }),
        )]),
        class_types: vec![ClassType {
            name: "CampaignSave".to_string(),
            library_id: 2,
            system_class: false,
            member_names: vec!["stats".to_string()],
            member_types: vec![MemberType::Object],
        }],
        record_metadata: HashMap::new(),
        record_order: vec![1],
    };

    let error = graph.validate_graph().expect_err("graph should be invalid");
    assert!(error.contains("references missing record 42"));
}

#[test]
fn serialize_checked_reports_missing_root() {
    let source = DeserializedRecord {
        root_id: 5,
        header_id: -1,
        records: HashMap::new(),
        class_types: Vec::new(),
        record_metadata: HashMap::new(),
        record_order: Vec::new(),
    };
    assert_eq!(serialize_checked(&source), Err("Missing root record 5".to_string()));
}

#[test]
fn serialized_output_is_framed_by_header_and_end_record() {
    let source = DeserializedRecord {
        root_id: 1,
        header_id: -1,
        records: HashMap::from([(1, Record::String("x".to_string()))]),
        class_types: Vec::new(),
        record_metadata: HashMap::new(),
        record_order: Vec::new(),
    };
    let bytes = serialize(&source);
    let mut expected = Vec::new();
    header(&mut expected);
    write_u8(&mut expected, 6);
    write_i32(&mut expected, 1);
    write_string(&mut expected, "x");
    write_u8(&mut expected, 11);
    assert_eq!(bytes, expected);
}

#[test]
fn parse_rejects_truncated_input() {
    let bytes = vec![0u8, 1, 0];
    assert!(parse(&bytes).is_err());
}

#[test]
fn null_multiple_uses_short_form_up_to_255() {
    let mut records = HashMap::new();
    records.insert(
        1,
        Record::Class(Class {
            class_type_id: 0,
            members: vec![Member::NullMultiple(3), Member::NullMultiple(300)],
        }),
    );
    let source = DeserializedRecord {
        root_id: 1,
        header_id: -1,
        records,
        class_types: vec![ClassType {
            name: "R".to_string(),
            library_id: 2,
            system_class: false,
            member_names: vec!["a".to_string(), "b".to_string()],
            member_types: vec![MemberType::Object, MemberType::Object],
        }],
        record_metadata: HashMap::new(),
        record_order: Vec::new(),
    };
    let bytes = serialize_checked(&source).expect("serialize should succeed");
    let n = bytes.len();
    // ... members: 13 03, then 14 + i32 300, then the end record
    assert_eq!(&bytes[n - 8..], &[13u8, 3, 14, 44, 1, 0, 0, 11]);
}
