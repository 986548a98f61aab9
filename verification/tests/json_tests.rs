use std::collections::HashMap;

use bad_north_save::json::decoder::JsonDecoder;
use bad_north_save::json::encoder::JsonEncoder;
use bad_north_save::json::value::{JsonNumber, JsonValue, NumberKind};
use bad_north_save::records::{
    Class, ClassType, DeserializedRecord, Member, MemberType, Primitive, PrimitiveType, Record,
    RecordMetadata,
};

/// A JSON integer as a parser reads it, with its float readings.
fn num(i: i64) -> JsonValue {
    let kind = if i >= 0 { NumberKind::PosInt(i as u64) } else { NumberKind::NegInt(i) };
    JsonValue::Number(JsonNumber {
        kind,
        as_double: Some((i as f64).to_bits()),
        as_single: Some(((i as f64) as f32).to_bits()),
    })
}

fn s(v: &str) -> JsonValue {
    JsonValue::String(v.to_string())
}

fn obj(entries: Vec<(&str, JsonValue)>) -> JsonValue {
    JsonValue::Object(entries.into_iter().map(|(k, v)| (k.to_string(), v)).collect())
}

fn field<'a>(v: &'a JsonValue, key: &str) -> &'a JsonValue {
    v.get(key).expect("member should be present")
}

fn make_simple_record(member_name: &str, value: i32) -> (DeserializedRecord, i32) {
    let class_type_id = 0;
    let record_id = 1;
    let class_types = vec![ClassType {
        name: "HeroStats".to_string(),
        library_id: 2,
        system_class: false,
        member_names: vec![member_name.to_string()],
        member_types: vec![MemberType::Primitive(PrimitiveType::Int32)],
    }];
    let mut records = HashMap::new();
    records.insert(
        record_id,
        Record::Class(Class {
            class_type_id,
            members: vec![Member::Primitive(Primitive::Int32(value))],
        }),
    );
    (
        DeserializedRecord {
            root_id: record_id,
            header_id: -1,
            records,
            class_types,
            record_metadata: HashMap::new(),
            record_order: vec![record_id],
        },
        record_id,
    )
}

#[test]
fn decode_rejects_class_member_count_mismatch() {
    let value = obj(vec![
        ("root_id", num(1)),
        ("header_id", num(-1)),
        (
            "class_types",
            JsonValue::Array(vec![obj(vec![
                ("id", num(0)),
                ("name", s("Root")),
                ("library_id", num(2)),
                ("system_class", JsonValue::Bool(false)),
                ("member_names", JsonValue::Array(vec![s("a"), s("b")])),
                (
                    "member_types",
                    JsonValue::Array(vec![
                        obj(vec![("type", s("Primitive")), ("primitive_type", s("Int32"))]),
                        obj(vec![("type", s("Object"))]),
                    ]),
                ),
            ])]),
        ),
        (
            "records",
            obj(vec![(
                "1",
                obj(vec![
                    ("type", s("Class")),
                    ("class_type_id", num(0)),
                    (
                        "members",
                        JsonValue::Array(vec![obj(vec![("type", s("Int32")), ("value", num(1))])]),
                    ),
                ]),
            )]),
        ),
    ]);

    let error = JsonDecoder::decode(&value).expect_err("should fail");
    assert!(error.contains("members count mismatch: expected 2, got 1"));
}

#[test]
fn normalize_member_name_leaves_plain_names_unchanged() {
    assert_eq!(JsonEncoder::normalize_member_name("maxSoldiers"), "maxSoldiers");
    assert_eq!(JsonEncoder::normalize_member_name("serializedVersion"), "serializedVersion");
    assert_eq!(JsonEncoder::normalize_member_name("id"), "id");
}

#[test]
fn normalize_member_name_strips_auto_property_backing_field() {
    assert_eq!(JsonEncoder::normalize_member_name("<maxSoldiers>k__BackingField"), "maxSoldiers");
    assert_eq!(JsonEncoder::normalize_member_name("<squadLevel>k__BackingField"), "squadLevel");
}

#[test]
fn normalize_member_name_strips_explicit_interface_backing_field() {
    assert_eq!(
        JsonEncoder::normalize_member_name("<Voxels.TowerDefense.IHeroStats.soldiersLost>k__BackingField"),
        "soldiersLost"
    );
    assert_eq!(
        JsonEncoder::normalize_member_name("<Voxels.TowerDefense.IHeroStats.vikingsKilled>k__BackingField"),
        "vikingsKilled"
    );
}

#[test]
fn encode_members_uses_normalized_name_for_auto_property_backing_field() {
    let (rec, root_id) = make_simple_record("<maxSoldiers>k__BackingField", 8);
    let encoded = JsonEncoder::new(rec).encode();

    let records = field(&encoded, "records");
    let class_record = field(records, &root_id.to_string());
    let members = field(class_record, "members").as_array().unwrap();
    assert_eq!(field(&members[0], "name").as_str(), Some("maxSoldiers"));
    assert_eq!(field(&members[0], "value").as_i64(), Some(8));
}

#[test]
fn encode_members_uses_normalized_name_for_explicit_interface_backing_field() {
    let (rec, root_id) =
        make_simple_record("<Voxels.TowerDefense.IHeroStats.soldiersLost>k__BackingField", 3);
    let encoded = JsonEncoder::new(rec).encode();

    let records = field(&encoded, "records");
    let class_record = field(records, &root_id.to_string());
    let members = field(class_record, "members").as_array().unwrap();
    assert_eq!(field(&members[0], "name").as_str(), Some("soldiersLost"));
    assert_eq!(field(&members[0], "value").as_i64(), Some(3));
}

#[test]
fn encode_class_types_preserves_original_backing_field_name_for_binary_roundtrip() {
    let (rec, _) = make_simple_record("<maxSoldiers>k__BackingField", 8);
    let encoded = JsonEncoder::new(rec).encode();

    let class_types = field(&encoded, "class_types").as_array().unwrap();
    let member_names = field(&class_types[0], "member_names").as_array().unwrap();
    assert_eq!(member_names[0].as_str(), Some("<maxSoldiers>k__BackingField"));
}

#[test]
fn encode_then_decode_gives_the_graph_back() {
    let mut records = HashMap::new();
    records.insert(2, Record::BinaryLibrary("Assembly-CSharp".to_string()));
    records.insert(3, Record::String("hello".to_string()));
    records.insert(
        1,
        Record::Class(Class {
            class_type_id: 0,
            members: vec![
                Member::Primitive(Primitive::Int32(-19)),
                Member::Reference(3),
                Member::NullMultiple(4),
                Member::Primitive(Primitive::Char('é')),
            ],
        }),
    );
    records.insert(
        4,
        Record::PrimitiveArray(PrimitiveType::UInt64, vec![Primitive::UInt64(u64::MAX), Primitive::Null]),
    );
    records.insert(5, Record::BinaryArray(MemberType::Object, vec![Member::Null, Member::Reference(1)]));
    let rec = DeserializedRecord {
        root_id: 1,
        header_id: -1,
        records,
        class_types: vec![ClassType {
            name: "CampaignSave".to_string(),
            library_id: 2,
            system_class: false,
            member_names: vec!["v".to_string(), "name".to_string(), "n".to_string(), "c".to_string()],
            member_types: vec![
                MemberType::Primitive(PrimitiveType::Int32),
                MemberType::String,
                MemberType::Object,
                MemberType::Primitive(PrimitiveType::Char),
            ],
        }],
        record_metadata: HashMap::from([(
            1,
            RecordMetadata { original_record_type: 5, start_offset: 17, end_offset: 90, original_byte_length: 73 },
        )]),
        record_order: vec![1, 2, 3],
    };
    let expected = rec.clone();
    let encoded = JsonEncoder::new(rec).encode();
    let decoded = JsonDecoder::decode(&encoded).expect("decode should succeed");
    assert_eq!(decoded, expected);
}

#[test]
fn decode_reports_missing_root() {
    let value = obj(vec![("header_id", num(-1))]);
    assert_eq!(JsonDecoder::decode(&value).unwrap_err(), "Missing or invalid root_id");
}

#[test]
fn decode_reports_unknown_record_type() {
    let value = obj(vec![
        ("root_id", num(1)),
        ("header_id", num(-1)),
        ("class_types", JsonValue::Array(vec![])),
        ("records", obj(vec![("1", obj(vec![("type", s("Bogus"))]))])),
    ]);
    assert_eq!(JsonDecoder::decode(&value).unwrap_err(), "Unknown record type: Bogus");
}

#[test]
fn decode_reports_bad_record_id() {
    let value = obj(vec![
        ("root_id", num(1)),
        ("header_id", num(-1)),
        ("class_types", JsonValue::Array(vec![])),
        ("records", obj(vec![("x1", obj(vec![("type", s("String")), ("value", s("a"))]))])),
    ]);
    assert_eq!(JsonDecoder::decode(&value).unwrap_err(), "Invalid record id: x1");
}

#[test]
fn decode_pads_class_types_up_to_their_ids() {
    let ct = obj(vec![
        ("id", num(2)),
        ("name", s("T")),
        ("library_id", num(7)),
        ("system_class", JsonValue::Bool(true)),
        ("member_names", JsonValue::Array(vec![num(5)])),
        ("member_types", JsonValue::Array(vec![obj(vec![("type", s("Object"))])])),
    ]);
    let value = obj(vec![
        ("root_id", num(1)),
        ("header_id", num(-1)),
        ("class_types", JsonValue::Array(vec![ct])),
        ("records", obj(vec![])),
    ]);
    let rec = JsonDecoder::decode(&value).expect("decode should succeed");
    assert_eq!(rec.class_types.len(), 3);
    assert_eq!(rec.class_types[0].name, "");
    assert_eq!(rec.class_types[2].name, "T");
    assert_eq!(rec.class_types[2].member_names, vec!["".to_string()]);
    assert!(rec.record_order.is_empty());
    assert!(rec.record_metadata.is_empty());
}

#[test]
fn decode_primitive_type_names() {
    assert_eq!(JsonDecoder::decode_primitive_type_name("Int64"), Ok(PrimitiveType::Int64));
    assert_eq!(
        JsonDecoder::decode_primitive_type_name("Float"),
        Err("Unknown primitive type: Float".to_string())
    );
}

#[test]
fn non_finite_double_is_written_as_null() {
    let mut records = HashMap::new();
    records.insert(1, Record::PrimitiveArray(PrimitiveType::Double, vec![Primitive::Double(f64::NAN.to_bits())]));
    let rec = DeserializedRecord {
        root_id: 1,
        header_id: 0,
        records,
        class_types: vec![],
        record_metadata: HashMap::new(),
        record_order: vec![],
    };
    let encoded = JsonEncoder::new(rec).encode();
    let r = field(field(&encoded, "records"), "1");
    let values = field(r, "values").as_array().unwrap();
    assert!(matches!(field(&values[0], "value"), JsonValue::Null));
}

#[test]
fn null_primitive_member_keeps_its_kind_through_json() {
    let mut records = HashMap::new();
    records.insert(
        1,
        Record::Class(Class {
            class_type_id: 0,
            members: vec![Member::Primitive(Primitive::Null), Member::Null],
        }),
    );
    records.insert(2, Record::BinaryArray(MemberType::Object, vec![Member::Primitive(Primitive::Null), Member::Null]));
    let rec = DeserializedRecord {
        root_id: 1,
        header_id: -1,
        records,
        class_types: vec![ClassType {
            name: "Holder".to_string(),
            library_id: 2,
            system_class: false,
            member_names: vec!["p".to_string(), "o".to_string()],
            member_types: vec![MemberType::Primitive(PrimitiveType::Null), MemberType::Object],
        }],
        record_metadata: HashMap::new(),
        record_order: Vec::new(),
    };
    let expected = rec.clone();
    let encoded = JsonEncoder::new(rec).encode();
    let decoded = JsonDecoder::decode(&encoded).expect("decode should succeed");
    assert_eq!(decoded, expected);
}

fn document_with_member(member: JsonValue, member_type: JsonValue) -> JsonValue {
    obj(vec![
        ("root_id", num(1)),
        ("header_id", num(-1)),
        (
            "class_types",
            JsonValue::Array(vec![obj(vec![
                ("id", num(0)),
                ("name", s("Root")),
                ("library_id", num(2)),
                ("system_class", JsonValue::Bool(false)),
                ("member_names", JsonValue::Array(vec![s("a")])),
                ("member_types", JsonValue::Array(vec![member_type])),
            ])]),
        ),
        (
            "records",
            obj(vec![(
                "1",
                obj(vec![
                    ("type", s("Class")),
                    ("class_type_id", num(0)),
                    ("members", JsonValue::Array(vec![member])),
                ]),
            )]),
        ),
    ])
}

#[test]
fn decode_refuses_values_out_of_range() {
    let object = || obj(vec![("type", s("Object"))]);
    let cases: Vec<(JsonValue, JsonValue, &str)> = vec![
        (obj(vec![("type", s("Int16")), ("value", num(70000))]), object(), "int16 value out of range"),
        (obj(vec![("type", s("Int8")), ("value", num(-129))]), object(), "int8 value out of range"),
        (obj(vec![("type", s("Byte")), ("value", num(256))]), object(), "byte value out of range"),
        (obj(vec![("type", s("UInt16")), ("value", num(65536))]), object(), "uint16 value out of range"),
        (obj(vec![("type", s("Int32")), ("value", num(1 << 31))]), object(), "int32 value out of range"),
        (obj(vec![("type", s("UInt32")), ("value", num(1 << 32))]), object(), "uint32 value out of range"),
        (obj(vec![("type", s("Reference")), ("id", num(1 << 40))]), object(), "reference id out of range"),
        (obj(vec![("type", s("NullMultiple")), ("count", num(-(1 << 40)))]), object(), "null count out of range"),
    ];
    for (member, member_type, message) in cases {
        let doc = document_with_member(member, member_type);
        assert_eq!(JsonDecoder::decode(&doc).unwrap_err(), message);
    }
    let fits = document_with_member(obj(vec![("type", s("Int16")), ("value", num(-32768))]), object());
    let decoded = JsonDecoder::decode(&fits).expect("in range");
    match &decoded.records[&1] {
        Record::Class(c) => assert_eq!(c.members, vec![Member::Primitive(Primitive::Int16(-32768))]),
        _ => panic!("class record expected"),
    }
}

#[test]
fn decode_refuses_ids_out_of_range() {
    let doc = obj(vec![("root_id", num(1 << 33)), ("header_id", num(-1))]);
    assert_eq!(JsonDecoder::decode(&doc).unwrap_err(), "Missing or invalid root_id");
}
