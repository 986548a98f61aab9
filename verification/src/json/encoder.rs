//! Writes a record graph in its JSON form.
use crate::json::value::{entries_view, items_view, JsonNumber, JsonV, JsonValue, NumberKind};
use crate::records::{
    ClassTypeV, DeserializedRecord, DeserializedRecordV, Member, MemberType,
    MemberTypeV, MemberV, Primitive, PrimitiveType, PrimitiveV, Record, RecordMetadata, RecordV,
    members_view, member_types_view, primitives_view, strings_view, class_types_view,
};
use crate::text::{char_to_string, chars_of, int_text, push_int, string_of, to_owned_string};
use vstd::prelude::*;
use vstd::std_specs::iter::IteratorSpec;
use vstd::string::*;

verus! {

broadcast use vstd::std_specs::hash::group_hash_axioms;

/// Writes a record graph as JSON.
pub struct JsonEncoder {
    rec: DeserializedRecord,
}

/// An integer as a JSON number.
pub open spec fn int_json(i: int) -> JsonV {
    JsonV::Number(
        JsonNumber {
            kind: if i >= 0 { NumberKind::PosInt(i as u64) } else { NumberKind::NegInt(i as i64) },
            as_double: None,
            as_single: None,
        },
    )
}

/// Whether binary64 bits stand for a finite number.
pub open spec fn double_is_finite(bits: u64) -> bool {
    (bits >> 52u64) & 0x7FFu64 != 0x7FFu64
}

/// Whether binary32 bits stand for a finite number.
pub open spec fn single_is_finite(bits: u32) -> bool {
    (bits >> 23u32) & 0xFFu32 != 0xFFu32
}

/// A binary64 value as JSON: the number, or null when it is not finite.
pub open spec fn double_json(bits: u64) -> JsonV {
    if double_is_finite(bits) {
        JsonV::Number(JsonNumber { kind: NumberKind::Float, as_double: Some(bits), as_single: None })
    } else {
        JsonV::Null
    }
}

/// A binary32 value as JSON: the number, or null when it is not finite.
pub open spec fn single_json(bits: u32) -> JsonV {
    if single_is_finite(bits) {
        JsonV::Number(JsonNumber { kind: NumberKind::Float, as_double: None, as_single: Some(bits) })
    } else {
        JsonV::Null
    }
}

/// `{"type": t}`.
pub open spec fn tagged(t: Seq<char>) -> JsonV {
    JsonV::Object(seq![("type"@, JsonV::Str(t))])
}

/// `{"type": t, "value": v}`.
pub open spec fn tagged_value(t: Seq<char>, v: JsonV) -> JsonV {
    JsonV::Object(seq![("type"@, JsonV::Str(t)), ("value"@, v)])
}

/// The name of a primitive type.
pub open spec fn primitive_type_name(t: PrimitiveType) -> Seq<char> {
    match t {
        PrimitiveType::Boolean => "Boolean"@,
        PrimitiveType::Byte => "Byte"@,
        PrimitiveType::Char => "Char"@,
        PrimitiveType::Decimal => "Decimal"@,
        PrimitiveType::Double => "Double"@,
        PrimitiveType::Int16 => "Int16"@,
        PrimitiveType::Int32 => "Int32"@,
        PrimitiveType::Int64 => "Int64"@,
        PrimitiveType::Int8 => "Int8"@,
        PrimitiveType::Single => "Single"@,
        PrimitiveType::TimeSpan => "TimeSpan"@,
        PrimitiveType::DateTime => "DateTime"@,
        PrimitiveType::UInt16 => "UInt16"@,
        PrimitiveType::UInt32 => "UInt32"@,
        PrimitiveType::UInt64 => "UInt64"@,
        PrimitiveType::Null => "Null"@,
        PrimitiveType::String => "String"@,
    }
}

/// A member type as JSON.
pub open spec fn enc_member_type(t: MemberTypeV) -> JsonV {
    match t {
        MemberTypeV::Primitive(p) => JsonV::Object(
            seq![("type"@, JsonV::Str("Primitive"@)), ("primitive_type"@, JsonV::Str(primitive_type_name(p)))],
        ),
        MemberTypeV::String => tagged("String"@),
        MemberTypeV::Object => tagged("Object"@),
        MemberTypeV::SystemClass(n) => JsonV::Object(
            seq![("type"@, JsonV::Str("SystemClass"@)), ("name"@, JsonV::Str(n))],
        ),
        MemberTypeV::Class(n, l) => JsonV::Object(
            seq![("type"@, JsonV::Str("Class"@)), ("name"@, JsonV::Str(n)), ("library_id"@, int_json(l as int))],
        ),
        MemberTypeV::ObjectArray => tagged("ObjectArray"@),
        MemberTypeV::StringArray => tagged("StringArray"@),
        MemberTypeV::PrimitiveArray(p) => JsonV::Object(
            seq![("type"@, JsonV::Str("PrimitiveArray"@)), ("primitive_type"@, JsonV::Str(primitive_type_name(p)))],
        ),
    }
}

/// A primitive as JSON: its kind and its value.
pub open spec fn enc_primitive(p: PrimitiveV) -> JsonV {
    match p {
        PrimitiveV::Boolean(b) => tagged_value("Boolean"@, JsonV::Bool(b)),
        PrimitiveV::Byte(b) => tagged_value("Byte"@, int_json(b as int)),
        PrimitiveV::Char(c) => tagged_value("Char"@, JsonV::Str(seq![c])),
        PrimitiveV::Decimal(d) => tagged_value("Decimal"@, JsonV::Str(d)),
        PrimitiveV::Double(d) => tagged_value("Double"@, double_json(d)),
        PrimitiveV::Int16(i) => tagged_value("Int16"@, int_json(i as int)),
        PrimitiveV::Int32(i) => tagged_value("Int32"@, int_json(i as int)),
        PrimitiveV::Int64(i) => tagged_value("Int64"@, int_json(i as int)),
        PrimitiveV::Int8(i) => tagged_value("Int8"@, int_json(i as int)),
        PrimitiveV::Single(f) => tagged_value("Single"@, single_json(f)),
        PrimitiveV::TimeSpan(i) => tagged_value("TimeSpan"@, int_json(i as int)),
        PrimitiveV::DateTime(i) => tagged_value("DateTime"@, int_json(i as int)),
        PrimitiveV::UInt16(u) => tagged_value("UInt16"@, int_json(u as int)),
        PrimitiveV::UInt32(u) => tagged_value("UInt32"@, int_json(u as int)),
        PrimitiveV::UInt64(u) => tagged_value("UInt64"@, int_json(u as int)),
        PrimitiveV::Null => tagged("Null"@),
        PrimitiveV::String(s) => tagged_value("String"@, JsonV::Str(s)),
    }
}

/// A member as JSON; a primitive member that holds no value is tagged
/// `PrimitiveNull`, apart from a null member.
pub open spec fn enc_member(m: MemberV) -> JsonV {
    match m {
        MemberV::Primitive(PrimitiveV::Null) => tagged("PrimitiveNull"@),
        MemberV::Primitive(p) => enc_primitive(p),
        MemberV::Reference(id) => JsonV::Object(seq![("type"@, JsonV::Str("Reference"@)), ("id"@, int_json(id as int))]),
        MemberV::Null => tagged("Null"@),
        MemberV::NullMultiple(c) => JsonV::Object(
            seq![("type"@, JsonV::Str("NullMultiple"@)), ("count"@, int_json(c as int))],
        ),
    }
}

/// The position of the first `c` in `s` at or after `i`.
pub open spec fn first_pos(s: Seq<char>, c: char, i: int) -> Option<int>
    decreases s.len() - i,
{
    if i < 0 || i >= s.len() {
        None
    } else if s[i] == c {
        Some(i)
    } else {
        first_pos(s, c, i + 1)
    }
}

/// The position of the last `c` in `s` before `i`.
pub open spec fn last_pos(s: Seq<char>, c: char, i: int) -> Option<int>
    decreases i,
{
    if i <= 0 || i > s.len() {
        None
    } else if s[i - 1] == c {
        Some(i - 1)
    } else {
        last_pos(s, c, i - 1)
    }
}

/// The name a member is shown by: a compiler-made backing field
/// `<inner>k__BackingField` shows as the last `.`-separated part of `inner`.
pub open spec fn normalized_name(name: Seq<char>) -> Seq<char> {
    if name.len() > 0 && name[0] == '<' {
        let rest = name.drop_first();
        match first_pos(rest, '>', 0) {
            Some(e) => {
                let inner = rest.take(e);
                match last_pos(inner, '.', inner.len() as int) {
                    Some(d) => inner.skip(d + 1),
                    None => inner,
                }
            },
            None => name,
        }
    } else {
        name
    }
}

/// A member of a class record as JSON, with the name it is shown by.
pub open spec fn named(j: JsonV, name: Seq<char>) -> JsonV {
    match j {
        JsonV::Object(es) => JsonV::Object(es.push(("name"@, JsonV::Str(normalized_name(name))))),
        _ => j,
    }
}

/// The number of members shown: as many as members, types and names all have.
pub open spec fn shown_count(ms: Seq<MemberV>, ts: Seq<MemberTypeV>, names: Seq<Seq<char>>) -> nat {
    let a = if ms.len() <= ts.len() { ms.len() } else { ts.len() };
    if a <= names.len() { a } else { names.len() }
}

/// The members of a class record as JSON.
pub open spec fn enc_members(ms: Seq<MemberV>, ts: Seq<MemberTypeV>, names: Seq<Seq<char>>) -> Seq<JsonV> {
    Seq::new(shown_count(ms, ts, names), |i: int| named(enc_member(ms[i]), names[i]))
}

/// A record as JSON; a class record shows its class type's name and members.
pub open spec fn enc_record(cts: Seq<ClassTypeV>, r: RecordV) -> JsonV {
    match r {
        RecordV::BinaryLibrary(n) => tagged_value("BinaryLibrary"@, JsonV::Str(n)),
        RecordV::Class(c) => {
            let ct = cts[c.class_type_id as int];
            JsonV::Object(
                seq![
                    ("type"@, JsonV::Str("Class"@)),
                    ("class_type_id"@, int_json(c.class_type_id as int)),
                    ("class_type_name"@, JsonV::Str(ct.name)),
                    ("members"@, JsonV::Array(enc_members(c.members, ct.member_types, ct.member_names))),
                ],
            )
        },
        RecordV::BinaryArray(t, vals) => JsonV::Object(
            seq![
                ("type"@, JsonV::Str("BinaryArray"@)),
                ("member_type"@, enc_member_type(t)),
                ("values"@, JsonV::Array(vals.map_values(|m: MemberV| enc_member(m)))),
            ],
        ),
        RecordV::PrimitiveArray(t, vals) => JsonV::Object(
            seq![
                ("type"@, JsonV::Str("PrimitiveArray"@)),
                ("primitive_type"@, JsonV::Str(primitive_type_name(t))),
                ("values"@, JsonV::Array(vals.map_values(|p: PrimitiveV| enc_primitive(p)))),
            ],
        ),
        RecordV::String(s) => tagged_value("String"@, JsonV::Str(s)),
    }
}

/// A class type as JSON, with its position as its id.
pub open spec fn enc_class_type(idx: int, ct: ClassTypeV) -> JsonV {
    JsonV::Object(
        seq![
            ("id"@, int_json(idx)),
            ("name"@, JsonV::Str(ct.name)),
            ("library_id"@, int_json(ct.library_id as int)),
            ("system_class"@, JsonV::Bool(ct.system_class)),
            ("member_names"@, JsonV::Array(ct.member_names.map_values(|n: Seq<char>| JsonV::Str(n)))),
            ("member_types"@, JsonV::Array(ct.member_types.map_values(|t: MemberTypeV| enc_member_type(t)))),
        ],
    )
}

/// A metadata entry as JSON.
pub open spec fn enc_metadata(m: RecordMetadata) -> JsonV {
    JsonV::Object(
        seq![
            ("original_record_type"@, int_json(m.original_record_type as int)),
            ("start_offset"@, int_json(m.start_offset as int)),
            ("end_offset"@, int_json(m.end_offset as int)),
            ("original_byte_length"@, int_json(m.original_byte_length as int)),
        ],
    )
}

/// `ids` lists the keys of `dom`, each once, in some order.
pub open spec fn lists_keys(ids: Seq<i32>, dom: Set<i32>) -> bool {
    &&& ids.to_set() == dom
    &&& ids.len() == dom.len()
}

/// The records object: one member per record, keyed by its decimal id.
pub open spec fn records_object(d: DeserializedRecordV, ids: Seq<i32>) -> Seq<(Seq<char>, JsonV)> {
    ids.map_values(|id: i32| (int_text(id as int), enc_record(d.class_types, d.records[id])))
}

/// The metadata object: one member per entry, keyed by its decimal id.
pub open spec fn metadata_object(d: DeserializedRecordV, ids: Seq<i32>) -> Seq<(Seq<char>, JsonV)> {
    ids.map_values(|id: i32| (int_text(id as int), enc_metadata(d.record_metadata[id])))
}

/// The JSON document of a record graph, with its records and metadata listed
/// in the orders `rids` and `mids`.
pub open spec fn enc_document(d: DeserializedRecordV, rids: Seq<i32>, mids: Seq<i32>) -> JsonV {
    JsonV::Object(
        seq![
            ("root_id"@, int_json(d.root_id as int)),
            ("header_id"@, int_json(d.header_id as int)),
            ("class_types"@, JsonV::Array(Seq::new(d.class_types.len(), |i: int| enc_class_type(i, d.class_types[i])))),
            ("records"@, JsonV::Object(records_object(d, rids))),
            ("record_metadata"@, JsonV::Object(metadata_object(d, mids))),
            ("record_order"@, JsonV::Array(d.record_order.map_values(|id: i32| int_json(id as int)))),
        ],
    )
}

/// `j` is the JSON document of `d`, its records and metadata in some order.
pub open spec fn encodes(d: DeserializedRecordV, j: JsonV) -> bool {
    exists|rids: Seq<i32>, mids: Seq<i32>|
        lists_keys(rids, d.records.dom()) && lists_keys(mids, d.record_metadata.dom()) && j
            == enc_document(d, rids, mids)
}

/// Whether every class record's class type exists, which encoding needs.
pub open spec fn class_ids_valid(d: DeserializedRecordV) -> bool {
    forall|id: i32| #[trigger] d.records.contains_key(id) ==> (d.records[id] matches RecordV::Class(c)
        ==> c.class_type_id < d.class_types.len())
}

/// A JSON number from a signed integer.
fn int_value(i: i64) -> (r: JsonValue)
    ensures
        r@ == int_json(i as int),
{
    let kind = if i >= 0 { NumberKind::PosInt(i as u64) } else { NumberKind::NegInt(i) };
    JsonValue::Number(JsonNumber { kind, as_double: None, as_single: None })
}

/// A JSON number from an unsigned integer.
fn uint_value(u: u64) -> (r: JsonValue)
    ensures
        r@ == int_json(u as int),
{
    JsonValue::Number(JsonNumber { kind: NumberKind::PosInt(u), as_double: None, as_single: None })
}

fn double_value(bits: u64) -> (r: JsonValue)
    ensures
        r@ == double_json(bits),
{
    if (bits >> 52u64) & 0x7FFu64 != 0x7FFu64 {
        JsonValue::Number(JsonNumber { kind: NumberKind::Float, as_double: Some(bits), as_single: None })
    } else {
        JsonValue::Null
    }
}

fn single_value(bits: u32) -> (r: JsonValue)
    ensures
        r@ == single_json(bits),
{
    if (bits >> 23u32) & 0xFFu32 != 0xFFu32 {
        JsonValue::Number(JsonNumber { kind: NumberKind::Float, as_double: None, as_single: Some(bits) })
    } else {
        JsonValue::Null
    }
}

fn str_value(s: &str) -> (r: JsonValue)
    ensures
        r@ == JsonV::Str(s@),
{
    JsonValue::String(to_owned_string(s))
}

/// An object with the given members, in order.
fn object(entries: Vec<(String, JsonValue)>) -> (r: JsonValue)
    ensures
        r@ == JsonV::Object(entries_view(entries@)),
{
    JsonValue::Object(entries)
}

/// An array with the given items, in order.
fn array(items: Vec<JsonValue>) -> (r: JsonValue)
    ensures
        r@ == JsonV::Array(items_view(items@)),
{
    JsonValue::Array(items)
}

/// Appends a member to a list of object members.
fn push_entry(es: &mut Vec<(String, JsonValue)>, key: &str, v: JsonValue)
    ensures
        entries_view(final(es)@) == entries_view(old(es)@).push((key@, v@)),
{
    let ghost before = es@;
    es.push((to_owned_string(key), v));
    assert(es@.drop_last() =~= before);
}

/// Appends an item to a list of array items.
fn push_item(items: &mut Vec<JsonValue>, v: JsonValue)
    ensures
        items_view(final(items)@) == items_view(old(items)@).push(v@),
{
    let ghost before = items@;
    items.push(v);
    assert(items@.drop_last() =~= before);
}

/// `{"type": t}`.
fn tagged_object(t: &str) -> (r: JsonValue)
    ensures
        r@ == tagged(t@),
{
    let mut es: Vec<(String, JsonValue)> = Vec::new();
    push_entry(&mut es, "type", str_value(t));
    assert(entries_view(es@) =~= seq![("type"@, JsonV::Str(t@))]);
    object(es)
}

/// `{"type": t, "value": v}`.
fn tagged_value_object(t: &str, v: JsonValue) -> (r: JsonValue)
    ensures
        r@ == tagged_value(t@, v@),
{
    let mut es: Vec<(String, JsonValue)> = Vec::new();
    push_entry(&mut es, "type", str_value(t));
    push_entry(&mut es, "value", v);
    assert(entries_view(es@) =~= seq![("type"@, JsonV::Str(t@)), ("value"@, v@)]);
    object(es)
}

/// `{"type": t, key: v}`.
fn tagged_pair_object(t: &str, key: &str, v: JsonValue) -> (r: JsonValue)
    ensures
        r@ == JsonV::Object(seq![("type"@, JsonV::Str(t@)), (key@, v@)]),
{
    let mut es: Vec<(String, JsonValue)> = Vec::new();
    push_entry(&mut es, "type", str_value(t));
    push_entry(&mut es, key, v);
    assert(entries_view(es@) =~= seq![("type"@, JsonV::Str(t@)), (key@, v@)]);
    object(es)
}

impl View for JsonEncoder {
    type V = DeserializedRecordV;

    closed spec fn view(&self) -> DeserializedRecordV {
        self.rec@
    }
}

impl JsonEncoder {
    /// The ids of the records in the order the record map is walked.
    pub closed spec fn record_key_order(&self) -> Seq<i32> {
        vstd::std_specs::hash::into_iter(vstd::std_specs::hash::spec_hash_map_iter(&self.rec.records)).map_values(
            |p: (i32, Record)| p.0,
        )
    }

    /// The ids of the metadata entries in the order the metadata map is walked.
    pub closed spec fn metadata_key_order(&self) -> Seq<i32> {
        vstd::std_specs::hash::into_iter(
            vstd::std_specs::hash::spec_hash_map_iter(&self.rec.record_metadata),
        ).map_values(|p: (i32, RecordMetadata)| p.0)
    }

    /// An encoder for `rec`.
    pub fn new(rec: DeserializedRecord) -> (e: Self)
        ensures
            e@ == rec@,
    {
        JsonEncoder { rec }
    }

    /// The JSON document of the graph (records and metadata in the order the
    /// graph's maps hold them).
    pub fn encode(self) -> (j: JsonValue)
        requires
            class_ids_valid(self@),
        ensures
            encodes(self@, j@),
            j@ == enc_document(self@, self.record_key_order(), self.metadata_key_order()),
    {
        let ghost d = self@;
        let mut es: Vec<(String, JsonValue)> = Vec::new();
        push_entry(&mut es, "root_id", int_value(self.rec.root_id as i64));
        push_entry(&mut es, "header_id", int_value(self.rec.header_id as i64));
        let class_types = self.encode_class_types();
        push_entry(&mut es, "class_types", array(class_types));
        let (records, Ghost(rids)) = self.encode_records();
        push_entry(&mut es, "records", object(records));
        let (metadata, Ghost(mids)) = self.encode_record_metadata();
        push_entry(&mut es, "record_metadata", object(metadata));
        let mut order: Vec<JsonValue> = Vec::new();
        let mut i: usize = 0;
        while i < self.rec.record_order.len()
            invariant
                i <= self.rec.record_order@.len(),
                items_view(order@) == self.rec.record_order@.take(i as int).map_values(|id: i32| int_json(id as int)),
            decreases self.rec.record_order@.len() - i,
        {
            push_item(&mut order, int_value(self.rec.record_order[i] as i64));
            assert(self.rec.record_order@.take(i + 1).map_values(|id: i32| int_json(id as int))
                =~= self.rec.record_order@.take(i as int).map_values(|id: i32| int_json(id as int)).push(
                int_json(self.rec.record_order@[i as int] as int),
            ));
            i = i + 1;
        }
        assert(self.rec.record_order@.take(i as int) =~= self.rec.record_order@);
        push_entry(&mut es, "record_order", array(order));
        assert(entries_view(es@) =~= seq![
            ("root_id"@, int_json(d.root_id as int)),
            ("header_id"@, int_json(d.header_id as int)),
            ("class_types"@, JsonV::Array(Seq::new(d.class_types.len(), |i: int| enc_class_type(i, d.class_types[i])))),
            ("records"@, JsonV::Object(records_object(d, rids))),
            ("record_metadata"@, JsonV::Object(metadata_object(d, mids))),
            ("record_order"@, JsonV::Array(d.record_order.map_values(|id: i32| int_json(id as int)))),
        ]);
        let j = object(es);
        assert(j@ == enc_document(d, rids, mids));
        j
    }

    fn encode_class_types(&self) -> (r: Vec<JsonValue>)
        ensures
            items_view(r@) == Seq::new(self@.class_types.len(), |i: int| enc_class_type(i, self@.class_types[i])),
    {
        let ghost cts = self@.class_types;
        let mut types: Vec<JsonValue> = Vec::new();
        let mut idx: usize = 0;
        while idx < self.rec.class_types.len()
            invariant
                cts == self@.class_types,
                cts == class_types_view(self.rec.class_types@),
                idx <= self.rec.class_types@.len(),
                items_view(types@) == Seq::new(idx as nat, |i: int| enc_class_type(i, cts[i])),
            decreases self.rec.class_types@.len() - idx,
        {
            let class_type = &self.rec.class_types[idx];
            let mut es: Vec<(String, JsonValue)> = Vec::new();
            push_entry(&mut es, "id", uint_value(idx as u64));
            push_entry(&mut es, "name", str_value(class_type.name.as_str()));
            push_entry(&mut es, "library_id", int_value(class_type.library_id as i64));
            push_entry(&mut es, "system_class", JsonValue::Bool(class_type.system_class));
            let mut names: Vec<JsonValue> = Vec::new();
            let mut k: usize = 0;
            while k < class_type.member_names.len()
                invariant
                    k <= class_type.member_names@.len(),
                    items_view(names@) == strings_view(class_type.member_names@).take(k as int).map_values(
                        |n: Seq<char>| JsonV::Str(n),
                    ),
                decreases class_type.member_names@.len() - k,
            {
                push_item(&mut names, str_value(class_type.member_names[k].as_str()));
                assert(strings_view(class_type.member_names@).take(k + 1).map_values(|n: Seq<char>| JsonV::Str(n))
                    =~= strings_view(class_type.member_names@).take(k as int).map_values(
                    |n: Seq<char>| JsonV::Str(n),
                ).push(JsonV::Str(class_type.member_names@[k as int]@)));
                k = k + 1;
            }
            assert(strings_view(class_type.member_names@).take(k as int) =~= strings_view(class_type.member_names@));
            push_entry(&mut es, "member_names", array(names));
            let member_types = self.encode_member_types(class_type.member_types.as_slice());
            push_entry(&mut es, "member_types", array(member_types));
            let ghost ct = cts[idx as int];
            assert(ct == class_type@);
            assert(entries_view(es@) =~= seq![
                ("id"@, int_json(idx as int)),
                ("name"@, JsonV::Str(ct.name)),
                ("library_id"@, int_json(ct.library_id as int)),
                ("system_class"@, JsonV::Bool(ct.system_class)),
                ("member_names"@, JsonV::Array(ct.member_names.map_values(|n: Seq<char>| JsonV::Str(n)))),
                ("member_types"@, JsonV::Array(ct.member_types.map_values(|t: MemberTypeV| enc_member_type(t)))),
            ]);
            let item = object(es);
            assert(item@ == enc_class_type(idx as int, ct));
            push_item(&mut types, item);
            assert(items_view(types@) =~= Seq::new((idx + 1) as nat, |i: int| enc_class_type(i, cts[i])));
            idx = idx + 1;
        }
        types
    }

    fn encode_records(&self) -> (r: (Vec<(String, JsonValue)>, Ghost<Seq<i32>>))
        requires
            class_ids_valid(self@),
        ensures
            r.1@ == self.record_key_order(),
            lists_keys(r.1@, self@.records.dom()),
            entries_view(r.0@) == records_object(self@, r.1@),
    {
        let ghost d = self@;
        let ghost m = self.rec.records@;
        let mut out: Vec<(String, JsonValue)> = Vec::new();
        let ghost mut ids: Seq<i32> = Seq::empty();
        for (id, record) in it: self.rec.records.iter()
            invariant
                d == self@,
                m == self.rec.records@,
                class_ids_valid(d),
                it.seq() == vstd::std_specs::hash::spec_hash_map_iter(&self.rec.records).remaining(),
                vstd::std_specs::hash::into_iter(vstd::std_specs::hash::spec_hash_map_iter(&self.rec.records))
                    == it.seq().unref(),
                ids.len() == it.index(),
                forall|j: int| 0 <= j < it.index() ==> ids[j] == *it.seq()[j].0,
                entries_view(out@) == records_object(d, ids),
        {
            proof {
                vstd::std_specs::hash::axiom_spec_hash_map_iter(&self.rec.records);
                let v = vstd::std_specs::hash::spec_hash_map_iter(&self.rec.records).remaining();
                let j = it.index() as int;
                assert(m.contains_key(*v[j].0) && m[*v[j].0] == *v[j].1);
            }
            assert(d.records.contains_key(*id));
            assert(d.records[*id] == record@);
            let encoded = self.encode_record(record);
            let mut key = String::new();
            push_int(&mut key, *id as i128);
            let ghost before = out@;
            let ghost entry = (key@, encoded@);
            out.push((key, encoded));
            proof {
                assert(out@.drop_last() =~= before);
                assert(entries_view(out@) == entries_view(before).push(entry));
                let old_ids = ids;
                ids = ids.push(*id);
                assert(records_object(d, ids) =~= records_object(d, old_ids).push(
                    (int_text(*id as int), enc_record(d.class_types, d.records[*id])),
                ));
            }
        }
        proof {
            vstd::std_specs::hash::axiom_spec_hash_map_iter(&self.rec.records);
            let v = vstd::std_specs::hash::spec_hash_map_iter(&self.rec.records).remaining();
            assert forall|y: i32| ids.to_set().contains(y) <==> m.dom().contains(y) by {
                if m.dom().contains(y) {
                    assert(v.contains((&y, &m[y])));
                    let j = choose|j: int| 0 <= j < v.len() && v[j] == (&y, &m[y]);
                    assert(ids[j] == y);
                }
                if ids.to_set().contains(y) {
                    let j = choose|j: int| 0 <= j < ids.len() && ids[j] == y;
                    assert(m.contains_key(*v[j].0));
                }
            }
            assert(ids.to_set() =~= m.dom());
            assert(d.records.dom() =~= m.dom());
            assert(ids =~= self.record_key_order());
        }
        (out, Ghost(ids))
    }

    fn encode_record_metadata(&self) -> (r: (Vec<(String, JsonValue)>, Ghost<Seq<i32>>))
        ensures
            r.1@ == self.metadata_key_order(),
            lists_keys(r.1@, self@.record_metadata.dom()),
            entries_view(r.0@) == metadata_object(self@, r.1@),
    {
        let ghost d = self@;
        let ghost m = self.rec.record_metadata@;
        let mut out: Vec<(String, JsonValue)> = Vec::new();
        let ghost mut ids: Seq<i32> = Seq::empty();
        for (id, item) in it: self.rec.record_metadata.iter()
            invariant
                d == self@,
                m == self.rec.record_metadata@,
                it.seq() == vstd::std_specs::hash::spec_hash_map_iter(&self.rec.record_metadata).remaining(),
                vstd::std_specs::hash::into_iter(vstd::std_specs::hash::spec_hash_map_iter(&self.rec.record_metadata))
                    == it.seq().unref(),
                ids.len() == it.index(),
                forall|j: int| 0 <= j < it.index() ==> ids[j] == *it.seq()[j].0,
                entries_view(out@) == metadata_object(d, ids),
        {
            proof {
                vstd::std_specs::hash::axiom_spec_hash_map_iter(&self.rec.record_metadata);
                let v = vstd::std_specs::hash::spec_hash_map_iter(&self.rec.record_metadata).remaining();
                let j = it.index() as int;
                assert(m.contains_key(*v[j].0) && m[*v[j].0] == *v[j].1);
            }
            let mut es: Vec<(String, JsonValue)> = Vec::new();
            push_entry(&mut es, "original_record_type", uint_value(item.original_record_type as u64));
            push_entry(&mut es, "start_offset", uint_value(item.start_offset as u64));
            push_entry(&mut es, "end_offset", uint_value(item.end_offset as u64));
            push_entry(&mut es, "original_byte_length", uint_value(item.original_byte_length as u64));
            assert(entries_view(es@) =~= seq![
                ("original_record_type"@, int_json(item.original_record_type as int)),
                ("start_offset"@, int_json(item.start_offset as int)),
                ("end_offset"@, int_json(item.end_offset as int)),
                ("original_byte_length"@, int_json(item.original_byte_length as int)),
            ]);
            let encoded = object(es);
            assert(encoded@ == enc_metadata(*item));
            let mut key = String::new();
            push_int(&mut key, *id as i128);
            let ghost before = out@;
            let ghost entry = (key@, encoded@);
            out.push((key, encoded));
            proof {
                assert(out@.drop_last() =~= before);
                assert(entries_view(out@) == entries_view(before).push(entry));
                let old_ids = ids;
                ids = ids.push(*id);
                assert(metadata_object(d, ids) =~= metadata_object(d, old_ids).push(
                    (int_text(*id as int), enc_metadata(d.record_metadata[*id])),
                ));
            }
        }
        proof {
            vstd::std_specs::hash::axiom_spec_hash_map_iter(&self.rec.record_metadata);
            let v = vstd::std_specs::hash::spec_hash_map_iter(&self.rec.record_metadata).remaining();
            assert forall|y: i32| ids.to_set().contains(y) <==> m.dom().contains(y) by {
                if m.dom().contains(y) {
                    assert(v.contains((&y, &m[y])));
                    let j = choose|j: int| 0 <= j < v.len() && v[j] == (&y, &m[y]);
                    assert(ids[j] == y);
                }
                if ids.to_set().contains(y) {
                    let j = choose|j: int| 0 <= j < ids.len() && ids[j] == y;
                    assert(m.contains_key(*v[j].0));
                }
            }
            assert(ids.to_set() =~= m.dom());
            assert(ids =~= self.metadata_key_order());
        }
        (out, Ghost(ids))
    }

    fn encode_record(&self, record: &Record) -> (j: JsonValue)
        requires
            record matches Record::Class(c) ==> c.class_type_id < self@.class_types.len(),
        ensures
            j@ == enc_record(self@.class_types, record@),
    {
        match record {
            Record::BinaryLibrary(name) => tagged_value_object("BinaryLibrary", str_value(name.as_str())),
            Record::Class(class) => {
                let class_type = &self.rec.class_types[class.class_type_id];
                let members = self.encode_members(
                    class.members.as_slice(),
                    class_type.member_types.as_slice(),
                    class_type.member_names.as_slice(),
                );
                let mut es: Vec<(String, JsonValue)> = Vec::new();
                push_entry(&mut es, "type", str_value("Class"));
                push_entry(&mut es, "class_type_id", uint_value(class.class_type_id as u64));
                push_entry(&mut es, "class_type_name", str_value(class_type.name.as_str()));
                push_entry(&mut es, "members", array(members));
                let ghost ct = self@.class_types[class.class_type_id as int];
                assert(ct == class_type@);
                assert(entries_view(es@) =~= seq![
                    ("type"@, JsonV::Str("Class"@)),
                    ("class_type_id"@, int_json(class.class_type_id as int)),
                    ("class_type_name"@, JsonV::Str(ct.name)),
                    ("members"@, JsonV::Array(enc_members(class@.members, ct.member_types, ct.member_names))),
                ]);
                let j = object(es);
                j
            },
            Record::BinaryArray(member_type, vals) => {
                let mut es: Vec<(String, JsonValue)> = Vec::new();
                push_entry(&mut es, "type", str_value("BinaryArray"));
                push_entry(&mut es, "member_type", self.encode_member_type(member_type));
                push_entry(&mut es, "values", array(self.encode_member_values(vals.as_slice(), member_type)));
                assert(entries_view(es@) =~= seq![
                    ("type"@, JsonV::Str("BinaryArray"@)),
                    ("member_type"@, enc_member_type(member_type@)),
                    ("values"@, JsonV::Array(members_view(vals@).map_values(|m: MemberV| enc_member(m)))),
                ]);
                let j = object(es);
                j
            },
            Record::PrimitiveArray(prim_type, vals) => {
                let mut es: Vec<(String, JsonValue)> = Vec::new();
                push_entry(&mut es, "type", str_value("PrimitiveArray"));
                push_entry(&mut es, "primitive_type", str_value(self.encode_primitive_type_name(prim_type)));
                push_entry(&mut es, "values", array(self.encode_primitives(vals.as_slice())));
                assert(entries_view(es@) =~= seq![
                    ("type"@, JsonV::Str("PrimitiveArray"@)),
                    ("primitive_type"@, JsonV::Str(primitive_type_name(*prim_type))),
                    ("values"@, JsonV::Array(primitives_view(vals@).map_values(|p: PrimitiveV| enc_primitive(p)))),
                ]);
                let j = object(es);
                j
            },
            Record::String(s) => tagged_value_object("String", str_value(s.as_str())),
        }
    }

    fn encode_members(&self, members: &[Member], types: &[MemberType], names: &[String]) -> (r: Vec<JsonValue>)
        ensures
            items_view(r@) == enc_members(members_view(members@), member_types_view(types@), strings_view(names@)),
    {
        let ghost ms = members_view(members@);
        let ghost ts = member_types_view(types@);
        let ghost ns = strings_view(names@);
        let mut result: Vec<JsonValue> = Vec::new();
        let mut count = members.len();
        if types.len() < count {
            count = types.len();
        }
        if names.len() < count {
            count = names.len();
        }
        assert(count == shown_count(ms, ts, ns));
        let mut index: usize = 0;
        while index < count
            invariant
                ms == members_view(members@),
                ts == member_types_view(types@),
                ns == strings_view(names@),
                count == shown_count(ms, ts, ns),
                count <= members@.len(),
                count <= types@.len(),
                count <= names@.len(),
                index <= count,
                items_view(result@) == enc_members(ms, ts, ns).take(index as int),
            decreases count - index,
        {
            let encoded = self.encode_member(&members[index], &types[index]);
            let display_name = Self::normalize_member_name(names[index].as_str());
            let encoded = match encoded {
                JsonValue::Object(mut map) => {
                    let ghost before = map@;
                    push_entry(&mut map, "name", JsonValue::String(display_name));
                    JsonValue::Object(map)
                },
                other => other,
            };
            push_item(&mut result, encoded);
            assert(enc_members(ms, ts, ns).take(index + 1) =~= enc_members(ms, ts, ns).take(index as int).push(
                named(enc_member(ms[index as int]), ns[index as int]),
            ));
            index = index + 1;
        }
        assert(enc_members(ms, ts, ns).take(index as int) =~= enc_members(ms, ts, ns));
        result
    }

    /// The name a member is shown by: a compiler-made backing field
    /// `<inner>k__BackingField` shows as the last `.`-separated part of `inner`;
    /// other names show as they are.
    pub fn normalize_member_name(name: &str) -> (r: String)
        ensures
            r@ == normalized_name(name@),
    {
        let chars = chars_of(name);
        let n = chars.len();
        if n > 0 && chars[0] == '<' {
            let ghost rest = chars@.drop_first();
            let mut e: usize = 1;
            while e < n && chars[e] != '>'
                invariant
                    1 <= e <= n,
                    n == chars@.len(),
                    rest == chars@.drop_first(),
                    first_pos(rest, '>', 0) == first_pos(rest, '>', e - 1),
                decreases n - e,
            {
                e = e + 1;
            }
            if e < n {
                let ghost inner = rest.take(e - 1);
                assert(first_pos(rest, '>', e - 1) == Some((e - 1) as int));
                let mut d: usize = e;
                while d > 1 && chars[d - 1] != '.'
                    invariant
                        1 <= d <= e,
                        e < n,
                        n == chars@.len(),
                        inner == rest.take(e - 1),
                        rest == chars@.drop_first(),
                        last_pos(inner, '.', inner.len() as int) == last_pos(inner, '.', d - 1),
                    decreases d,
                {
                    assert(inner[d - 2] == chars@[d - 1]);
                    d = d - 1;
                }
                if d > 1 {
                    assert(inner[d - 2] == chars@[d - 1]);
                    assert(last_pos(inner, '.', d - 1) == Some((d - 2) as int));
                    let r = string_of(&chars, d, e);
                    assert(r@ =~= inner.skip(d - 1));
                    r
                } else {
                    let r = string_of(&chars, 1, e);
                    assert(r@ =~= inner);
                    r
                }
            } else {
                to_owned_string(name)
            }
        } else {
            to_owned_string(name)
        }
    }

    fn encode_member(&self, member: &Member, _member_type: &MemberType) -> (j: JsonValue)
        ensures
            j@ == enc_member(member@),
    {
        match member {
            Member::Primitive(Primitive::Null) => tagged_object("PrimitiveNull"),
            Member::Primitive(p) => self.encode_primitive(p),
            Member::Reference(id) => tagged_pair_object("Reference", "id", int_value(*id as i64)),
            Member::Null => tagged_object("Null"),
            Member::NullMultiple(count) => tagged_pair_object("NullMultiple", "count", int_value(*count as i64)),
        }
    }

    fn encode_primitive(&self, prim: &Primitive) -> (j: JsonValue)
        ensures
            j@ == enc_primitive(prim@),
    {
        match prim {
            Primitive::Boolean(b) => tagged_value_object("Boolean", JsonValue::Bool(*b)),
            Primitive::Byte(b) => tagged_value_object("Byte", uint_value(*b as u64)),
            Primitive::Char(c) => {
                let s = char_to_string(*c);
                tagged_value_object("Char", JsonValue::String(s))
            },
            Primitive::Decimal(d) => tagged_value_object("Decimal", str_value(d.as_str())),
            Primitive::Double(d) => tagged_value_object("Double", double_value(*d)),
            Primitive::Int16(i) => tagged_value_object("Int16", int_value(*i as i64)),
            Primitive::Int32(i) => tagged_value_object("Int32", int_value(*i as i64)),
            Primitive::Int64(i) => tagged_value_object("Int64", int_value(*i)),
            Primitive::Int8(i) => tagged_value_object("Int8", int_value(*i as i64)),
            Primitive::Single(f) => tagged_value_object("Single", single_value(*f)),
            Primitive::TimeSpan(i) => tagged_value_object("TimeSpan", int_value(*i)),
            Primitive::DateTime(i) => tagged_value_object("DateTime", int_value(*i)),
            Primitive::UInt16(u) => tagged_value_object("UInt16", uint_value(*u as u64)),
            Primitive::UInt32(u) => tagged_value_object("UInt32", uint_value(*u as u64)),
            Primitive::UInt64(u) => tagged_value_object("UInt64", uint_value(*u)),
            Primitive::Null => tagged_object("Null"),
            Primitive::String(s) => tagged_value_object("String", str_value(s.as_str())),
        }
    }

    fn encode_primitives(&self, prims: &[Primitive]) -> (r: Vec<JsonValue>)
        ensures
            items_view(r@) == primitives_view(prims@).map_values(|p: PrimitiveV| enc_primitive(p)),
    {
        let ghost ps = primitives_view(prims@);
        let mut out: Vec<JsonValue> = Vec::new();
        let mut i: usize = 0;
        while i < prims.len()
            invariant
                ps == primitives_view(prims@),
                i <= prims@.len(),
                items_view(out@) == ps.take(i as int).map_values(|p: PrimitiveV| enc_primitive(p)),
            decreases prims@.len() - i,
        {
            push_item(&mut out, self.encode_primitive(&prims[i]));
            assert(ps.take(i + 1).map_values(|p: PrimitiveV| enc_primitive(p)) =~= ps.take(i as int).map_values(
                |p: PrimitiveV| enc_primitive(p),
            ).push(enc_primitive(ps[i as int])));
            i = i + 1;
        }
        assert(ps.take(i as int) =~= ps);
        out
    }

    fn encode_member_values(&self, members: &[Member], member_type: &MemberType) -> (r: Vec<JsonValue>)
        ensures
            items_view(r@) == members_view(members@).map_values(|m: MemberV| enc_member(m)),
    {
        let ghost ms = members_view(members@);
        let mut out: Vec<JsonValue> = Vec::new();
        let mut i: usize = 0;
        while i < members.len()
            invariant
                ms == members_view(members@),
                i <= members@.len(),
                items_view(out@) == ms.take(i as int).map_values(|m: MemberV| enc_member(m)),
            decreases members@.len() - i,
        {
            push_item(&mut out, self.encode_member(&members[i], member_type));
            assert(ms.take(i + 1).map_values(|m: MemberV| enc_member(m)) =~= ms.take(i as int).map_values(
                |m: MemberV| enc_member(m),
            ).push(enc_member(ms[i as int])));
            i = i + 1;
        }
        assert(ms.take(i as int) =~= ms);
        out
    }

    fn encode_member_types(&self, types: &[MemberType]) -> (r: Vec<JsonValue>)
        ensures
            items_view(r@) == member_types_view(types@).map_values(|t: MemberTypeV| enc_member_type(t)),
    {
        let ghost ts = member_types_view(types@);
        let mut out: Vec<JsonValue> = Vec::new();
        let mut i: usize = 0;
        while i < types.len()
            invariant
                ts == member_types_view(types@),
                i <= types@.len(),
                items_view(out@) == ts.take(i as int).map_values(|t: MemberTypeV| enc_member_type(t)),
            decreases types@.len() - i,
        {
            push_item(&mut out, self.encode_member_type(&types[i]));
            assert(ts.take(i + 1).map_values(|t: MemberTypeV| enc_member_type(t)) =~= ts.take(i as int).map_values(
                |t: MemberTypeV| enc_member_type(t),
            ).push(enc_member_type(ts[i as int])));
            i = i + 1;
        }
        assert(ts.take(i as int) =~= ts);
        out
    }

    fn encode_member_type(&self, typ: &MemberType) -> (j: JsonValue)
        ensures
            j@ == enc_member_type(typ@),
    {
        match typ {
            MemberType::Primitive(p) => tagged_pair_object(
                "Primitive",
                "primitive_type",
                str_value(self.encode_primitive_type_name(p)),
            ),
            MemberType::String => tagged_object("String"),
            MemberType::Object => tagged_object("Object"),
            MemberType::SystemClass(name) => tagged_pair_object("SystemClass", "name", str_value(name.as_str())),
            MemberType::Class(name, lib_id) => {
                let mut es: Vec<(String, JsonValue)> = Vec::new();
                push_entry(&mut es, "type", str_value("Class"));
                push_entry(&mut es, "name", str_value(name.as_str()));
                push_entry(&mut es, "library_id", int_value(*lib_id as i64));
                assert(entries_view(es@) =~= seq![
                    ("type"@, JsonV::Str("Class"@)),
                    ("name"@, JsonV::Str(name@)),
                    ("library_id"@, int_json(*lib_id as int)),
                ]);
                let j = object(es);
                j
            },
            MemberType::ObjectArray => tagged_object("ObjectArray"),
            MemberType::StringArray => tagged_object("StringArray"),
            MemberType::PrimitiveArray(p) => tagged_pair_object(
                "PrimitiveArray",
                "primitive_type",
                str_value(self.encode_primitive_type_name(p)),
            ),
        }
    }

    fn encode_primitive_type_name(&self, typ: &PrimitiveType) -> (s: &'static str)
        ensures
            s@ == primitive_type_name(*typ),
    {
        match typ {
            PrimitiveType::Boolean => "Boolean",
            PrimitiveType::Byte => "Byte",
            PrimitiveType::Char => "Char",
            PrimitiveType::Decimal => "Decimal",
            PrimitiveType::Double => "Double",
            PrimitiveType::Int16 => "Int16",
            PrimitiveType::Int32 => "Int32",
            PrimitiveType::Int64 => "Int64",
            PrimitiveType::Int8 => "Int8",
            PrimitiveType::Single => "Single",
            PrimitiveType::TimeSpan => "TimeSpan",
            PrimitiveType::DateTime => "DateTime",
            PrimitiveType::UInt16 => "UInt16",
            PrimitiveType::UInt32 => "UInt32",
            PrimitiveType::UInt64 => "UInt64",
            PrimitiveType::Null => "Null",
            PrimitiveType::String => "String",
        }
    }
}

/// The first member named `key` at or after `i`, where one stands at `k`, is one
/// named `key` between `i` and `k`.
pub proof fn lemma_first_with_key_found(es: Seq<(Seq<char>, JsonV)>, key: Seq<char>, i: int, k: int)
    requires
        0 <= i <= k < es.len(),
        es[k].0 == key,
    ensures
        exists|j: int| i <= j <= k && es[j].0 == key && crate::json::value::first_with_key(es, key, i) == Some(es[j].1),
    decreases k - i,
{
    if es[i].0 == key {
        assert(i <= i <= k && es[i].0 == key);
    } else {
        lemma_first_with_key_found(es, key, i + 1, k);
    }
}

/// In the JSON document of a graph, each class record shows under
/// `class_type_name` the name of its own class type.
pub proof fn law_class_record_shows_its_class_type_name(d: DeserializedRecordV, j: JsonV, id: i32)
    requires
        class_ids_valid(d),
        encodes(d, j),
        d.records.contains_key(id),
        d.records[id] is Class,
    ensures
        crate::json::value::field(j, "records"@) matches Some(rs) && crate::json::value::field(rs, int_text(id as int))
            matches Some(r) && crate::json::value::field(r, "class_type_name"@) == Some(
            JsonV::Str(d.class_types[d.records[id]->Class_0.class_type_id as int].name),
        ),
{
    let (rids, mids) = choose|rids: Seq<i32>, mids: Seq<i32>|
        lists_keys(rids, d.records.dom()) && lists_keys(mids, d.record_metadata.dom()) && j
            == enc_document(d, rids, mids);
    reveal_strlit("records");
    reveal_strlit("root_id");
    reveal_strlit("header_id");
    reveal_strlit("class_types");
    reveal_strlit("type");
    reveal_strlit("class_type_id");
    reveal_strlit("class_type_name");
    assert("records"@[1] != "root_id"@[1]);
    assert("records"@ != "root_id"@);
    assert("records"@.len() == 7 && "header_id"@.len() == 9 && "class_types"@.len() == 11);
    assert("records"@ != "header_id"@);
    assert("records"@ != "class_types"@);
    assert("class_type_name"@.len() == 15 && "type"@.len() == 4 && "class_type_id"@.len() == 13);
    assert("class_type_name"@ != "type"@);
    assert("class_type_name"@ != "class_type_id"@);
    reveal_with_fuel(crate::json::value::first_with_key, 5);
    let es = records_object(d, rids);
    assert(crate::json::value::field(j, "records"@) == Some(JsonV::Object(es)));
    assert(rids.to_set().contains(id));
    let k = choose|k: int| 0 <= k < rids.len() && rids[k] == id;
    let key = int_text(id as int);
    assert(es[k].0 == key);
    lemma_first_with_key_found(es, key, 0, k);
    let i = choose|i: int| 0 <= i <= k && es[i].0 == key && crate::json::value::first_with_key(es, key, 0) == Some(es[i].1);
    crate::text::lemma_parse_int_text(id);
    crate::text::lemma_parse_int_text(rids[i]);
    assert(rids[i] == id);
    let c = d.records[id]->Class_0;
    assert(es[i].1 == enc_record(d.class_types, RecordV::Class(c)));
}

} // verus!
