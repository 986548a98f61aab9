//! Reading back the JSON form of a record graph gives the graph.
use crate::json::decoder::{
    name_of, padded, sp_class_type, sp_class_types_seq, sp_decode, sp_member, sp_member_type,
    sp_member_types_seq, sp_members_seq, sp_metadata_entry, sp_metadata_seq, sp_order_seq,
    sp_primitive, sp_primitive_type_name, sp_primitives_seq, sp_record, sp_records_seq,
};
use crate::json::encoder::{
    double_is_finite, enc_class_type, enc_document, enc_member, enc_member_type, enc_members,
    enc_metadata, enc_primitive, enc_record, encodes, int_json, lists_keys, metadata_object, named,
    primitive_type_name, records_object, single_is_finite,
};
use crate::json::value::{as_i64, as_u64, first_with_key, JsonV};
use crate::records::{ClassTypeV, DeserializedRecordV, MemberTypeV, MemberV, PrimitiveType, PrimitiveV, RecordMetadata, RecordV};
use crate::serializer::order::lemma_take_to_set;
use crate::text::{int_text, lemma_parse_int_text};
use vstd::prelude::*;
use vstd::string::*;

verus! {

/// A primitive reads back as itself from JSON: its float values are finite.
pub open spec fn primitive_roundtrips(p: PrimitiveV) -> bool {
    match p {
        PrimitiveV::Double(b) => double_is_finite(b),
        PrimitiveV::Single(b) => single_is_finite(b),
        _ => true,
    }
}

/// A member reads back as itself: its float values are finite.
pub open spec fn member_roundtrips(m: MemberV) -> bool {
    match m {
        MemberV::Primitive(p) => primitive_roundtrips(p),
        _ => true,
    }
}

/// A record reads back as itself: a class record has a class type, one member
/// per member type and a name for each, and all its values read back.
pub open spec fn record_roundtrips(cts: Seq<ClassTypeV>, r: RecordV) -> bool {
    match r {
        RecordV::Class(c) => {
            &&& c.class_type_id < cts.len()
            &&& c.members.len() == cts[c.class_type_id as int].member_types.len()
            &&& c.members.len() <= cts[c.class_type_id as int].member_names.len()
            &&& forall|i: int| 0 <= i < c.members.len() ==> member_roundtrips(#[trigger] c.members[i])
        },
        RecordV::BinaryArray(_, vals) => forall|i: int| 0 <= i < vals.len() ==> member_roundtrips(#[trigger] vals[i]),
        RecordV::PrimitiveArray(_, vals) => forall|i: int|
            0 <= i < vals.len() ==> primitive_roundtrips(#[trigger] vals[i]),
        _ => true,
    }
}

/// A graph reads back as itself: it has at most `usize::MAX` class types and
/// every record reads back.
pub open spec fn graph_roundtrips(d: DeserializedRecordV) -> bool {
    &&& d.class_types.len() <= usize::MAX
    &&& forall|id: i32| #[trigger] d.records.contains_key(id) ==> record_roundtrips(d.class_types, d.records[id])
}

proof fn lemma_int_json_i64(i: int)
    requires
        i64::MIN <= i <= i64::MAX,
    ensures
        as_i64(int_json(i)) == Some(i as i64),
{
}

proof fn lemma_int_json_u64(i: int)
    requires
        0 <= i <= u64::MAX,
    ensures
        as_u64(int_json(i)) == Some(i as u64),
{
}

proof fn lemma_primitive_type_name_roundtrip(t: PrimitiveType)
    ensures
        sp_primitive_type_name(primitive_type_name(t)) == Ok::<PrimitiveType, Seq<char>>(t),
{
    lemma_json_names();
}

proof fn lemma_member_type_roundtrip(t: MemberTypeV)
    ensures
        sp_member_type(enc_member_type(t)) == Ok::<MemberTypeV, Seq<char>>(t),
{
    lemma_json_names();
    reveal_with_fuel(first_with_key, 4);
    match t {
        MemberTypeV::Primitive(p) => lemma_primitive_type_name_roundtrip(p),
        MemberTypeV::PrimitiveArray(p) => lemma_primitive_type_name_roundtrip(p),
        MemberTypeV::Class(n, l) => lemma_int_json_i64(l as int),
        _ => {},
    }
}

/// The lengths and telling characters of the names the JSON form uses.
pub proof fn lemma_json_names()
    ensures
        "Boolean"@.len() == 7,
        "Boolean"@[0] == 'B',
        "Byte"@.len() == 4,
        "Byte"@[0] == 'B',
        "Char"@.len() == 4,
        "Char"@[0] == 'C',
        "Decimal"@.len() == 7,
        "Decimal"@[0] == 'D',
        "Double"@.len() == 6,
        "Double"@[0] == 'D',
        "Int16"@.len() == 5,
        "Int16"@[0] == 'I',
        "Int16"@[3] == '1',
        "Int32"@.len() == 5,
        "Int32"@[0] == 'I',
        "Int32"@[3] == '3',
        "Int64"@.len() == 5,
        "Int64"@[0] == 'I',
        "Int64"@[3] == '6',
        "Int8"@.len() == 4,
        "Int8"@[0] == 'I',
        "Single"@.len() == 6,
        "Single"@[0] == 'S',
        "Single"@[1] == 'i',
        "TimeSpan"@.len() == 8,
        "TimeSpan"@[0] == 'T',
        "DateTime"@.len() == 8,
        "DateTime"@[0] == 'D',
        "UInt16"@.len() == 6,
        "UInt16"@[0] == 'U',
        "UInt16"@[4] == '1',
        "UInt32"@.len() == 6,
        "UInt32"@[0] == 'U',
        "UInt32"@[4] == '3',
        "UInt64"@.len() == 6,
        "UInt64"@[0] == 'U',
        "UInt64"@[4] == '6',
        "String"@.len() == 6,
        "String"@[0] == 'S',
        "String"@[1] == 't',
        "Null"@.len() == 4,
        "Null"@[0] == 'N',
        "Reference"@.len() == 9,
        "Reference"@[0] == 'R',
        "NullMultiple"@.len() == 12,
        "NullMultiple"@[0] == 'N',
        "PrimitiveNull"@.len() == 13,
        "PrimitiveNull"@[0] == 'P',
        "type"@.len() == 4,
        "type"@[0] == 't',
        "value"@.len() == 5,
        "value"@[0] == 'v',
        "name"@.len() == 4,
        "name"@[0] == 'n',
        "id"@.len() == 2,
        "id"@[0] == 'i',
        "count"@.len() == 5,
        "count"@[0] == 'c',
        "primitive_type"@.len() == 14,
        "primitive_type"@[0] == 'p',
        "library_id"@.len() == 10,
        "library_id"@[0] == 'l',
        "Object"@.len() == 6,
        "Object"@[0] == 'O',
        "ObjectArray"@.len() == 11,
        "ObjectArray"@[0] == 'O',
        "StringArray"@.len() == 11,
        "StringArray"@[0] == 'S',
        "StringArray"@[1] == 't',
        "Primitive"@.len() == 9,
        "Primitive"@[0] == 'P',
        "SystemClass"@.len() == 11,
        "SystemClass"@[0] == 'S',
        "SystemClass"@[1] == 'y',
        "Class"@.len() == 5,
        "Class"@[0] == 'C',
        "PrimitiveArray"@.len() == 14,
        "PrimitiveArray"@[0] == 'P',
        "BinaryLibrary"@.len() == 13,
        "BinaryLibrary"@[0] == 'B',
        "BinaryArray"@.len() == 11,
        "BinaryArray"@[0] == 'B',
        "class_type_id"@.len() == 13,
        "class_type_id"@[0] == 'c',
        "class_type_name"@.len() == 15,
        "class_type_name"@[0] == 'c',
        "members"@.len() == 7,
        "members"@[0] == 'm',
        "member_type"@.len() == 11,
        "member_type"@[0] == 'm',
        "values"@.len() == 6,
        "values"@[0] == 'v',
        "member_names"@.len() == 12,
        "member_names"@[0] == 'm',
        "member_names"@[7] == 'n',
        "member_types"@.len() == 12,
        "member_types"@[0] == 'm',
        "member_types"@[7] == 't',
        "system_class"@.len() == 12,
        "system_class"@[0] == 's',
        "system_class"@[1] == 'y',
        "original_record_type"@.len() == 20,
        "original_record_type"@[0] == 'o',
        "original_record_type"@[9] == 'r',
        "start_offset"@.len() == 12,
        "start_offset"@[0] == 's',
        "start_offset"@[1] == 't',
        "end_offset"@.len() == 10,
        "end_offset"@[0] == 'e',
        "original_byte_length"@.len() == 20,
        "original_byte_length"@[0] == 'o',
        "original_byte_length"@[9] == 'b',
        "root_id"@.len() == 7,
        "root_id"@[0] == 'r',
        "root_id"@[1] == 'o',
        "header_id"@.len() == 9,
        "header_id"@[0] == 'h',
        "class_types"@.len() == 11,
        "class_types"@[0] == 'c',
        "records"@.len() == 7,
        "records"@[0] == 'r',
        "records"@[1] == 'e',
        "record_metadata"@.len() == 15,
        "record_metadata"@[0] == 'r',
        "record_order"@.len() == 12,
        "record_order"@[0] == 'r',
{
    reveal_strlit("Boolean");
    reveal_strlit("Byte");
    reveal_strlit("Char");
    reveal_strlit("Decimal");
    reveal_strlit("Double");
    reveal_strlit("Int16");
    reveal_strlit("Int32");
    reveal_strlit("Int64");
    reveal_strlit("Int8");
    reveal_strlit("Single");
    reveal_strlit("TimeSpan");
    reveal_strlit("DateTime");
    reveal_strlit("UInt16");
    reveal_strlit("UInt32");
    reveal_strlit("UInt64");
    reveal_strlit("String");
    reveal_strlit("Null");
    reveal_strlit("Reference");
    reveal_strlit("NullMultiple");
    reveal_strlit("PrimitiveNull");
    reveal_strlit("type");
    reveal_strlit("value");
    reveal_strlit("name");
    reveal_strlit("id");
    reveal_strlit("count");
    reveal_strlit("primitive_type");
    reveal_strlit("library_id");
    reveal_strlit("Object");
    reveal_strlit("ObjectArray");
    reveal_strlit("StringArray");
    reveal_strlit("Primitive");
    reveal_strlit("SystemClass");
    reveal_strlit("Class");
    reveal_strlit("PrimitiveArray");
    reveal_strlit("BinaryLibrary");
    reveal_strlit("BinaryArray");
    reveal_strlit("class_type_id");
    reveal_strlit("class_type_name");
    reveal_strlit("members");
    reveal_strlit("member_type");
    reveal_strlit("values");
    reveal_strlit("member_names");
    reveal_strlit("member_types");
    reveal_strlit("system_class");
    reveal_strlit("original_record_type");
    reveal_strlit("start_offset");
    reveal_strlit("end_offset");
    reveal_strlit("original_byte_length");
    reveal_strlit("root_id");
    reveal_strlit("header_id");
    reveal_strlit("class_types");
    reveal_strlit("records");
    reveal_strlit("record_metadata");
    reveal_strlit("record_order");
}

proof fn lemma_int_facts(p: PrimitiveV)
    ensures
        p matches PrimitiveV::Byte(v) ==> as_u64(int_json(v as int)) == Some(v as u64),
        p matches PrimitiveV::Int16(v) ==> as_i64(int_json(v as int)) == Some(v as i64),
        p matches PrimitiveV::Int32(v) ==> as_i64(int_json(v as int)) == Some(v as i64),
        p matches PrimitiveV::Int64(v) ==> as_i64(int_json(v as int)) == Some(v as i64),
        p matches PrimitiveV::Int8(v) ==> as_i64(int_json(v as int)) == Some(v as i64),
        p matches PrimitiveV::TimeSpan(v) ==> as_i64(int_json(v as int)) == Some(v as i64),
        p matches PrimitiveV::DateTime(v) ==> as_i64(int_json(v as int)) == Some(v as i64),
        p matches PrimitiveV::UInt16(v) ==> as_u64(int_json(v as int)) == Some(v as u64),
        p matches PrimitiveV::UInt32(v) ==> as_u64(int_json(v as int)) == Some(v as u64),
        p matches PrimitiveV::UInt64(v) ==> as_u64(int_json(v as int)) == Some(v as u64),
{
}

/// A primitive reads back from its JSON form.
#[verifier::rlimit(50)]
pub proof fn lemma_primitive_roundtrip(p: PrimitiveV)
    requires
        primitive_roundtrips(p),
    ensures
        sp_primitive(enc_primitive(p)) == Ok::<PrimitiveV, Seq<char>>(p),
{
    lemma_json_names();
    lemma_int_facts(p);
    reveal_with_fuel(first_with_key, 3);
}

/// A member reads back from its JSON form, as an item of an array.
#[verifier::rlimit(50)]
pub proof fn lemma_member_roundtrip(m: MemberV)
    requires
        member_roundtrips(m),
    ensures
        sp_member(enc_member(m)) == Ok::<MemberV, Seq<char>>(m),
{
    lemma_json_names();
    reveal_with_fuel(first_with_key, 3);
    match m {
        MemberV::Primitive(p) => lemma_int_facts(p),
        MemberV::Reference(id) => lemma_int_json_i64(id as int),
        MemberV::NullMultiple(c) => lemma_int_json_i64(c as int),
        _ => {},
    }
}

/// A member reads back from its JSON form with its name added.
#[verifier::rlimit(50)]
pub proof fn lemma_named_member_roundtrip(m: MemberV, name: Seq<char>)
    requires
        member_roundtrips(m),
    ensures
        sp_member(named(enc_member(m), name)) == Ok::<MemberV, Seq<char>>(m),
{
    lemma_json_names();
    reveal_with_fuel(first_with_key, 4);
    match m {
        MemberV::Primitive(p) => lemma_int_facts(p),
        MemberV::Reference(id) => lemma_int_json_i64(id as int),
        MemberV::NullMultiple(c) => lemma_int_json_i64(c as int),
        _ => {},
    }
}

/// Array items read back as the members they encode.
pub proof fn lemma_members_seq_roundtrip(ms: Seq<MemberV>)
    requires
        forall|i: int| 0 <= i < ms.len() ==> member_roundtrips(#[trigger] ms[i]),
    ensures
        sp_members_seq(ms.map_values(|m: MemberV| enc_member(m))) == Ok::<Seq<MemberV>, Seq<char>>(ms),
    decreases ms.len(),
{
    let js = ms.map_values(|m: MemberV| enc_member(m));
    if ms.len() > 0 {
        let init = ms.drop_last();
        assert(js.drop_last() =~= init.map_values(|m: MemberV| enc_member(m)));
        assert forall|i: int| 0 <= i < init.len() implies member_roundtrips(#[trigger] init[i]) by {
            assert(init[i] == ms[i]);
        }
        lemma_members_seq_roundtrip(init);
        lemma_member_roundtrip(ms.last());
        assert(init.push(ms.last()) =~= ms);
    } else {
        assert(ms =~= Seq::<MemberV>::empty());
    }
}

/// The members of a class record read back from their named JSON form.
pub proof fn lemma_named_members_roundtrip(ms: Seq<MemberV>, ts: Seq<MemberTypeV>, names: Seq<Seq<char>>, k: nat)
    requires
        ms.len() == ts.len(),
        ms.len() <= names.len(),
        k <= ms.len(),
        forall|i: int| 0 <= i < ms.len() ==> member_roundtrips(#[trigger] ms[i]),
    ensures
        sp_members_seq(enc_members(ms, ts, names).take(k as int)) == Ok::<Seq<MemberV>, Seq<char>>(ms.take(k as int)),
    decreases k,
{
    let js = enc_members(ms, ts, names);
    assert(js.len() == ms.len());
    if k > 0 {
        lemma_named_members_roundtrip(ms, ts, names, (k - 1) as nat);
        assert(js.take(k as int).drop_last() =~= js.take(k - 1));
        assert(js.take(k as int).last() == named(enc_member(ms[k - 1]), names[k - 1]));
        lemma_named_member_roundtrip(ms[k - 1], names[k - 1]);
        assert(ms.take(k - 1).push(ms[k - 1]) =~= ms.take(k as int));
    } else {
        assert(js.take(0) =~= Seq::<JsonV>::empty());
        assert(ms.take(0) =~= Seq::<MemberV>::empty());
    }
}

/// Array items read back as the primitives they encode.
pub proof fn lemma_primitives_seq_roundtrip(ps: Seq<PrimitiveV>)
    requires
        forall|i: int| 0 <= i < ps.len() ==> primitive_roundtrips(#[trigger] ps[i]),
    ensures
        sp_primitives_seq(ps.map_values(|p: PrimitiveV| enc_primitive(p))) == Ok::<Seq<PrimitiveV>, Seq<char>>(ps),
    decreases ps.len(),
{
    let js = ps.map_values(|p: PrimitiveV| enc_primitive(p));
    if ps.len() > 0 {
        let init = ps.drop_last();
        assert(js.drop_last() =~= init.map_values(|p: PrimitiveV| enc_primitive(p)));
        assert forall|i: int| 0 <= i < init.len() implies primitive_roundtrips(#[trigger] init[i]) by {
            assert(init[i] == ps[i]);
        }
        lemma_primitives_seq_roundtrip(init);
        lemma_primitive_roundtrip(ps.last());
        assert(init.push(ps.last()) =~= ps);
    } else {
        assert(ps =~= Seq::<PrimitiveV>::empty());
    }
}

/// Array items read back as the member types they encode.
pub proof fn lemma_member_types_seq_roundtrip(ts: Seq<MemberTypeV>)
    ensures
        sp_member_types_seq(ts.map_values(|t: MemberTypeV| enc_member_type(t))) == Ok::<Seq<MemberTypeV>, Seq<char>>(ts),
    decreases ts.len(),
{
    let js = ts.map_values(|t: MemberTypeV| enc_member_type(t));
    if ts.len() > 0 {
        let init = ts.drop_last();
        assert(js.drop_last() =~= init.map_values(|t: MemberTypeV| enc_member_type(t)));
        lemma_member_types_seq_roundtrip(init);
        lemma_member_type_roundtrip(ts.last());
        assert(init.push(ts.last()) =~= ts);
    } else {
        assert(ts =~= Seq::<MemberTypeV>::empty());
    }
}

/// The record order reads back from its JSON form.
pub proof fn lemma_order_roundtrip(order: Seq<i32>)
    ensures
        sp_order_seq(order.map_values(|id: i32| int_json(id as int))) == Ok::<Seq<i32>, Seq<char>>(order),
    decreases order.len(),
{
    let js = order.map_values(|id: i32| int_json(id as int));
    if order.len() > 0 {
        let init = order.drop_last();
        assert(js.drop_last() =~= init.map_values(|id: i32| int_json(id as int)));
        lemma_order_roundtrip(init);
        lemma_int_json_i64(order.last() as int);
        assert(init.push(order.last()) =~= order);
    } else {
        assert(order =~= Seq::<i32>::empty());
    }
}

/// A record reads back from its JSON form.
#[verifier::rlimit(50)]
pub proof fn lemma_record_roundtrip(cts: Seq<ClassTypeV>, r: RecordV)
    requires
        record_roundtrips(cts, r),
    ensures
        sp_record(enc_record(cts, r), cts) == Ok::<RecordV, Seq<char>>(r),
{
    lemma_json_names();
    reveal_with_fuel(first_with_key, 5);
    match r {
        RecordV::Class(c) => {
            let ct = cts[c.class_type_id as int];
            lemma_int_json_u64(c.class_type_id as int);
            lemma_named_members_roundtrip(c.members, ct.member_types, ct.member_names, c.members.len());
            let es = enc_members(c.members, ct.member_types, ct.member_names);
            assert(es.take(c.members.len() as int) =~= es);
            assert(c.members.take(c.members.len() as int) =~= c.members);
        },
        RecordV::BinaryArray(t, vals) => {
            lemma_member_type_roundtrip(t);
            lemma_members_seq_roundtrip(vals);
        },
        RecordV::PrimitiveArray(t, vals) => {
            lemma_primitive_type_name_roundtrip(t);
            lemma_primitives_seq_roundtrip(vals);
        },
        _ => {},
    }
}

/// A class type reads back from its JSON form, with its position as its id.
#[verifier::rlimit(50)]
pub proof fn lemma_class_type_roundtrip(i: int, ct: ClassTypeV)
    requires
        0 <= i <= usize::MAX,
    ensures
        sp_class_type(enc_class_type(i, ct)) == Ok::<(usize, ClassTypeV), Seq<char>>((i as usize, ct)),
{
    lemma_json_names();
    reveal_with_fuel(first_with_key, 7);
    lemma_int_json_u64(i);
    lemma_int_json_i64(ct.library_id as int);
    lemma_member_types_seq_roundtrip(ct.member_types);
    let names = ct.member_names.map_values(|n: Seq<char>| JsonV::Str(n));
    assert(names.map_values(|v: JsonV| name_of(v)) =~= ct.member_names);
}

/// The class types read back from their JSON form, each at its position.
pub proof fn lemma_class_types_roundtrip(cts: Seq<ClassTypeV>, k: nat)
    requires
        cts.len() <= usize::MAX,
        k <= cts.len(),
    ensures
        sp_class_types_seq(Seq::new(cts.len(), |i: int| enc_class_type(i, cts[i])).take(k as int))
            == Ok::<Seq<ClassTypeV>, Seq<char>>(cts.take(k as int)),
    decreases k,
{
    let js = Seq::new(cts.len(), |i: int| enc_class_type(i, cts[i]));
    if k > 0 {
        let j = (k - 1) as int;
        lemma_class_types_roundtrip(cts, (k - 1) as nat);
        assert(js.take(k as int).drop_last() =~= js.take(j));
        assert(js.take(k as int).last() == enc_class_type(j, cts[j]));
        lemma_class_type_roundtrip(j, cts[j]);
        assert(padded(cts.take(j), j).update(j, cts[j]) =~= cts.take(k as int));
    } else {
        assert(js.take(0) =~= Seq::<JsonV>::empty());
        assert(cts.take(0) =~= Seq::<ClassTypeV>::empty());
    }
}

/// The records read back from their JSON object, listed in any order.
pub proof fn lemma_records_roundtrip(d: DeserializedRecordV, rids: Seq<i32>, k: nat)
    requires
        graph_roundtrips(d),
        forall|j: int| 0 <= j < rids.len() ==> d.records.contains_key(#[trigger] rids[j]),
        k <= rids.len(),
    ensures
        sp_records_seq(records_object(d, rids).take(k as int), d.class_types)
            == Ok::<Map<i32, RecordV>, Seq<char>>(d.records.restrict(rids.take(k as int).to_set())),
    decreases k,
{
    let es = records_object(d, rids);
    if k > 0 {
        let j = (k - 1) as int;
        let id = rids[j];
        lemma_records_roundtrip(d, rids, (k - 1) as nat);
        assert(es.take(k as int).drop_last() =~= es.take(j));
        assert(es.take(k as int).last() == (int_text(id as int), enc_record(d.class_types, d.records[id])));
        lemma_parse_int_text(id);
        assert(d.records.contains_key(id));
        lemma_record_roundtrip(d.class_types, d.records[id]);
        lemma_take_to_set(rids, j);
        assert(d.records.restrict(rids.take(j).to_set()).insert(id, d.records[id]) =~= d.records.restrict(
            rids.take(k as int).to_set(),
        ));
    } else {
        assert(es.take(0) =~= Seq::<(Seq<char>, JsonV)>::empty());
        assert(d.records.restrict(rids.take(0).to_set()) =~= Map::<i32, RecordV>::empty());
    }
}

/// A metadata entry reads back from its JSON form.
pub proof fn lemma_metadata_entry_roundtrip(id: i32, m: RecordMetadata)
    ensures
        sp_metadata_entry(id, enc_metadata(m)) == Ok::<RecordMetadata, Seq<char>>(m),
{
    lemma_json_names();
    reveal_with_fuel(first_with_key, 5);
    lemma_int_json_u64(m.original_record_type as int);
    lemma_int_json_u64(m.start_offset as int);
    lemma_int_json_u64(m.end_offset as int);
    lemma_int_json_u64(m.original_byte_length as int);
}

/// The metadata reads back from its JSON object, listed in any order.
pub proof fn lemma_metadata_roundtrip(d: DeserializedRecordV, mids: Seq<i32>, k: nat)
    requires
        forall|j: int| 0 <= j < mids.len() ==> d.record_metadata.contains_key(#[trigger] mids[j]),
        k <= mids.len(),
    ensures
        sp_metadata_seq(metadata_object(d, mids).take(k as int))
            == Ok::<Map<i32, RecordMetadata>, Seq<char>>(d.record_metadata.restrict(mids.take(k as int).to_set())),
    decreases k,
{
    let es = metadata_object(d, mids);
    if k > 0 {
        let j = (k - 1) as int;
        let id = mids[j];
        lemma_metadata_roundtrip(d, mids, (k - 1) as nat);
        assert(es.take(k as int).drop_last() =~= es.take(j));
        assert(es.take(k as int).last() == (int_text(id as int), enc_metadata(d.record_metadata[id])));
        lemma_parse_int_text(id);
        assert(d.record_metadata.contains_key(id));
        lemma_metadata_entry_roundtrip(id, d.record_metadata[id]);
        lemma_take_to_set(mids, j);
        assert(d.record_metadata.restrict(mids.take(j).to_set()).insert(id, d.record_metadata[id])
            =~= d.record_metadata.restrict(mids.take(k as int).to_set()));
    } else {
        assert(es.take(0) =~= Seq::<(Seq<char>, JsonV)>::empty());
        assert(d.record_metadata.restrict(mids.take(0).to_set()) =~= Map::<i32, RecordMetadata>::empty());
    }
}

/// Reading back the JSON form the encoder writes gives the record graph again,
/// whatever order its records and metadata were listed in, when every record
/// reads back (`graph_roundtrips`).
pub proof fn law_decode_inverts_encode(d: DeserializedRecordV, j: JsonV)
    requires
        graph_roundtrips(d),
        encodes(d, j),
    ensures
        sp_decode(j) == Ok::<DeserializedRecordV, Seq<char>>(d),
{
    let (rids, mids) = choose|rids: Seq<i32>, mids: Seq<i32>|
        lists_keys(rids, d.records.dom()) && lists_keys(mids, d.record_metadata.dom()) && j
            == enc_document(d, rids, mids);
    lemma_json_names();
    reveal_with_fuel(first_with_key, 7);
    lemma_int_json_i64(d.root_id as int);
    lemma_int_json_i64(d.header_id as int);
    let n = d.class_types.len();
    lemma_class_types_roundtrip(d.class_types, n);
    assert(Seq::new(n, |i: int| enc_class_type(i, d.class_types[i])).take(n as int) =~= Seq::new(
        n,
        |i: int| enc_class_type(i, d.class_types[i]),
    ));
    assert(d.class_types.take(n as int) =~= d.class_types);
    assert forall|k: int| 0 <= k < rids.len() implies d.records.contains_key(#[trigger] rids[k]) by {
        assert(rids.to_set().contains(rids[k]));
    }
    lemma_records_roundtrip(d, rids, rids.len());
    assert(records_object(d, rids).take(rids.len() as int) =~= records_object(d, rids));
    assert(rids.take(rids.len() as int) =~= rids);
    assert(d.records.restrict(rids.to_set()) =~= d.records);
    assert forall|k: int| 0 <= k < mids.len() implies d.record_metadata.contains_key(#[trigger] mids[k]) by {
        assert(mids.to_set().contains(mids[k]));
    }
    lemma_metadata_roundtrip(d, mids, mids.len());
    assert(metadata_object(d, mids).take(mids.len() as int) =~= metadata_object(d, mids));
    assert(mids.take(mids.len() as int) =~= mids);
    assert(d.record_metadata.restrict(mids.to_set()) =~= d.record_metadata);
    lemma_order_roundtrip(d.record_order);
}

} // verus!
