//! Reads a record graph back from its JSON form.
use crate::json::value::{
    as_array, as_bool, as_double, as_i64, as_object, as_single, as_str, as_u64, entries_view,
    field, index, items_view, lemma_entries_view, lemma_items_view, JsonV, JsonValue,
};
use crate::records::{
    class_types_view, member_types_view, members_view, primitives_view, strings_view, Class,
    ClassType, ClassTypeV, ClassV, DeserializedRecord, DeserializedRecordV, Member, MemberType,
    MemberTypeV, MemberV, Primitive, PrimitiveType, PrimitiveV, Record, RecordMetadata, RecordV,
};
use crate::text::{int_text, parse_i32, parse_i32_text, push_int, push_str, str_eq, text_with_int, to_owned_string};
use std::collections::HashMap;
use vstd::prelude::*;
use vstd::string::*;

verus! {

broadcast use vstd::std_specs::hash::group_hash_axioms;

/// Reads record graphs from JSON.
pub struct JsonDecoder;

/// The primitive type a name stands for.
pub open spec fn sp_primitive_type_name(name: Seq<char>) -> Result<PrimitiveType, Seq<char>> {
    if name == "Boolean"@ {
        Ok(PrimitiveType::Boolean)
    } else if name == "Byte"@ {
        Ok(PrimitiveType::Byte)
    } else if name == "Char"@ {
        Ok(PrimitiveType::Char)
    } else if name == "Decimal"@ {
        Ok(PrimitiveType::Decimal)
    } else if name == "Double"@ {
        Ok(PrimitiveType::Double)
    } else if name == "Int16"@ {
        Ok(PrimitiveType::Int16)
    } else if name == "Int32"@ {
        Ok(PrimitiveType::Int32)
    } else if name == "Int64"@ {
        Ok(PrimitiveType::Int64)
    } else if name == "Int8"@ {
        Ok(PrimitiveType::Int8)
    } else if name == "Single"@ {
        Ok(PrimitiveType::Single)
    } else if name == "TimeSpan"@ {
        Ok(PrimitiveType::TimeSpan)
    } else if name == "DateTime"@ {
        Ok(PrimitiveType::DateTime)
    } else if name == "UInt16"@ {
        Ok(PrimitiveType::UInt16)
    } else if name == "UInt32"@ {
        Ok(PrimitiveType::UInt32)
    } else if name == "UInt64"@ {
        Ok(PrimitiveType::UInt64)
    } else if name == "Null"@ {
        Ok(PrimitiveType::Null)
    } else if name == "String"@ {
        Ok(PrimitiveType::String)
    } else {
        Err("Unknown primitive type: "@ + name)
    }
}

/// A member type: `{"type": ..}` with its name or primitive type where it has one.
pub open spec fn sp_member_type(j: JsonV) -> Result<MemberTypeV, Seq<char>> {
    match as_str(index(j, "type"@)) {
        None => Err("Missing member type"@),
        Some(t) => if t == "String"@ {
            Ok(MemberTypeV::String)
        } else if t == "Object"@ {
            Ok(MemberTypeV::Object)
        } else if t == "ObjectArray"@ {
            Ok(MemberTypeV::ObjectArray)
        } else if t == "StringArray"@ {
            Ok(MemberTypeV::StringArray)
        } else if t == "Primitive"@ {
            match as_str(index(j, "primitive_type"@)) {
                None => Err("Missing primitive_type"@),
                Some(p) => match sp_primitive_type_name(p) {
                    Ok(pt) => Ok(MemberTypeV::Primitive(pt)),
                    Err(e) => Err(e),
                },
            }
        } else if t == "SystemClass"@ {
            match as_str(index(j, "name"@)) {
                None => Err("Missing SystemClass name"@),
                Some(n) => Ok(MemberTypeV::SystemClass(n)),
            }
        } else if t == "Class"@ {
            match as_str(index(j, "name"@)) {
                None => Err("Missing Class name"@),
                Some(n) => match as_i64(index(j, "library_id"@)) {
                    None => Err("Missing library_id"@),
                    Some(l) => if i32::MIN <= l <= i32::MAX {
                        Ok(MemberTypeV::Class(n, l as i32))
                    } else {
                        Err("library_id out of range"@)
                    },
                },
            }
        } else if t == "PrimitiveArray"@ {
            match as_str(index(j, "primitive_type"@)) {
                None => Err("Missing primitive_type"@),
                Some(p) => match sp_primitive_type_name(p) {
                    Ok(pt) => Ok(MemberTypeV::PrimitiveArray(pt)),
                    Err(e) => Err(e),
                },
            }
        } else {
            Err("Unknown member type: "@ + t)
        },
    }
}

/// Member types one after another; the first refusal wins.
pub open spec fn sp_member_types_seq(a: Seq<JsonV>) -> Result<Seq<MemberTypeV>, Seq<char>>
    decreases a.len(),
{
    if a.len() == 0 {
        Ok(Seq::empty())
    } else {
        match sp_member_types_seq(a.drop_last()) {
            Err(e) => Err(e),
            Ok(ts) => match sp_member_type(a.last()) {
                Err(e) => Err(e),
                Ok(t) => Ok(ts.push(t)),
            },
        }
    }
}

/// The member types of an array.
pub open spec fn sp_member_types(j: JsonV) -> Result<Seq<MemberTypeV>, Seq<char>> {
    match as_array(j) {
        None => Err("member_types must be an array"@),
        Some(a) => sp_member_types_seq(a),
    }
}

/// The names of the primitive kinds a member may be written as.
pub open spec fn is_value_kind(t: Seq<char>) -> bool {
    ||| t == "Boolean"@
    ||| t == "Byte"@
    ||| t == "Char"@
    ||| t == "Decimal"@
    ||| t == "Double"@
    ||| t == "Int16"@
    ||| t == "Int32"@
    ||| t == "Int64"@
    ||| t == "Int8"@
    ||| t == "Single"@
    ||| t == "TimeSpan"@
    ||| t == "DateTime"@
    ||| t == "UInt16"@
    ||| t == "UInt32"@
    ||| t == "UInt64"@
    ||| t == "String"@
}

/// The first character of a string, if any.
pub open spec fn first_char_of(s: Seq<char>) -> Option<char> {
    if s.len() > 0 {
        Some(s[0])
    } else {
        None
    }
}

/// A primitive of kind `t` from `j["value"]`.
pub open spec fn sp_value_of_kind(j: JsonV, t: Seq<char>) -> Result<PrimitiveV, Seq<char>> {
    let v = index(j, "value"@);
    if t == "Boolean"@ {
        match as_bool(v) {
            None => Err("Missing boolean value"@),
            Some(b) => Ok(PrimitiveV::Boolean(b)),
        }
    } else if t == "Byte"@ {
        match as_u64(v) {
            None => Err("Missing byte value"@),
            Some(x) => if x <= u8::MAX {
                Ok(PrimitiveV::Byte(x as u8))
            } else {
                Err("byte value out of range"@)
            },
        }
    } else if t == "Char"@ {
        match as_str(v) {
            None => Err("Missing char value"@),
            Some(s) => match first_char_of(s) {
                None => Err("Invalid char"@),
                Some(c) => Ok(PrimitiveV::Char(c)),
            },
        }
    } else if t == "Decimal"@ {
        match as_str(v) {
            None => Err("Missing decimal value"@),
            Some(s) => Ok(PrimitiveV::Decimal(s)),
        }
    } else if t == "Double"@ {
        match as_double(v) {
            None => Err("Missing double value"@),
            Some(x) => Ok(PrimitiveV::Double(x)),
        }
    } else if t == "Int16"@ {
        match as_i64(v) {
            None => Err("Missing int16 value"@),
            Some(x) => if i16::MIN <= x <= i16::MAX {
                Ok(PrimitiveV::Int16(x as i16))
            } else {
                Err("int16 value out of range"@)
            },
        }
    } else if t == "Int32"@ {
        match as_i64(v) {
            None => Err("Missing int32 value"@),
            Some(x) => if i32::MIN <= x <= i32::MAX {
                Ok(PrimitiveV::Int32(x as i32))
            } else {
                Err("int32 value out of range"@)
            },
        }
    } else if t == "Int64"@ {
        match as_i64(v) {
            None => Err("Missing int64 value"@),
            Some(x) => Ok(PrimitiveV::Int64(x)),
        }
    } else if t == "Int8"@ {
        match as_i64(v) {
            None => Err("Missing int8 value"@),
            Some(x) => if i8::MIN <= x <= i8::MAX {
                Ok(PrimitiveV::Int8(x as i8))
            } else {
                Err("int8 value out of range"@)
            },
        }
    } else if t == "Single"@ {
        match as_single(v) {
            None => Err("Missing single value"@),
            Some(x) => Ok(PrimitiveV::Single(x)),
        }
    } else if t == "TimeSpan"@ {
        match as_i64(v) {
            None => Err("Missing timespan value"@),
            Some(x) => Ok(PrimitiveV::TimeSpan(x)),
        }
    } else if t == "DateTime"@ {
        match as_i64(v) {
            None => Err("Missing datetime value"@),
            Some(x) => Ok(PrimitiveV::DateTime(x)),
        }
    } else if t == "UInt16"@ {
        match as_u64(v) {
            None => Err("Missing uint16 value"@),
            Some(x) => if x <= u16::MAX {
                Ok(PrimitiveV::UInt16(x as u16))
            } else {
                Err("uint16 value out of range"@)
            },
        }
    } else if t == "UInt32"@ {
        match as_u64(v) {
            None => Err("Missing uint32 value"@),
            Some(x) => if x <= u32::MAX {
                Ok(PrimitiveV::UInt32(x as u32))
            } else {
                Err("uint32 value out of range"@)
            },
        }
    } else if t == "UInt64"@ {
        match as_u64(v) {
            None => Err("Missing uint64 value"@),
            Some(x) => Ok(PrimitiveV::UInt64(x)),
        }
    } else {
        match as_str(v) {
            None => Err("Missing string value"@),
            Some(s) => Ok(PrimitiveV::String(s)),
        }
    }
}

/// A primitive: `{"type": kind, "value": ..}`, or `{"type": "Null"}`.
pub open spec fn sp_primitive(j: JsonV) -> Result<PrimitiveV, Seq<char>> {
    match as_str(index(j, "type"@)) {
        None => Err("Missing primitive type"@),
        Some(t) => if is_value_kind(t) {
            sp_value_of_kind(j, t)
        } else if t == "Null"@ {
            Ok(PrimitiveV::Null)
        } else {
            Err("Unknown primitive type: "@ + t)
        },
    }
}

/// A member: a reference, nulls, or a primitive value.
pub open spec fn sp_member(j: JsonV) -> Result<MemberV, Seq<char>> {
    match as_str(index(j, "type"@)) {
        None => Err("Missing member type"@),
        Some(t) => if t == "Reference"@ {
            match as_i64(index(j, "id"@)) {
                None => Err("Missing reference id"@),
                Some(id) => if i32::MIN <= id <= i32::MAX {
                    Ok(MemberV::Reference(id as i32))
                } else {
                    Err("reference id out of range"@)
                },
            }
        } else if t == "Null"@ {
            Ok(MemberV::Null)
        } else if t == "PrimitiveNull"@ {
            Ok(MemberV::Primitive(PrimitiveV::Null))
        } else if t == "NullMultiple"@ {
            match as_i64(index(j, "count"@)) {
                None => Err("Missing null count"@),
                Some(c) => if i32::MIN <= c <= i32::MAX {
                    Ok(MemberV::NullMultiple(c as i32))
                } else {
                    Err("null count out of range"@)
                },
            }
        } else if is_value_kind(t) {
            match sp_value_of_kind(j, t) {
                Ok(p) => Ok(MemberV::Primitive(p)),
                Err(e) => Err(e),
            }
        } else {
            Err("Unknown member type: "@ + t)
        },
    }
}

/// Members one after another; the first refusal wins.
pub open spec fn sp_members_seq(a: Seq<JsonV>) -> Result<Seq<MemberV>, Seq<char>>
    decreases a.len(),
{
    if a.len() == 0 {
        Ok(Seq::empty())
    } else {
        match sp_members_seq(a.drop_last()) {
            Err(e) => Err(e),
            Ok(ms) => match sp_member(a.last()) {
                Err(e) => Err(e),
                Ok(m) => Ok(ms.push(m)),
            },
        }
    }
}

/// Primitives one after another; the first refusal wins.
pub open spec fn sp_primitives_seq(a: Seq<JsonV>) -> Result<Seq<PrimitiveV>, Seq<char>>
    decreases a.len(),
{
    if a.len() == 0 {
        Ok(Seq::empty())
    } else {
        match sp_primitives_seq(a.drop_last()) {
            Err(e) => Err(e),
            Ok(ps) => match sp_primitive(a.last()) {
                Err(e) => Err(e),
                Ok(p) => Ok(ps.push(p)),
            },
        }
    }
}

/// The members of a class record: an array with one member per member type.
pub open spec fn sp_members(j: JsonV, types: Seq<MemberTypeV>) -> Result<Seq<MemberV>, Seq<char>> {
    match as_array(j) {
        None => Err("members must be an array"@),
        Some(a) => if a.len() != types.len() {
            Err(
                "members count mismatch: expected "@ + int_text(types.len() as int) + ", got "@
                    + int_text(a.len() as int),
            )
        } else {
            sp_members_seq(a)
        },
    }
}

/// The `members` of a class record.
pub open spec fn sp_class_members(j: JsonV, types: Seq<MemberTypeV>) -> Result<Seq<MemberV>, Seq<char>> {
    match field(j, "members"@) {
        Some(m) => sp_members(m, types),
        None => Err("Missing class members"@),
    }
}

/// A record, tagged by `type`.
pub open spec fn sp_record(j: JsonV, cts: Seq<ClassTypeV>) -> Result<RecordV, Seq<char>> {
    match as_str(index(j, "type"@)) {
        None => Err("Missing record type"@),
        Some(t) => if t == "BinaryLibrary"@ {
            match as_str(index(j, "value"@)) {
                None => Err("Missing BinaryLibrary value"@),
                Some(s) => Ok(RecordV::BinaryLibrary(s)),
            }
        } else if t == "String"@ {
            match as_str(index(j, "value"@)) {
                None => Err("Missing String value"@),
                Some(s) => Ok(RecordV::String(s)),
            }
        } else if t == "Class"@ {
            match as_u64(index(j, "class_type_id"@)) {
                None => Err("Missing class_type_id"@),
                Some(x) => {
                    let cid = x as usize;
                    if cid >= cts.len() {
                        Err("Invalid class_type_id: "@ + int_text(cid as int))
                    } else {
                        match sp_class_members(j, cts[cid as int].member_types) {
                            Err(e) => Err(e),
                            Ok(ms) => Ok(RecordV::Class(ClassV { class_type_id: cid, members: ms })),
                        }
                    }
                },
            }
        } else if t == "BinaryArray"@ {
            match sp_member_type(index(j, "member_type"@)) {
                Err(e) => Err(e),
                Ok(mt) => match as_array(index(j, "values"@)) {
                    None => Err("Missing BinaryArray values"@),
                    Some(a) => match sp_members_seq(a) {
                        Err(e) => Err(e),
                        Ok(ms) => Ok(RecordV::BinaryArray(mt, ms)),
                    },
                },
            }
        } else if t == "PrimitiveArray"@ {
            match as_str(index(j, "primitive_type"@)) {
                None => Err("Missing primitive_type"@),
                Some(p) => match sp_primitive_type_name(p) {
                    Err(e) => Err(e),
                    Ok(pt) => match as_array(index(j, "values"@)) {
                        None => Err("Missing PrimitiveArray values"@),
                        Some(a) => match sp_primitives_seq(a) {
                            Err(e) => Err(e),
                            Ok(ps) => Ok(RecordV::PrimitiveArray(pt, ps)),
                        },
                    },
                },
            }
        } else {
            Err("Unknown record type: "@ + t)
        },
    }
}

/// The records of an object keyed by decimal ids, in member order (a later
/// member with the same id replaces an earlier one); the first refusal wins.
pub open spec fn sp_records_seq(es: Seq<(Seq<char>, JsonV)>, cts: Seq<ClassTypeV>) -> Result<Map<i32, RecordV>, Seq<char>>
    decreases es.len(),
{
    if es.len() == 0 {
        Ok(Map::empty())
    } else {
        match sp_records_seq(es.drop_last(), cts) {
            Err(e) => Err(e),
            Ok(m) => match parse_i32_text(es.last().0) {
                None => Err("Invalid record id: "@ + es.last().0),
                Some(id) => match sp_record(es.last().1, cts) {
                    Err(e) => Err(e),
                    Ok(r) => Ok(m.insert(id, r)),
                },
            },
        }
    }
}

pub open spec fn sp_records(j: JsonV, cts: Seq<ClassTypeV>) -> Result<Map<i32, RecordV>, Seq<char>> {
    match as_object(j) {
        None => Err("records must be an object"@),
        Some(es) => sp_records_seq(es, cts),
    }
}

/// The class type that fills the gaps when ids skip numbers.
pub open spec fn empty_class_type() -> ClassTypeV {
    ClassTypeV {
        name: Seq::empty(),
        library_id: 0,
        system_class: false,
        member_names: Seq::empty(),
        member_types: Seq::empty(),
    }
}

/// `types` grown with empty class types until it has an entry `id`.
pub open spec fn padded(types: Seq<ClassTypeV>, id: int) -> Seq<ClassTypeV> {
    if types.len() > id {
        types
    } else {
        types + Seq::new((id + 1 - types.len()) as nat, |i: int| empty_class_type())
    }
}

/// The names of an array of strings; other values read as "".
pub open spec fn name_of(v: JsonV) -> Seq<char> {
    match as_str(v) {
        Some(s) => s,
        None => Seq::empty(),
    }
}

/// One class type and the id it is stored under.
pub open spec fn sp_class_type(item: JsonV) -> Result<(usize, ClassTypeV), Seq<char>> {
    match as_u64(index(item, "id"@)) {
        None => Err("Missing or invalid type id"@),
        Some(id) => match as_str(index(item, "name"@)) {
            None => Err("Missing type name"@),
            Some(name) => match as_i64(index(item, "library_id"@)) {
                None => Err("Missing library_id"@),
                Some(lib) => if !(i32::MIN <= lib <= i32::MAX) {
                    Err("library_id out of range"@)
                } else {
                    match as_bool(index(item, "system_class"@)) {
                    None => Err("Missing system_class"@),
                    Some(sys) => match as_array(index(item, "member_names"@)) {
                        None => Err("Missing member_names"@),
                        Some(names) => match sp_member_types(index(item, "member_types"@)) {
                            Err(e) => Err(e),
                            Ok(types) => Ok(
                                (
                                    id as usize,
                                    ClassTypeV {
                                        name,
                                        library_id: lib as i32,
                                        system_class: sys,
                                        member_names: names.map_values(|v: JsonV| name_of(v)),
                                        member_types: types,
                                    },
                                ),
                            ),
                        },
                    },
                    }
                },
            },
        },
    }
}

/// The class types, each stored at its id; the first refusal wins.
pub open spec fn sp_class_types_seq(a: Seq<JsonV>) -> Result<Seq<ClassTypeV>, Seq<char>>
    decreases a.len(),
{
    if a.len() == 0 {
        Ok(Seq::empty())
    } else {
        match sp_class_types_seq(a.drop_last()) {
            Err(e) => Err(e),
            Ok(types) => match sp_class_type(a.last()) {
                Err(e) => Err(e),
                Ok((id, ct)) => Ok(padded(types, id as int).update(id as int, ct)),
            },
        }
    }
}

pub open spec fn sp_class_types(j: JsonV) -> Result<Seq<ClassTypeV>, Seq<char>> {
    match as_array(j) {
        None => Err("class_types must be an array"@),
        Some(a) => sp_class_types_seq(a),
    }
}

/// One metadata entry.
pub open spec fn sp_metadata_entry(id: i32, m: JsonV) -> Result<RecordMetadata, Seq<char>> {
    match as_u64(index(m, "original_record_type"@)) {
        None => Err("Missing original_record_type for record "@ + int_text(id as int)),
        Some(t) => if t > u8::MAX {
            Err("Invalid original_record_type for record "@ + int_text(id as int))
        } else {
        match as_u64(index(m, "start_offset"@)) {
            None => Err("Missing start_offset for record "@ + int_text(id as int)),
            Some(s) => match as_u64(index(m, "end_offset"@)) {
                None => Err("Missing end_offset for record "@ + int_text(id as int)),
                Some(e) => match as_u64(index(m, "original_byte_length"@)) {
                    None => Err("Missing original_byte_length for record "@ + int_text(id as int)),
                    Some(l) => Ok(
                        RecordMetadata {
                            original_record_type: t as u8,
                            start_offset: s as usize,
                            end_offset: e as usize,
                            original_byte_length: l as usize,
                        },
                    ),
                },
            },
        }
        },
    }
}

pub open spec fn sp_metadata_seq(es: Seq<(Seq<char>, JsonV)>) -> Result<Map<i32, RecordMetadata>, Seq<char>>
    decreases es.len(),
{
    if es.len() == 0 {
        Ok(Map::empty())
    } else {
        match sp_metadata_seq(es.drop_last()) {
            Err(e) => Err(e),
            Ok(m) => match parse_i32_text(es.last().0) {
                None => Err("Invalid metadata record id: "@ + es.last().0),
                Some(id) => match sp_metadata_entry(id, es.last().1) {
                    Err(e) => Err(e),
                    Ok(x) => Ok(m.insert(id, x)),
                },
            },
        }
    }
}

/// The metadata: none when absent or not an object.
pub open spec fn sp_metadata(j: Option<JsonV>) -> Result<Map<i32, RecordMetadata>, Seq<char>> {
    match j {
        None => Ok(Map::empty()),
        Some(v) => match as_object(v) {
            None => Ok(Map::empty()),
            Some(es) => sp_metadata_seq(es),
        },
    }
}

pub open spec fn sp_order_seq(a: Seq<JsonV>) -> Result<Seq<i32>, Seq<char>>
    decreases a.len(),
{
    if a.len() == 0 {
        Ok(Seq::empty())
    } else {
        match sp_order_seq(a.drop_last()) {
            Err(e) => Err(e),
            Ok(o) => match as_i64(a.last()) {
                None => Err("record_order item must be i32"@),
                Some(x) => if i32::MIN <= x <= i32::MAX {
                    Ok(o.push(x as i32))
                } else {
                    Err("record_order item must be i32"@)
                },
            },
        }
    }
}

/// The record order: empty when absent.
pub open spec fn sp_record_order(j: Option<JsonV>) -> Result<Seq<i32>, Seq<char>> {
    match j {
        None => Ok(Seq::empty()),
        Some(v) => match as_array(v) {
            None => Err("record_order must be an array"@),
            Some(a) => sp_order_seq(a),
        },
    }
}

/// A record graph from its JSON form; the first refusal met.
pub open spec fn sp_decode(j: JsonV) -> Result<DeserializedRecordV, Seq<char>> {
    match as_i64(index(j, "root_id"@)) {
        None => Err("Missing or invalid root_id"@),
        Some(root) => if !(i32::MIN <= root <= i32::MAX) {
            Err("Missing or invalid root_id"@)
        } else {
        match as_i64(index(j, "header_id"@)) {
            None => Err("Missing or invalid header_id"@),
            Some(header) => if !(i32::MIN <= header <= i32::MAX) {
                Err("Missing or invalid header_id"@)
            } else {
            match sp_class_types(index(j, "class_types"@)) {
                Err(e) => Err(e),
                Ok(cts) => match sp_records(index(j, "records"@), cts) {
                    Err(e) => Err(e),
                    Ok(records) => match sp_metadata(field(j, "record_metadata"@)) {
                        Err(e) => Err(e),
                        Ok(md) => match sp_record_order(field(j, "record_order"@)) {
                            Err(e) => Err(e),
                            Ok(order) => Ok(
                                DeserializedRecordV {
                                    root_id: root as i32,
                                    header_id: header as i32,
                                    records,
                                    class_types: cts,
                                    record_metadata: md,
                                    record_order: order,
                                },
                            ),
                        },
                    },
                },
            }
            },
        }
        },
    }
}

/// The view of an optional reference to a value.
pub open spec fn opt_view(o: Option<&JsonValue>) -> Option<JsonV> {
    match o {
        Some(v) => Some(v@),
        None => None,
    }
}

proof fn lemma_member_types_err(a: Seq<JsonV>, k: int, e: Seq<char>)
    requires
        0 <= k <= a.len(),
        sp_member_types_seq(a.take(k)) == Err::<Seq<MemberTypeV>, Seq<char>>(e),
    ensures
        sp_member_types_seq(a) == Err::<Seq<MemberTypeV>, Seq<char>>(e),
    decreases a.len() - k,
{
    if k < a.len() {
        assert(a.take(k + 1).drop_last() =~= a.take(k));
        lemma_member_types_err(a, k + 1, e);
    } else {
        assert(a.take(k) =~= a);
    }
}

proof fn lemma_members_err(a: Seq<JsonV>, k: int, e: Seq<char>)
    requires
        0 <= k <= a.len(),
        sp_members_seq(a.take(k)) == Err::<Seq<MemberV>, Seq<char>>(e),
    ensures
        sp_members_seq(a) == Err::<Seq<MemberV>, Seq<char>>(e),
    decreases a.len() - k,
{
    if k < a.len() {
        assert(a.take(k + 1).drop_last() =~= a.take(k));
        lemma_members_err(a, k + 1, e);
    } else {
        assert(a.take(k) =~= a);
    }
}

proof fn lemma_primitives_err(a: Seq<JsonV>, k: int, e: Seq<char>)
    requires
        0 <= k <= a.len(),
        sp_primitives_seq(a.take(k)) == Err::<Seq<PrimitiveV>, Seq<char>>(e),
    ensures
        sp_primitives_seq(a) == Err::<Seq<PrimitiveV>, Seq<char>>(e),
    decreases a.len() - k,
{
    if k < a.len() {
        assert(a.take(k + 1).drop_last() =~= a.take(k));
        lemma_primitives_err(a, k + 1, e);
    } else {
        assert(a.take(k) =~= a);
    }
}

proof fn lemma_records_err(es: Seq<(Seq<char>, JsonV)>, cts: Seq<ClassTypeV>, k: int, e: Seq<char>)
    requires
        0 <= k <= es.len(),
        sp_records_seq(es.take(k), cts) == Err::<Map<i32, RecordV>, Seq<char>>(e),
    ensures
        sp_records_seq(es, cts) == Err::<Map<i32, RecordV>, Seq<char>>(e),
    decreases es.len() - k,
{
    if k < es.len() {
        assert(es.take(k + 1).drop_last() =~= es.take(k));
        lemma_records_err(es, cts, k + 1, e);
    } else {
        assert(es.take(k) =~= es);
    }
}

proof fn lemma_class_types_err(a: Seq<JsonV>, k: int, e: Seq<char>)
    requires
        0 <= k <= a.len(),
        sp_class_types_seq(a.take(k)) == Err::<Seq<ClassTypeV>, Seq<char>>(e),
    ensures
        sp_class_types_seq(a) == Err::<Seq<ClassTypeV>, Seq<char>>(e),
    decreases a.len() - k,
{
    if k < a.len() {
        assert(a.take(k + 1).drop_last() =~= a.take(k));
        lemma_class_types_err(a, k + 1, e);
    } else {
        assert(a.take(k) =~= a);
    }
}

proof fn lemma_metadata_err(es: Seq<(Seq<char>, JsonV)>, k: int, e: Seq<char>)
    requires
        0 <= k <= es.len(),
        sp_metadata_seq(es.take(k)) == Err::<Map<i32, RecordMetadata>, Seq<char>>(e),
    ensures
        sp_metadata_seq(es) == Err::<Map<i32, RecordMetadata>, Seq<char>>(e),
    decreases es.len() - k,
{
    if k < es.len() {
        assert(es.take(k + 1).drop_last() =~= es.take(k));
        lemma_metadata_err(es, k + 1, e);
    } else {
        assert(es.take(k) =~= es);
    }
}

proof fn lemma_order_err(a: Seq<JsonV>, k: int, e: Seq<char>)
    requires
        0 <= k <= a.len(),
        sp_order_seq(a.take(k)) == Err::<Seq<i32>, Seq<char>>(e),
    ensures
        sp_order_seq(a) == Err::<Seq<i32>, Seq<char>>(e),
    decreases a.len() - k,
{
    if k < a.len() {
        assert(a.take(k + 1).drop_last() =~= a.take(k));
        lemma_order_err(a, k + 1, e);
    } else {
        assert(a.take(k) =~= a);
    }
}

/// `text` followed by `tail`.
fn message(text: &str, tail: &str) -> (s: String)
    ensures
        s@ == text@ + tail@,
{
    let mut s = to_owned_string(text);
    push_str(&mut s, tail);
    s
}

/// The first character of a string, if any.
fn first_char(t: &str) -> (r: Option<char>)
    ensures
        r == first_char_of(t@),
{
    let mut chars: Vec<char> = Vec::new();
    for c in it: t.chars()
        invariant
            chars@ == it.seq().take(it.index() as int),
    {
        chars.push(c);
    }
    assert(chars@ =~= t@);
    if chars.len() > 0 {
        Some(chars[0])
    } else {
        None
    }
}

/// `json[key]`, with `null` standing for an absent member.
fn index_or_null<'a>(json: &'a JsonValue, key: &str, null: &'a JsonValue) -> (r: &'a JsonValue)
    requires
        null@ == JsonV::Null,
    ensures
        r@ == index(json@, key@),
{
    match json.get(key) {
        Some(v) => v,
        None => null,
    }
}

impl JsonDecoder {
    /// A record graph from its JSON form.
    pub fn decode(json: &JsonValue) -> (r: Result<DeserializedRecord, String>)
        ensures
            match sp_decode(json@) {
                Ok(d) => r matches Ok(x) && x@ == d,
                Err(m) => r matches Err(e) && e@ == m,
            },
    {
        let null_value = JsonValue::Null;
        let root_id = match json.field_i64("root_id") {
            Some(v) => if i32::MIN as i64 <= v && v <= i32::MAX as i64 {
                v as i32
            } else {
                return Err(to_owned_string("Missing or invalid root_id"));
            },
            None => return Err(to_owned_string("Missing or invalid root_id")),
        };
        let header_id = match json.field_i64("header_id") {
            Some(v) => if i32::MIN as i64 <= v && v <= i32::MAX as i64 {
                v as i32
            } else {
                return Err(to_owned_string("Missing or invalid header_id"));
            },
            None => return Err(to_owned_string("Missing or invalid header_id")),
        };
        let class_types = match Self::decode_class_types(index_or_null(json, "class_types", &null_value)) {
            Ok(c) => c,
            Err(e) => return Err(e),
        };
        let records = match Self::decode_records(index_or_null(json, "records", &null_value), class_types.as_slice()) {
            Ok(r) => r,
            Err(e) => return Err(e),
        };
        let record_metadata = match Self::decode_record_metadata(json.get("record_metadata")) {
            Ok(m) => m,
            Err(e) => return Err(e),
        };
        let record_order = match Self::decode_record_order(json.get("record_order")) {
            Ok(o) => o,
            Err(e) => return Err(e),
        };
        Ok(DeserializedRecord { root_id, header_id, records, class_types, record_metadata, record_order })
    }

    fn decode_record_order(json: Option<&JsonValue>) -> (r: Result<Vec<i32>, String>)
        ensures
            match sp_record_order(opt_view(json)) {
                Ok(o) => r matches Ok(v) && v@ == o,
                Err(m) => r matches Err(e) && e@ == m,
            },
    {
        let value = match json {
            Some(v) => v,
            None => return Ok(Vec::new()),
        };
        let arr = match value.as_array() {
            Some(a) => a,
            None => return Err(to_owned_string("record_order must be an array")),
        };
        let ghost a = items_view(arr@);
        proof {
            lemma_items_view(arr@);
        }
        let mut order: Vec<i32> = Vec::new();
        assert(a.take(0) =~= Seq::<JsonV>::empty());
        assert(order@ =~= Seq::<i32>::empty());
        let mut i: usize = 0;
        while i < arr.len()
            invariant
                i <= arr@.len(),
                a == items_view(arr@),
                a.len() == arr@.len(),
                forall|k: int| 0 <= k < arr@.len() ==> #[trigger] a[k] == arr@[k]@,
                sp_record_order(opt_view(json)) == sp_order_seq(a),
                sp_order_seq(a.take(i as int)) == Ok::<Seq<i32>, Seq<char>>(order@),
            decreases arr@.len() - i,
        {
            assert(a.take(i + 1).drop_last() =~= a.take(i as int));
            assert(a.take(i + 1).last() == a[i as int]);
            match arr[i].as_i64() {
                Some(x) => if i32::MIN as i64 <= x && x <= i32::MAX as i64 {
                    order.push(x as i32);
                } else {
                    proof {
                        lemma_order_err(a, i + 1, "record_order item must be i32"@);
                    }
                    return Err(to_owned_string("record_order item must be i32"));
                },
                None => {
                    proof {
                        lemma_order_err(a, i + 1, "record_order item must be i32"@);
                    }
                    return Err(to_owned_string("record_order item must be i32"));
                },
            }
            i = i + 1;
        }
        assert(a.take(i as int) =~= a);
        Ok(order)
    }

    fn decode_record_metadata(json: Option<&JsonValue>) -> (r: Result<HashMap<i32, RecordMetadata>, String>)
        ensures
            match sp_metadata(opt_view(json)) {
                Ok(m) => r matches Ok(h) && h@ == m,
                Err(m) => r matches Err(e) && e@ == m,
            },
    {
        let mut metadata: HashMap<i32, RecordMetadata> = HashMap::new();
        let value = match json {
            Some(v) => v,
            None => return Ok(metadata),
        };
        let object = match value.as_object() {
            Some(o) => o,
            None => return Ok(metadata),
        };
        let ghost es = entries_view(object@);
        proof {
            lemma_entries_view(object@);
        }
        assert(es.take(0) =~= Seq::<(Seq<char>, JsonV)>::empty());
        assert(metadata@ =~= Map::<i32, RecordMetadata>::empty());
        let mut i: usize = 0;
        while i < object.len()
            invariant
                i <= object@.len(),
                es == entries_view(object@),
                es.len() == object@.len(),
                forall|k: int| 0 <= k < object@.len() ==> #[trigger] es[k] == (object@[k].0@, object@[k].1@),
                sp_metadata(opt_view(json)) == sp_metadata_seq(es),
                sp_metadata_seq(es.take(i as int)) == Ok::<Map<i32, RecordMetadata>, Seq<char>>(metadata@),
            decreases object@.len() - i,
        {
            assert(es.take(i + 1).drop_last() =~= es.take(i as int));
            assert(es.take(i + 1).last() == es[i as int]);
            let id_str = object[i].0.as_str();
            let meta_json = &object[i].1;
            let id = match parse_i32(id_str) {
                Some(id) => id,
                None => {
                    proof {
                        lemma_metadata_err(es, i + 1, "Invalid metadata record id: "@ + id_str@);
                    }
                    return Err(message("Invalid metadata record id: ", id_str));
                },
            };
            let entry = Self::decode_metadata_entry(id, meta_json);
            match entry {
                Ok(m) => {
                    metadata.insert(id, m);
                },
                Err(e) => {
                    proof {
                        lemma_metadata_err(es, i + 1, e@);
                    }
                    return Err(e);
                },
            }
            i = i + 1;
        }
        assert(es.take(i as int) =~= es);
        Ok(metadata)
    }

    fn decode_metadata_entry(id: i32, meta_json: &JsonValue) -> (r: Result<RecordMetadata, String>)
        ensures
            match sp_metadata_entry(id, meta_json@) {
                Ok(m) => r == Ok::<RecordMetadata, String>(m),
                Err(m) => r matches Err(e) && e@ == m,
            },
    {
        let original_record_type = match meta_json.field_u64("original_record_type") {
            Some(v) => if v <= u8::MAX as u64 {
                v as u8
            } else {
                return Err(text_with_int("Invalid original_record_type for record ", id as i128));
            },
            None => return Err(text_with_int("Missing original_record_type for record ", id as i128)),
        };
        let start_offset = match meta_json.field_u64("start_offset") {
            Some(v) => v as usize,
            None => return Err(text_with_int("Missing start_offset for record ", id as i128)),
        };
        let end_offset = match meta_json.field_u64("end_offset") {
            Some(v) => v as usize,
            None => return Err(text_with_int("Missing end_offset for record ", id as i128)),
        };
        let original_byte_length = match meta_json.field_u64("original_byte_length") {
            Some(v) => v as usize,
            None => return Err(text_with_int("Missing original_byte_length for record ", id as i128)),
        };
        Ok(RecordMetadata { original_record_type, start_offset, end_offset, original_byte_length })
    }
}

/// Whether `t` names a primitive kind a member may be written as.
fn is_value_kind_name(t: &str) -> (r: bool)
    ensures
        r == is_value_kind(t@),
{
    str_eq(t, "Boolean") || str_eq(t, "Byte") || str_eq(t, "Char") || str_eq(t, "Decimal") || str_eq(t, "Double")
        || str_eq(t, "Int16") || str_eq(t, "Int32") || str_eq(t, "Int64") || str_eq(t, "Int8") || str_eq(t, "Single")
        || str_eq(t, "TimeSpan") || str_eq(t, "DateTime") || str_eq(t, "UInt16") || str_eq(t, "UInt32")
        || str_eq(t, "UInt64") || str_eq(t, "String")
}

impl JsonDecoder {
    fn decode_class_types(json: &JsonValue) -> (r: Result<Vec<ClassType>, String>)
        ensures
            match sp_class_types(json@) {
                Ok(ts) => r matches Ok(v) && class_types_view(v@) == ts,
                Err(m) => r matches Err(e) && e@ == m,
            },
    {
        let arr = match json.as_array() {
            Some(a) => a,
            None => return Err(to_owned_string("class_types must be an array")),
        };
        let ghost a = items_view(arr@);
        proof {
            lemma_items_view(arr@);
        }
        let mut types: Vec<ClassType> = Vec::new();
        assert(a.take(0) =~= Seq::<JsonV>::empty());
        assert(class_types_view(types@) =~= Seq::<ClassTypeV>::empty());
        let mut i: usize = 0;
        while i < arr.len()
            invariant
                i <= arr@.len(),
                a == items_view(arr@),
                a.len() == arr@.len(),
                forall|k: int| 0 <= k < arr@.len() ==> #[trigger] a[k] == arr@[k]@,
                as_array(json@) == Some(a),
                sp_class_types_seq(a.take(i as int)) == Ok::<Seq<ClassTypeV>, Seq<char>>(class_types_view(types@)),
            decreases arr@.len() - i,
        {
            assert(a.take(i + 1).drop_last() =~= a.take(i as int));
            assert(a.take(i + 1).last() == a[i as int]);
            let (id, class_type) = match Self::decode_class_type(&arr[i]) {
                Ok(x) => x,
                Err(e) => {
                    proof {
                        lemma_class_types_err(a, i + 1, e@);
                    }
                    return Err(e);
                },
            };
            let ghost base = class_types_view(types@);
            while types.len() <= id
                invariant
                    base.len() <= types@.len(),
                    types@.len() <= id + 1 || types@.len() == base.len(),
                    class_types_view(types@) == base + Seq::new(
                        (types@.len() - base.len()) as nat,
                        |k: int| empty_class_type(),
                    ),
                decreases id + 1 - types@.len(),
            {
                let ghost before = types@;
                types.push(
                    ClassType {
                        name: String::new(),
                        library_id: 0,
                        system_class: false,
                        member_names: Vec::new(),
                        member_types: Vec::new(),
                    },
                );
                assert(strings_view(Seq::<String>::empty()) =~= Seq::<Seq<char>>::empty());
                assert(member_types_view(Seq::<MemberType>::empty()) =~= Seq::<MemberTypeV>::empty());
                assert(class_types_view(types@) =~= class_types_view(before).push(types@.last()@));
                assert(class_types_view(types@) =~= base + Seq::new(
                    (types@.len() - base.len()) as nat,
                    |k: int| empty_class_type(),
                ));
            }
            assert(class_types_view(types@) =~= padded(base, id as int));
            let ghost padded_view = class_types_view(types@);
            types.set(id, class_type);
            assert(class_types_view(types@) =~= padded_view.update(id as int, class_type@));
            i = i + 1;
        }
        assert(a.take(i as int) =~= a);
        Ok(types)
    }

    fn decode_class_type(item: &JsonValue) -> (r: Result<(usize, ClassType), String>)
        ensures
            match sp_class_type(item@) {
                Ok((id, ct)) => r matches Ok(x) && x.0 == id && x.1@ == ct,
                Err(m) => r matches Err(e) && e@ == m,
            },
    {
        let null_value = JsonValue::Null;
        let id = match item.field_u64("id") {
            Some(v) => v as usize,
            None => return Err(to_owned_string("Missing or invalid type id")),
        };
        let name = match item.field_str("name") {
            Some(s) => to_owned_string(s),
            None => return Err(to_owned_string("Missing type name")),
        };
        let library_id = match item.field_i64("library_id") {
            Some(v) => if i32::MIN as i64 <= v && v <= i32::MAX as i64 {
                v as i32
            } else {
                return Err(to_owned_string("library_id out of range"));
            },
            None => return Err(to_owned_string("Missing library_id")),
        };
        let system_class = match item.field_bool("system_class") {
            Some(b) => b,
            None => return Err(to_owned_string("Missing system_class")),
        };
        let names_json = match item.field_array("member_names") {
            Some(a) => a,
            None => return Err(to_owned_string("Missing member_names")),
        };
        let ghost na = items_view(names_json@);
        proof {
            lemma_items_view(names_json@);
        }
        let mut member_names: Vec<String> = Vec::new();
        assert(strings_view(member_names@) =~= na.take(0).map_values(|v: JsonV| name_of(v)));
        let mut k: usize = 0;
        while k < names_json.len()
            invariant
                k <= names_json@.len(),
                na == items_view(names_json@),
                na.len() == names_json@.len(),
                forall|j: int| 0 <= j < names_json@.len() ==> #[trigger] na[j] == names_json@[j]@,
                strings_view(member_names@) == na.take(k as int).map_values(|v: JsonV| name_of(v)),
            decreases names_json@.len() - k,
        {
            let n = match names_json[k].as_str() {
                Some(s) => to_owned_string(s),
                None => String::new(),
            };
            let ghost before = strings_view(member_names@);
            member_names.push(n);
            assert(strings_view(member_names@) =~= before.push(member_names@.last()@));
            assert(na.take(k + 1).map_values(|v: JsonV| name_of(v)) =~= na.take(k as int).map_values(
                |v: JsonV| name_of(v),
            ).push(name_of(na[k as int])));
            k = k + 1;
        }
        assert(na.take(k as int) =~= na);
        let member_types = match Self::decode_member_types(index_or_null(item, "member_types", &null_value)) {
            Ok(t) => t,
            Err(e) => return Err(e),
        };
        Ok((id, ClassType { name, library_id, system_class, member_names, member_types }))
    }

    fn decode_records(json: &JsonValue, class_types: &[ClassType]) -> (r: Result<HashMap<i32, Record>, String>)
        ensures
            match sp_records(json@, class_types_view(class_types@)) {
                Ok(m) => r matches Ok(h) && h@.map_values(|x: Record| x@) == m,
                Err(m) => r matches Err(e) && e@ == m,
            },
    {
        let obj = match json.as_object() {
            Some(o) => o,
            None => return Err(to_owned_string("records must be an object")),
        };
        let ghost cts = class_types_view(class_types@);
        let ghost es = entries_view(obj@);
        proof {
            lemma_entries_view(obj@);
        }
        let mut records: HashMap<i32, Record> = HashMap::new();
        assert(records@.map_values(|x: Record| x@) =~= Map::<i32, RecordV>::empty());
        assert(es.take(0) =~= Seq::<(Seq<char>, JsonV)>::empty());
        let mut i: usize = 0;
        while i < obj.len()
            invariant
                i <= obj@.len(),
                cts == class_types_view(class_types@),
                es == entries_view(obj@),
                es.len() == obj@.len(),
                forall|k: int| 0 <= k < obj@.len() ==> #[trigger] es[k] == (obj@[k].0@, obj@[k].1@),
                as_object(json@) == Some(es),
                sp_records_seq(es.take(i as int), cts) == Ok::<Map<i32, RecordV>, Seq<char>>(
                    records@.map_values(|x: Record| x@),
                ),
            decreases obj@.len() - i,
        {
            assert(es.take(i + 1).drop_last() =~= es.take(i as int));
            assert(es.take(i + 1).last() == es[i as int]);
            let id_str = obj[i].0.as_str();
            let id = match parse_i32(id_str) {
                Some(id) => id,
                None => {
                    proof {
                        lemma_records_err(es, cts, i + 1, "Invalid record id: "@ + id_str@);
                    }
                    return Err(message("Invalid record id: ", id_str));
                },
            };
            let record = match Self::decode_record(&obj[i].1, class_types) {
                Ok(r) => r,
                Err(e) => {
                    proof {
                        lemma_records_err(es, cts, i + 1, e@);
                    }
                    return Err(e);
                },
            };
            let ghost before = records@;
            let ghost rv = record@;
            records.insert(id, record);
            assert(records@.map_values(|x: Record| x@) =~= before.map_values(|x: Record| x@).insert(id, rv));
            i = i + 1;
        }
        assert(es.take(i as int) =~= es);
        Ok(records)
    }

    fn decode_record(json: &JsonValue, class_types: &[ClassType]) -> (r: Result<Record, String>)
        ensures
            match sp_record(json@, class_types_view(class_types@)) {
                Ok(rv) => r matches Ok(x) && x@ == rv,
                Err(m) => r matches Err(e) && e@ == m,
            },
    {
        let null_value = JsonValue::Null;
        let record_type = match json.field_str("type") {
            Some(t) => t,
            None => return Err(to_owned_string("Missing record type")),
        };
        if str_eq(record_type, "BinaryLibrary") {
            match json.field_str("value") {
                Some(v) => Ok(Record::BinaryLibrary(to_owned_string(v))),
                None => Err(to_owned_string("Missing BinaryLibrary value")),
            }
        } else if str_eq(record_type, "String") {
            match json.field_str("value") {
                Some(v) => Ok(Record::String(to_owned_string(v))),
                None => Err(to_owned_string("Missing String value")),
            }
        } else if str_eq(record_type, "Class") {
            let class_type_id = match json.field_u64("class_type_id") {
                Some(v) => v as usize,
                None => return Err(to_owned_string("Missing class_type_id")),
            };
            if class_type_id >= class_types.len() {
                return Err(text_with_int("Invalid class_type_id: ", class_type_id as i128));
            }
            let members = match Self::decode_class_members(json, class_types[class_type_id].member_types.as_slice()) {
                Ok(m) => m,
                Err(e) => return Err(e),
            };
            Ok(Record::Class(Class { class_type_id, members }))
        } else if str_eq(record_type, "BinaryArray") {
            let member_type = match Self::decode_member_type(index_or_null(json, "member_type", &null_value)) {
                Ok(t) => t,
                Err(e) => return Err(e),
            };
            let values = match json.field_array("values") {
                Some(a) => a,
                None => return Err(to_owned_string("Missing BinaryArray values")),
            };
            let members = match Self::decode_member_seq(values) {
                Ok(m) => m,
                Err(e) => return Err(e),
            };
            Ok(Record::BinaryArray(member_type, members))
        } else if str_eq(record_type, "PrimitiveArray") {
            let name = match json.field_str("primitive_type") {
                Some(p) => p,
                None => return Err(to_owned_string("Missing primitive_type")),
            };
            let prim_type = match Self::decode_primitive_type_name(name) {
                Ok(t) => t,
                Err(e) => return Err(e),
            };
            let values = match json.field_array("values") {
                Some(a) => a,
                None => return Err(to_owned_string("Missing PrimitiveArray values")),
            };
            let primitives = match Self::decode_primitive_seq(values) {
                Ok(p) => p,
                Err(e) => return Err(e),
            };
            Ok(Record::PrimitiveArray(prim_type, primitives))
        } else {
            Err(message("Unknown record type: ", record_type))
        }
    }

    /// Primitives one after another.
    fn decode_primitive_seq(values: &Vec<JsonValue>) -> (r: Result<Vec<Primitive>, String>)
        ensures
            match sp_primitives_seq(items_view(values@)) {
                Ok(ps) => r matches Ok(v) && primitives_view(v@) == ps,
                Err(m) => r matches Err(e) && e@ == m,
            },
    {
        let ghost a = items_view(values@);
        proof {
            lemma_items_view(values@);
        }
        let mut primitives: Vec<Primitive> = Vec::new();
        assert(a.take(0) =~= Seq::<JsonV>::empty());
        assert(primitives_view(primitives@) =~= Seq::<PrimitiveV>::empty());
        let mut i: usize = 0;
        while i < values.len()
            invariant
                i <= values@.len(),
                a == items_view(values@),
                a.len() == values@.len(),
                forall|k: int| 0 <= k < values@.len() ==> #[trigger] a[k] == values@[k]@,
                sp_primitives_seq(a.take(i as int)) == Ok::<Seq<PrimitiveV>, Seq<char>>(primitives_view(primitives@)),
            decreases values@.len() - i,
        {
            assert(a.take(i + 1).drop_last() =~= a.take(i as int));
            assert(a.take(i + 1).last() == a[i as int]);
            match Self::decode_primitive(&values[i]) {
                Ok(p) => {
                    let ghost before = primitives@;
                    primitives.push(p);
                    assert(primitives_view(primitives@) =~= primitives_view(before).push(primitives@.last()@));
                },
                Err(e) => {
                    proof {
                        lemma_primitives_err(a, i + 1, e@);
                    }
                    return Err(e);
                },
            }
            i = i + 1;
        }
        assert(a.take(i as int) =~= a);
        Ok(primitives)
    }

    fn decode_class_members(json: &JsonValue, types: &[MemberType]) -> (r: Result<Vec<Member>, String>)
        ensures
            match sp_class_members(json@, member_types_view(types@)) {
                Ok(ms) => r matches Ok(v) && members_view(v@) == ms,
                Err(m) => r matches Err(e) && e@ == m,
            },
    {
        match json.get("members") {
            Some(members) => Self::decode_members(members, types),
            None => Err(to_owned_string("Missing class members")),
        }
    }

    fn decode_members(json: &JsonValue, types: &[MemberType]) -> (r: Result<Vec<Member>, String>)
        ensures
            match sp_members(json@, member_types_view(types@)) {
                Ok(ms) => r matches Ok(v) && members_view(v@) == ms,
                Err(m) => r matches Err(e) && e@ == m,
            },
    {
        let arr = match json.as_array() {
            Some(a) => a,
            None => return Err(to_owned_string("members must be an array")),
        };
        proof {
            lemma_items_view(arr@);
        }
        if arr.len() != types.len() {
            let mut e = text_with_int("members count mismatch: expected ", types.len() as i128);
            push_str(&mut e, ", got ");
            push_int(&mut e, arr.len() as i128);
            return Err(e);
        }
        Self::decode_member_seq(arr)
    }

    /// Members one after another.
    fn decode_member_seq(arr: &Vec<JsonValue>) -> (r: Result<Vec<Member>, String>)
        ensures
            match sp_members_seq(items_view(arr@)) {
                Ok(ms) => r matches Ok(v) && members_view(v@) == ms,
                Err(m) => r matches Err(e) && e@ == m,
            },
    {
        let ghost a = items_view(arr@);
        proof {
            lemma_items_view(arr@);
        }
        let mut members: Vec<Member> = Vec::new();
        assert(a.take(0) =~= Seq::<JsonV>::empty());
        assert(members_view(members@) =~= Seq::<MemberV>::empty());
        let mut i: usize = 0;
        while i < arr.len()
            invariant
                i <= arr@.len(),
                a == items_view(arr@),
                a.len() == arr@.len(),
                forall|k: int| 0 <= k < arr@.len() ==> #[trigger] a[k] == arr@[k]@,
                sp_members_seq(a.take(i as int)) == Ok::<Seq<MemberV>, Seq<char>>(members_view(members@)),
            decreases arr@.len() - i,
        {
            assert(a.take(i + 1).drop_last() =~= a.take(i as int));
            assert(a.take(i + 1).last() == a[i as int]);
            match Self::decode_member(&arr[i], &MemberType::Object) {
                Ok(m) => {
                    let ghost before = members@;
                    members.push(m);
                    assert(members_view(members@) =~= members_view(before).push(members@.last()@));
                },
                Err(e) => {
                    proof {
                        lemma_members_err(a, i + 1, e@);
                    }
                    return Err(e);
                },
            }
            i = i + 1;
        }
        assert(a.take(i as int) =~= a);
        Ok(members)
    }

    /// A member; its declared type does not change how it is read.
    fn decode_member(json: &JsonValue, _member_type: &MemberType) -> (r: Result<Member, String>)
        ensures
            match sp_member(json@) {
                Ok(mv) => r matches Ok(x) && x@ == mv,
                Err(m) => r matches Err(e) && e@ == m,
            },
    {
        let member_type_str = match json.field_str("type") {
            Some(t) => t,
            None => return Err(to_owned_string("Missing member type")),
        };
        if str_eq(member_type_str, "Reference") {
            match json.field_i64("id") {
                Some(id) => if i32::MIN as i64 <= id && id <= i32::MAX as i64 {
                    Ok(Member::Reference(id as i32))
                } else {
                    Err(to_owned_string("reference id out of range"))
                },
                None => Err(to_owned_string("Missing reference id")),
            }
        } else if str_eq(member_type_str, "Null") {
            Ok(Member::Null)
        } else if str_eq(member_type_str, "PrimitiveNull") {
            Ok(Member::Primitive(Primitive::Null))
        } else if str_eq(member_type_str, "NullMultiple") {
            match json.field_i64("count") {
                Some(c) => if i32::MIN as i64 <= c && c <= i32::MAX as i64 {
                    Ok(Member::NullMultiple(c as i32))
                } else {
                    Err(to_owned_string("null count out of range"))
                },
                None => Err(to_owned_string("Missing null count")),
            }
        } else if is_value_kind_name(member_type_str) {
            match Self::decode_value_of_kind(json, member_type_str) {
                Ok(p) => Ok(Member::Primitive(p)),
                Err(e) => Err(e),
            }
        } else {
            Err(message("Unknown member type: ", member_type_str))
        }
    }

    /// A primitive of kind `t` from `json["value"]`.
    fn decode_value_of_kind(json: &JsonValue, t: &str) -> (r: Result<Primitive, String>)
        ensures
            match sp_value_of_kind(json@, t@) {
                Ok(pv) => r matches Ok(x) && x@ == pv,
                Err(m) => r matches Err(e) && e@ == m,
            },
    {
        if str_eq(t, "Boolean") {
            match json.field_bool("value") {
                Some(b) => Ok(Primitive::Boolean(b)),
                None => Err(to_owned_string("Missing boolean value")),
            }
        } else if str_eq(t, "Byte") {
            match json.field_u64("value") {
                Some(x) => if x <= u8::MAX as u64 {
                    Ok(Primitive::Byte(x as u8))
                } else {
                    Err(to_owned_string("byte value out of range"))
                },
                None => Err(to_owned_string("Missing byte value")),
            }
        } else if str_eq(t, "Char") {
            match json.field_str("value") {
                Some(s) => match first_char(s) {
                    Some(c) => Ok(Primitive::Char(c)),
                    None => Err(to_owned_string("Invalid char")),
                },
                None => Err(to_owned_string("Missing char value")),
            }
        } else if str_eq(t, "Decimal") {
            match json.field_str("value") {
                Some(s) => Ok(Primitive::Decimal(to_owned_string(s))),
                None => Err(to_owned_string("Missing decimal value")),
            }
        } else if str_eq(t, "Double") {
            match json.field_double("value") {
                Some(x) => Ok(Primitive::Double(x)),
                None => Err(to_owned_string("Missing double value")),
            }
        } else if str_eq(t, "Int16") {
            match json.field_i64("value") {
                Some(x) => if i16::MIN as i64 <= x && x <= i16::MAX as i64 {
                    Ok(Primitive::Int16(x as i16))
                } else {
                    Err(to_owned_string("int16 value out of range"))
                },
                None => Err(to_owned_string("Missing int16 value")),
            }
        } else if str_eq(t, "Int32") {
            match json.field_i64("value") {
                Some(x) => if i32::MIN as i64 <= x && x <= i32::MAX as i64 {
                    Ok(Primitive::Int32(x as i32))
                } else {
                    Err(to_owned_string("int32 value out of range"))
                },
                None => Err(to_owned_string("Missing int32 value")),
            }
        } else if str_eq(t, "Int64") {
            match json.field_i64("value") {
                Some(x) => Ok(Primitive::Int64(x)),
                None => Err(to_owned_string("Missing int64 value")),
            }
        } else if str_eq(t, "Int8") {
            match json.field_i64("value") {
                Some(x) => if i8::MIN as i64 <= x && x <= i8::MAX as i64 {
                    Ok(Primitive::Int8(x as i8))
                } else {
                    Err(to_owned_string("int8 value out of range"))
                },
                None => Err(to_owned_string("Missing int8 value")),
            }
        } else if str_eq(t, "Single") {
            match json.field_single("value") {
                Some(x) => Ok(Primitive::Single(x)),
                None => Err(to_owned_string("Missing single value")),
            }
        } else if str_eq(t, "TimeSpan") {
            match json.field_i64("value") {
                Some(x) => Ok(Primitive::TimeSpan(x)),
                None => Err(to_owned_string("Missing timespan value")),
            }
        } else if str_eq(t, "DateTime") {
            match json.field_i64("value") {
                Some(x) => Ok(Primitive::DateTime(x)),
                None => Err(to_owned_string("Missing datetime value")),
            }
        } else if str_eq(t, "UInt16") {
            match json.field_u64("value") {
                Some(x) => if x <= u16::MAX as u64 {
                    Ok(Primitive::UInt16(x as u16))
                } else {
                    Err(to_owned_string("uint16 value out of range"))
                },
                None => Err(to_owned_string("Missing uint16 value")),
            }
        } else if str_eq(t, "UInt32") {
            match json.field_u64("value") {
                Some(x) => if x <= u32::MAX as u64 {
                    Ok(Primitive::UInt32(x as u32))
                } else {
                    Err(to_owned_string("uint32 value out of range"))
                },
                None => Err(to_owned_string("Missing uint32 value")),
            }
        } else if str_eq(t, "UInt64") {
            match json.field_u64("value") {
                Some(x) => Ok(Primitive::UInt64(x)),
                None => Err(to_owned_string("Missing uint64 value")),
            }
        } else {
            match json.field_str("value") {
                Some(s) => Ok(Primitive::String(to_owned_string(s))),
                None => Err(to_owned_string("Missing string value")),
            }
        }
    }

    fn decode_primitive(json: &JsonValue) -> (r: Result<Primitive, String>)
        ensures
            match sp_primitive(json@) {
                Ok(pv) => r matches Ok(x) && x@ == pv,
                Err(m) => r matches Err(e) && e@ == m,
            },
    {
        let prim_type = match json.field_str("type") {
            Some(t) => t,
            None => return Err(to_owned_string("Missing primitive type")),
        };
        if is_value_kind_name(prim_type) {
            Self::decode_value_of_kind(json, prim_type)
        } else if str_eq(prim_type, "Null") {
            Ok(Primitive::Null)
        } else {
            Err(message("Unknown primitive type: ", prim_type))
        }
    }

    fn decode_member_types(json: &JsonValue) -> (r: Result<Vec<MemberType>, String>)
        ensures
            match sp_member_types(json@) {
                Ok(ts) => r matches Ok(v) && member_types_view(v@) == ts,
                Err(m) => r matches Err(e) && e@ == m,
            },
    {
        let arr = match json.as_array() {
            Some(a) => a,
            None => return Err(to_owned_string("member_types must be an array")),
        };
        let ghost a = items_view(arr@);
        proof {
            lemma_items_view(arr@);
        }
        let mut types: Vec<MemberType> = Vec::new();
        assert(a.take(0) =~= Seq::<JsonV>::empty());
        assert(member_types_view(types@) =~= Seq::<MemberTypeV>::empty());
        let mut i: usize = 0;
        while i < arr.len()
            invariant
                i <= arr@.len(),
                a == items_view(arr@),
                a.len() == arr@.len(),
                forall|k: int| 0 <= k < arr@.len() ==> #[trigger] a[k] == arr@[k]@,
                as_array(json@) == Some(a),
                sp_member_types_seq(a.take(i as int)) == Ok::<Seq<MemberTypeV>, Seq<char>>(member_types_view(types@)),
            decreases arr@.len() - i,
        {
            assert(a.take(i + 1).drop_last() =~= a.take(i as int));
            assert(a.take(i + 1).last() == a[i as int]);
            match Self::decode_member_type(&arr[i]) {
                Ok(t) => {
                    let ghost before = types@;
                    types.push(t);
                    assert(member_types_view(types@) =~= member_types_view(before).push(types@.last()@));
                },
                Err(e) => {
                    proof {
                        lemma_member_types_err(a, i + 1, e@);
                    }
                    return Err(e);
                },
            }
            i = i + 1;
        }
        assert(a.take(i as int) =~= a);
        Ok(types)
    }

    fn decode_member_type(json: &JsonValue) -> (r: Result<MemberType, String>)
        ensures
            match sp_member_type(json@) {
                Ok(tv) => r matches Ok(x) && x@ == tv,
                Err(m) => r matches Err(e) && e@ == m,
            },
    {
        let type_str = match json.field_str("type") {
            Some(t) => t,
            None => return Err(to_owned_string("Missing member type")),
        };
        if str_eq(type_str, "String") {
            Ok(MemberType::String)
        } else if str_eq(type_str, "Object") {
            Ok(MemberType::Object)
        } else if str_eq(type_str, "ObjectArray") {
            Ok(MemberType::ObjectArray)
        } else if str_eq(type_str, "StringArray") {
            Ok(MemberType::StringArray)
        } else if str_eq(type_str, "Primitive") {
            let name = match json.field_str("primitive_type") {
                Some(p) => p,
                None => return Err(to_owned_string("Missing primitive_type")),
            };
            match Self::decode_primitive_type_name(name) {
                Ok(t) => Ok(MemberType::Primitive(t)),
                Err(e) => Err(e),
            }
        } else if str_eq(type_str, "SystemClass") {
            match json.field_str("name") {
                Some(n) => Ok(MemberType::SystemClass(to_owned_string(n))),
                None => Err(to_owned_string("Missing SystemClass name")),
            }
        } else if str_eq(type_str, "Class") {
            let name = match json.field_str("name") {
                Some(n) => to_owned_string(n),
                None => return Err(to_owned_string("Missing Class name")),
            };
            match json.field_i64("library_id") {
                Some(l) => if i32::MIN as i64 <= l && l <= i32::MAX as i64 {
                    Ok(MemberType::Class(name, l as i32))
                } else {
                    Err(to_owned_string("library_id out of range"))
                },
                None => Err(to_owned_string("Missing library_id")),
            }
        } else if str_eq(type_str, "PrimitiveArray") {
            let name = match json.field_str("primitive_type") {
                Some(p) => p,
                None => return Err(to_owned_string("Missing primitive_type")),
            };
            match Self::decode_primitive_type_name(name) {
                Ok(t) => Ok(MemberType::PrimitiveArray(t)),
                Err(e) => Err(e),
            }
        } else {
            Err(message("Unknown member type: ", type_str))
        }
    }

    /// The primitive type a name stands for.
    pub fn decode_primitive_type_name(name: &str) -> (r: Result<PrimitiveType, String>)
        ensures
            match sp_primitive_type_name(name@) {
                Ok(t) => r matches Ok(x) && x == t,
                Err(m) => r matches Err(e) && e@ == m,
            },
    {
        if str_eq(name, "Boolean") {
            Ok(PrimitiveType::Boolean)
        } else if str_eq(name, "Byte") {
            Ok(PrimitiveType::Byte)
        } else if str_eq(name, "Char") {
            Ok(PrimitiveType::Char)
        } else if str_eq(name, "Decimal") {
            Ok(PrimitiveType::Decimal)
        } else if str_eq(name, "Double") {
            Ok(PrimitiveType::Double)
        } else if str_eq(name, "Int16") {
            Ok(PrimitiveType::Int16)
        } else if str_eq(name, "Int32") {
            Ok(PrimitiveType::Int32)
        } else if str_eq(name, "Int64") {
            Ok(PrimitiveType::Int64)
        } else if str_eq(name, "Int8") {
            Ok(PrimitiveType::Int8)
        } else if str_eq(name, "Single") {
            Ok(PrimitiveType::Single)
        } else if str_eq(name, "TimeSpan") {
            Ok(PrimitiveType::TimeSpan)
        } else if str_eq(name, "DateTime") {
            Ok(PrimitiveType::DateTime)
        } else if str_eq(name, "UInt16") {
            Ok(PrimitiveType::UInt16)
        } else if str_eq(name, "UInt32") {
            Ok(PrimitiveType::UInt32)
        } else if str_eq(name, "UInt64") {
            Ok(PrimitiveType::UInt64)
        } else if str_eq(name, "Null") {
            Ok(PrimitiveType::Null)
        } else if str_eq(name, "String") {
            Ok(PrimitiveType::String)
        } else {
            Err(message("Unknown primitive type: ", name))
        }
    }
}

/// A `Double` or `Single` value may be written as any JSON number, an integer
/// literal such as `3` included: whatever its kind, a number with a binary64
/// reading decodes, as a primitive or as a member, to a `Double` of that reading,
/// and one with a binary32 reading to a `Single` of it.
pub proof fn law_float_values_read_any_number(j: JsonV, n: crate::json::value::JsonNumber)
    requires
        field(j, "value"@) == Some(JsonV::Number(n)),
    ensures
        field(j, "type"@) == Some(JsonV::Str("Double"@)) ==> match n.as_double {
            Some(x) => sp_primitive(j) == Ok::<PrimitiveV, Seq<char>>(PrimitiveV::Double(x))
                && sp_member(j) == Ok::<MemberV, Seq<char>>(MemberV::Primitive(PrimitiveV::Double(x))),
            None => sp_primitive(j) is Err && sp_member(j) is Err,
        },
        field(j, "type"@) == Some(JsonV::Str("Single"@)) ==> match n.as_single {
            Some(x) => sp_primitive(j) == Ok::<PrimitiveV, Seq<char>>(PrimitiveV::Single(x))
                && sp_member(j) == Ok::<MemberV, Seq<char>>(MemberV::Primitive(PrimitiveV::Single(x))),
            None => sp_primitive(j) is Err && sp_member(j) is Err,
        },
{
    crate::json::roundtrip::lemma_json_names();
}

} // verus!
