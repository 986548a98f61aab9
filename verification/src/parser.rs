//! Reading the binary format into a record graph.
use crate::bytes::{
    le_nat, lemma_le_nat_bound, lemma_pow256_values, pow256, read_i32_le, read_u16_le, read_u32_le, read_u64_le, pow128,
};
use crate::records::{
    class_types_view, members_view, primitives_view, strings_view, member_types_view, Class,
    ClassType, ClassTypeV, DeserializedRecord, DeserializedRecordV, Member, MemberType,
    MemberTypeV, MemberV, Primitive, PrimitiveType, PrimitiveV, Record, RecordMetadata, RecordV,
};
use crate::text::{int_text, push_str, string_from_utf8, text_with_int, to_owned_string,
    char_from_u32, utf8_error_text};
use std::collections::HashMap;
use vstd::prelude::*;
use vstd::utf8::{decode_utf8, valid_utf8};

verus! {

broadcast use vstd::std_specs::hash::group_hash_axioms;

/// What has been read so far: the position in the bytes, the class types met and
/// the ids of their defining records, the records, and where each record stood.
pub struct PState {
    pub pos: int,
    pub class_metadata: Map<i32, usize>,
    pub class_types: Seq<ClassTypeV>,
    pub records: Map<i32, RecordV>,
    pub record_metadata: Map<i32, RecordMetadata>,
    pub record_order: Seq<i32>,
}

/// The message of a read that ran past the end of the bytes.
pub open spec fn eof_message(what: Seq<char>) -> Seq<char> {
    "Failed to read "@ + what + ": failed to fill whole buffer"@
}

/// A byte at `pos`.
pub open spec fn sp_u8(b: Seq<u8>, pos: int) -> Result<(u8, int), Seq<char>> {
    if 0 <= pos < b.len() {
        Ok((b[pos], pos + 1))
    } else {
        Err(eof_message("u8"@))
    }
}

/// The little-endian value of the `n` bytes at `pos`, or the end-of-input message for `what`.
pub open spec fn sp_le(b: Seq<u8>, pos: int, n: int, what: Seq<char>) -> Result<(nat, int), Seq<char>> {
    if 0 <= pos && pos + n <= b.len() {
        Ok((le_nat(b.subrange(pos, pos + n)), pos + n))
    } else {
        Err(eof_message(what))
    }
}

/// A little-endian `i32` at `pos`.
pub open spec fn sp_i32(b: Seq<u8>, pos: int) -> Result<(i32, int), Seq<char>> {
    match sp_le(b, pos, 4, "i32"@) {
        Ok((v, p)) => Ok(((v as u32) as i32, p)),
        Err(e) => Err(e),
    }
}

/// Reads a 7-bit encoded integer whose first `i` bytes, worth `acc`, are read.
pub open spec fn sp_7bit_from(b: Seq<u8>, pos: int, i: nat, acc: nat) -> Result<(nat, int), Seq<char>>
    decreases 5 - i,
{
    if i >= 5 {
        Err("Invalid 7-bit encoded int (too long)"@)
    } else {
        match sp_u8(b, pos + i) {
            Err(e) => Err(e),
            Ok((byte, _)) => {
                let acc2 = acc + (byte % 128) as nat * pow128(i);
                if byte < 128 {
                    Ok((acc2, pos + i + 1))
                } else {
                    sp_7bit_from(b, pos, i + 1, acc2)
                }
            },
        }
    }
}

/// A 7-bit encoded integer at `pos`: seven bits per byte, least significant
/// group first, at most five bytes.
pub open spec fn sp_7bit(b: Seq<u8>, pos: int) -> Result<(nat, int), Seq<char>> {
    sp_7bit_from(b, pos, 0, 0)
}

/// A length-prefixed UTF-8 string at `pos`.
pub open spec fn sp_string(b: Seq<u8>, pos: int) -> Result<(Seq<char>, int), Seq<char>> {
    match sp_7bit(b, pos) {
        Err(e) => Err(e),
        Ok((len, p)) => if p + len > b.len() {
            Err("Failed to read string bytes: failed to fill whole buffer"@)
        } else {
            let bytes = b.subrange(p, p + len);
            if valid_utf8(bytes) {
                Ok((decode_utf8(bytes), p + len))
            } else {
                Err("Invalid UTF-8 string: "@ + utf8_error_text(bytes))
            }
        },
    }
}

/// The primitive type of a type code.
pub open spec fn primitive_type_of_code(v: u8) -> Option<PrimitiveType> {
    if v == 1 { Some(PrimitiveType::Boolean) }
    else if v == 2 { Some(PrimitiveType::Byte) }
    else if v == 3 { Some(PrimitiveType::Char) }
    else if v == 5 { Some(PrimitiveType::Decimal) }
    else if v == 6 { Some(PrimitiveType::Double) }
    else if v == 7 { Some(PrimitiveType::Int16) }
    else if v == 8 { Some(PrimitiveType::Int32) }
    else if v == 9 { Some(PrimitiveType::Int64) }
    else if v == 10 { Some(PrimitiveType::Int8) }
    else if v == 11 { Some(PrimitiveType::Single) }
    else if v == 12 { Some(PrimitiveType::TimeSpan) }
    else if v == 13 { Some(PrimitiveType::DateTime) }
    else if v == 14 { Some(PrimitiveType::UInt16) }
    else if v == 15 { Some(PrimitiveType::UInt32) }
    else if v == 16 { Some(PrimitiveType::UInt64) }
    else if v == 17 { Some(PrimitiveType::Null) }
    else if v == 18 { Some(PrimitiveType::String) }
    else { None }
}

/// A primitive type code at `pos`.
pub open spec fn sp_primitive_type(b: Seq<u8>, pos: int) -> Result<(PrimitiveType, int), Seq<char>> {
    match sp_u8(b, pos) {
        Err(e) => Err(e),
        Ok((v, p)) => match primitive_type_of_code(v) {
            Some(t) => Ok((t, p)),
            None => Err("Unknown primitive type code: "@ + int_text(v as int)),
        },
    }
}

/// Whether a code is a Unicode scalar value.
pub open spec fn is_scalar_code(v: nat) -> bool {
    v < 0xD800 || (0xE000 <= v && v <= 0x10FFFF)
}

/// A primitive value of type `t` at `pos`.
pub open spec fn sp_primitive(b: Seq<u8>, pos: int, t: PrimitiveType) -> Result<(PrimitiveV, int), Seq<char>> {
    match t {
        PrimitiveType::Boolean => match sp_u8(b, pos) {
            Ok((v, p)) => Ok((PrimitiveV::Boolean(v != 0), p)),
            Err(e) => Err(e),
        },
        PrimitiveType::Byte => match sp_u8(b, pos) {
            Ok((v, p)) => Ok((PrimitiveV::Byte(v), p)),
            Err(e) => Err(e),
        },
        PrimitiveType::Char => match sp_le(b, pos, 2, "u16"@) {
            Ok((v, p)) => if is_scalar_code(v) {
                Ok((PrimitiveV::Char((v as u32) as char), p))
            } else {
                Err("Invalid UTF-16 char value: "@ + int_text(v as int))
            },
            Err(e) => Err(e),
        },
        PrimitiveType::Decimal => match sp_string(b, pos) {
            Ok((s, p)) => Ok((PrimitiveV::Decimal(s), p)),
            Err(e) => Err(e),
        },
        PrimitiveType::Double => match sp_le(b, pos, 8, "f64"@) {
            Ok((v, p)) => Ok((PrimitiveV::Double(v as u64), p)),
            Err(e) => Err(e),
        },
        PrimitiveType::Int16 => match sp_le(b, pos, 2, "i16"@) {
            Ok((v, p)) => Ok((PrimitiveV::Int16((v as u16) as i16), p)),
            Err(e) => Err(e),
        },
        PrimitiveType::Int32 => match sp_le(b, pos, 4, "i32"@) {
            Ok((v, p)) => Ok((PrimitiveV::Int32((v as u32) as i32), p)),
            Err(e) => Err(e),
        },
        PrimitiveType::Int64 => match sp_le(b, pos, 8, "i64"@) {
            Ok((v, p)) => Ok((PrimitiveV::Int64((v as u64) as i64), p)),
            Err(e) => Err(e),
        },
        PrimitiveType::Int8 => match sp_le(b, pos, 1, "i8"@) {
            Ok((v, p)) => Ok((PrimitiveV::Int8((v as u8) as i8), p)),
            Err(e) => Err(e),
        },
        PrimitiveType::Single => match sp_le(b, pos, 4, "f32"@) {
            Ok((v, p)) => Ok((PrimitiveV::Single(v as u32), p)),
            Err(e) => Err(e),
        },
        PrimitiveType::TimeSpan => match sp_le(b, pos, 8, "i64"@) {
            Ok((v, p)) => Ok((PrimitiveV::TimeSpan((v as u64) as i64), p)),
            Err(e) => Err(e),
        },
        PrimitiveType::DateTime => match sp_le(b, pos, 8, "i64"@) {
            Ok((v, p)) => Ok((PrimitiveV::DateTime((v as u64) as i64), p)),
            Err(e) => Err(e),
        },
        PrimitiveType::UInt16 => match sp_le(b, pos, 2, "u16"@) {
            Ok((v, p)) => Ok((PrimitiveV::UInt16(v as u16), p)),
            Err(e) => Err(e),
        },
        PrimitiveType::UInt32 => match sp_le(b, pos, 4, "u32"@) {
            Ok((v, p)) => Ok((PrimitiveV::UInt32(v as u32), p)),
            Err(e) => Err(e),
        },
        PrimitiveType::UInt64 => match sp_le(b, pos, 8, "u64"@) {
            Ok((v, p)) => Ok((PrimitiveV::UInt64(v as u64), p)),
            Err(e) => Err(e),
        },
        PrimitiveType::Null => Ok((PrimitiveV::Null, pos)),
        PrimitiveType::String => match sp_string(b, pos) {
            Ok((s, p)) => Ok((PrimitiveV::String(s), p)),
            Err(e) => Err(e),
        },
    }
}

/// The member type of a member type code, before its additional information is read.
pub open spec fn member_type_of_code(v: u8) -> Option<MemberTypeV> {
    if v == 0 { Some(MemberTypeV::Primitive(PrimitiveType::Null)) }
    else if v == 1 { Some(MemberTypeV::String) }
    else if v == 2 { Some(MemberTypeV::Object) }
    else if v == 3 { Some(MemberTypeV::SystemClass(Seq::empty())) }
    else if v == 4 { Some(MemberTypeV::Class(Seq::empty(), 0)) }
    else if v == 5 { Some(MemberTypeV::ObjectArray) }
    else if v == 6 { Some(MemberTypeV::StringArray) }
    else if v == 7 { Some(MemberTypeV::PrimitiveArray(PrimitiveType::Null)) }
    else { None }
}

/// A member type code at `pos`.
pub open spec fn sp_member_type(b: Seq<u8>, pos: int) -> Result<(MemberTypeV, int), Seq<char>> {
    match sp_u8(b, pos) {
        Err(e) => Err(e),
        Ok((v, p)) => match member_type_of_code(v) {
            Some(t) => Ok((t, p)),
            None => Err("Unknown member type code: "@ + int_text(v as int)),
        },
    }
}

/// The additional information of member type `t` at `pos`, completing `t`.
pub open spec fn sp_additional_info(b: Seq<u8>, pos: int, t: MemberTypeV) -> Result<(MemberTypeV, int), Seq<char>> {
    match t {
        MemberTypeV::Primitive(_) => match sp_primitive_type(b, pos) {
            Ok((pt, p)) => Ok((MemberTypeV::Primitive(pt), p)),
            Err(e) => Err(e),
        },
        MemberTypeV::SystemClass(_) => match sp_string(b, pos) {
            Ok((name, p)) => Ok((MemberTypeV::SystemClass(name), p)),
            Err(e) => Err(e),
        },
        MemberTypeV::Class(_, _) => match sp_string(b, pos) {
            Ok((name, p)) => match sp_i32(b, p) {
                Ok((lib, p2)) => Ok((MemberTypeV::Class(name, lib), p2)),
                Err(e) => Err(e),
            },
            Err(e) => Err(e),
        },
        MemberTypeV::PrimitiveArray(_) => match sp_primitive_type(b, pos) {
            Ok((pt, p)) => Ok((MemberTypeV::PrimitiveArray(pt), p)),
            Err(e) => Err(e),
        },
        _ => Ok((t, pos)),
    }
}

/// `n` more strings after `acc`.
pub open spec fn sp_strings_acc(b: Seq<u8>, pos: int, n: nat, acc: Seq<Seq<char>>) -> Result<(Seq<Seq<char>>, int), Seq<char>>
    decreases n,
{
    if n == 0 {
        Ok((acc, pos))
    } else {
        match sp_string(b, pos) {
            Ok((s, p)) => sp_strings_acc(b, p, (n - 1) as nat, acc.push(s)),
            Err(e) => Err(e),
        }
    }
}

/// `n` more member type codes after `acc`.
pub open spec fn sp_member_types_acc(b: Seq<u8>, pos: int, n: nat, acc: Seq<MemberTypeV>) -> Result<(Seq<MemberTypeV>, int), Seq<char>>
    decreases n,
{
    if n == 0 {
        Ok((acc, pos))
    } else {
        match sp_member_type(b, pos) {
            Ok((t, p)) => sp_member_types_acc(b, p, (n - 1) as nat, acc.push(t)),
            Err(e) => Err(e),
        }
    }
}

/// The additional information of `types[i..]`, completing them after `acc`.
pub open spec fn sp_infos_acc(b: Seq<u8>, pos: int, types: Seq<MemberTypeV>, i: int, acc: Seq<MemberTypeV>) -> Result<(Seq<MemberTypeV>, int), Seq<char>>
    decreases types.len() - i,
{
    if i < 0 || i >= types.len() {
        Ok((acc, pos))
    } else {
        match sp_additional_info(b, pos, types[i]) {
            Ok((t, p)) => sp_infos_acc(b, p, types, i + 1, acc.push(t)),
            Err(e) => Err(e),
        }
    }
}

/// A class type at `pos`: its record id, name, member names and member types.
pub open spec fn sp_class_type(b: Seq<u8>, pos: int) -> Result<((i32, ClassTypeV), int), Seq<char>> {
    match sp_i32(b, pos) {
        Err(e) => Err(e),
        Ok((id, p1)) => match sp_string(b, p1) {
            Err(e) => Err(e),
            Ok((name, p2)) => match sp_i32(b, p2) {
                Err(e) => Err(e),
                Ok((count, p3)) => if count < 0 {
                    Err("Negative member count in class type"@)
                } else {
                    match sp_strings_acc(b, p3, count as nat, Seq::empty()) {
                        Err(e) => Err(e),
                        Ok((names, p4)) => match sp_member_types_acc(b, p4, count as nat, Seq::empty()) {
                            Err(e) => Err(e),
                            Ok((codes, p5)) => match sp_infos_acc(b, p5, codes, 0, Seq::empty()) {
                                Err(e) => Err(e),
                                Ok((types, p6)) => Ok((
                                    (
                                        id,
                                        ClassTypeV {
                                            name,
                                            library_id: 0,
                                            system_class: false,
                                            member_names: names,
                                            member_types: types,
                                        },
                                    ),
                                    p6,
                                )),
                            },
                        },
                    }
                },
            },
        },
    }
}

/// The header of a class record with its own class type: the class type, marked
/// as a system class or followed by its library id.
pub open spec fn sp_cmt_header(b: Seq<u8>, pos: int, system_class: bool) -> Result<((i32, ClassTypeV), int), Seq<char>> {
    match sp_class_type(b, pos) {
        Err(e) => Err(e),
        Ok(((id, ct), p)) => if system_class {
            Ok(((id, ClassTypeV { system_class: true, ..ct }), p))
        } else {
            match sp_i32(b, p) {
                Err(e) => Err(e),
                Ok((lib, p2)) => Ok(((id, ClassTypeV { system_class: false, library_id: lib, ..ct }), p2)),
            }
        },
    }
}

/// The header of a class record that reuses a class type: its object id and the
/// index of the class type that the metadata id names.
pub open spec fn sp_cwid_header(b: Seq<u8>, s: PState) -> Result<((i32, usize), int), Seq<char>> {
    match sp_i32(b, s.pos) {
        Err(e) => Err(e),
        Ok((object_id, p1)) => match sp_i32(b, p1) {
            Err(e) => Err(e),
            Ok((metadata_id, p2)) => if s.class_metadata.contains_key(metadata_id) {
                Ok(((object_id, s.class_metadata[metadata_id]), p2))
            } else {
                Err("Unknown class metadata id "@ + int_text(metadata_id as int))
            },
        },
    }
}

/// The header of an array record: its id, item type and length.
pub open spec fn sp_array_header(b: Seq<u8>, pos: int) -> Result<((i32, MemberTypeV, nat), int), Seq<char>> {
    match sp_i32(b, pos) {
        Err(e) => Err(e),
        Ok((id, p1)) => match sp_u8(b, p1) {
            Err(e) => Err(e),
            Ok((array_type, p2)) => if array_type != 0 {
                Err("Unsupported binary array type: "@ + int_text(array_type as int))
            } else {
                match sp_i32(b, p2) {
                    Err(e) => Err(e),
                    Ok((rank, p3)) => if rank != 1 {
                        Err("Unsupported binary array rank: "@ + int_text(rank as int))
                    } else {
                        match sp_i32(b, p3) {
                            Err(e) => Err(e),
                            Ok((length, p4)) => if length < 0 {
                                Err("Negative binary array length"@)
                            } else {
                                match sp_member_type(b, p4) {
                                    Err(e) => Err(e),
                                    Ok((code, p5)) => match sp_additional_info(b, p5, code) {
                                        Err(e) => Err(e),
                                        Ok((t, p6)) => Ok(((id, t, length as nat), p6)),
                                    },
                                }
                            },
                        }
                    },
                }
            },
        },
    }
}

/// `n` more primitives of type `t` after `acc`.
pub open spec fn sp_primitives_acc(b: Seq<u8>, pos: int, t: PrimitiveType, n: nat, acc: Seq<PrimitiveV>) -> Result<(Seq<PrimitiveV>, int), Seq<char>>
    decreases n,
{
    if n == 0 {
        Ok((acc, pos))
    } else {
        match sp_primitive(b, pos, t) {
            Ok((v, p)) => sp_primitives_acc(b, p, t, (n - 1) as nat, acc.push(v)),
            Err(e) => Err(e),
        }
    }
}

/// The state with its position moved to `pos`.
pub open spec fn at(s: PState, pos: int) -> PState {
    PState { pos, ..s }
}

/// The state with record `id` added.
pub open spec fn with_record(s: PState, id: i32, r: RecordV) -> PState {
    PState { records: s.records.insert(id, r), ..s }
}

/// A string record after its type byte.
pub open spec fn sp_binary_object_string(b: Seq<u8>, s: PState) -> Result<(i32, PState), Seq<char>> {
    match sp_i32(b, s.pos) {
        Err(e) => Err(e),
        Ok((id, p1)) => match sp_string(b, p1) {
            Err(e) => Err(e),
            Ok((v, p2)) => Ok((id, with_record(at(s, p2), id, RecordV::String(v)))),
        },
    }
}

/// A library record after its type byte.
pub open spec fn sp_binary_library(b: Seq<u8>, s: PState) -> Result<(i32, PState), Seq<char>> {
    match sp_i32(b, s.pos) {
        Err(e) => Err(e),
        Ok((id, p1)) => match sp_string(b, p1) {
            Err(e) => Err(e),
            Ok((v, p2)) => Ok((id, with_record(at(s, p2), id, RecordV::BinaryLibrary(v)))),
        },
    }
}

/// An array of primitives after its type byte.
pub open spec fn sp_array_single_primitive(b: Seq<u8>, s: PState) -> Result<(i32, PState), Seq<char>> {
    match sp_i32(b, s.pos) {
        Err(e) => Err(e),
        Ok((id, p1)) => match sp_i32(b, p1) {
            Err(e) => Err(e),
            Ok((length, p2)) => if length < 0 {
                Err("Negative primitive array length"@)
            } else {
                match sp_primitive_type(b, p2) {
                    Err(e) => Err(e),
                    Ok((t, p3)) => match sp_primitives_acc(b, p3, t, length as nat, Seq::empty()) {
                        Err(e) => Err(e),
                        Ok((vals, p4)) => Ok(
                            (id, with_record(at(s, p4), id, RecordV::PrimitiveArray(t, vals))),
                        ),
                    },
                }
            },
        },
    }
}

/// Where record `id`, which began at `start`, stood, noted once it is read.
pub open spec fn capture(s: PState, id: i32, record_type: u8, start: int) -> PState {
    PState {
        record_metadata: s.record_metadata.insert(
            id,
            RecordMetadata {
                original_record_type: record_type,
                start_offset: start as usize,
                end_offset: s.pos as usize,
                original_byte_length: (if s.pos >= start { s.pos - start } else { 0 }) as usize,
            },
        ),
        record_order: s.record_order.push(id),
        ..s
    }
}

/// Bytes left after `pos`, as a measure that reading never raises.
pub open spec fn rem(b: Seq<u8>, pos: int) -> nat {
    if pos < 0 {
        b.len()
    } else if pos > b.len() {
        0
    } else {
        (b.len() - pos) as nat
    }
}

/// Whether a code is one of the record types that `sp_object` reads.
pub open spec fn is_object_code(bt: u8) -> bool {
    bt == 1 || bt == 4 || bt == 5 || bt == 6 || bt == 7 || bt == 15
}

/// A member of declared type `t`: a primitive stored bare, or a typed member
/// (a nested record, a typed primitive, a reference, or nulls).
#[verifier::opaque]
pub open spec fn sp_member(b: Seq<u8>, s: PState, t: MemberTypeV) -> Result<(MemberV, PState), Seq<char>>
    decreases rem(b, s.pos), 0nat, 0nat,
{
    match t {
        MemberTypeV::Primitive(pt) => match sp_primitive(b, s.pos, pt) {
            Ok((v, p)) => Ok((MemberV::Primitive(v), at(s, p))),
            Err(e) => Err(e),
        },
        _ => match sp_u8(b, s.pos) {
            Err(e) => Err(e),
            Ok((bt, p1)) => {
                if is_object_code(bt) {
                    match sp_object(b, at(s, p1), bt) {
                        Ok((id, s2)) => Ok((MemberV::Reference(id), capture(s2, id, bt, s.pos))),
                        Err(e) => Err(e),
                    }
                } else if bt == 8 {
                    match sp_primitive_type(b, p1) {
                        Err(e) => Err(e),
                        Ok((pt, p2)) => match sp_primitive(b, p2, pt) {
                            Ok((v, p3)) => Ok((MemberV::Primitive(v), at(s, p3))),
                            Err(e) => Err(e),
                        },
                    }
                } else if bt == 9 {
                    match sp_i32(b, p1) {
                        Ok((id, p2)) => Ok((MemberV::Reference(id), at(s, p2))),
                        Err(e) => Err(e),
                    }
                } else if bt == 10 {
                    Ok((MemberV::Null, at(s, p1)))
                } else if bt == 13 {
                    match sp_u8(b, p1) {
                        Ok((n, p2)) => Ok((MemberV::NullMultiple(n as i32), at(s, p2))),
                        Err(e) => Err(e),
                    }
                } else if bt == 14 {
                    match sp_i32(b, p1) {
                        Ok((n, p2)) => Ok((MemberV::NullMultiple(n), at(s, p2))),
                        Err(e) => Err(e),
                    }
                } else {
                    Err("Unsupported member record type: "@ + int_text(bt as int))
                }
            },
        },
    }
}

/// Members of the types `types[i..]`, after the members `acc`.
pub open spec fn sp_members_acc(b: Seq<u8>, s: PState, types: Seq<MemberTypeV>, i: int, acc: Seq<MemberV>) -> Result<(Seq<MemberV>, PState), Seq<char>>
    decreases rem(b, s.pos), 0nat, (if 0 <= i <= types.len() { types.len() - i + 1 } else { 0 }) as nat,
{
    if i < 0 || i >= types.len() {
        Ok((acc, s))
    } else {
        match sp_member(b, s, types[i]) {
            Err(e) => Err(e),
            Ok((m, s2)) => if s2.pos < s.pos {
                Err(Seq::empty())
            } else {
                sp_members_acc(b, s2, types, i + 1, acc.push(m))
            },
        }
    }
}

/// `n` more array items of type `t`, after the items `acc`.
pub open spec fn sp_items_acc(b: Seq<u8>, s: PState, t: MemberTypeV, n: nat, acc: Seq<MemberV>) -> Result<(Seq<MemberV>, PState), Seq<char>>
    decreases rem(b, s.pos), 0nat, n + 1,
{
    if n == 0 {
        Ok((acc, s))
    } else {
        match sp_member(b, s, t) {
            Err(e) => Err(e),
            Ok((m, s2)) => if s2.pos < s.pos {
                Err(Seq::empty())
            } else {
                sp_items_acc(b, s2, t, (n - 1) as nat, acc.push(m))
            },
        }
    }
}

/// A record of type `bt` (a class, string or array record) after its type byte:
/// the record's id and the state with the record added.
#[verifier::opaque]
pub open spec fn sp_object(b: Seq<u8>, s: PState, bt: u8) -> Result<(i32, PState), Seq<char>>
    decreases rem(b, s.pos), 1nat, 0nat,
{
    if bt == 1 {
        match sp_cwid_header(b, s) {
            Err(e) => Err(e),
            Ok(((object_id, ctid), p)) => {
                proof {
                    lemma_cwid_header_advances(b, s);
                }
                match sp_members_acc(b, at(s, p), s.class_types[ctid as int].member_types, 0, Seq::empty()) {
                    Err(e) => Err(e),
                    Ok((ms, s2)) => Ok(
                        (object_id, with_record(s2, object_id, RecordV::Class(crate::records::ClassV { class_type_id: ctid, members: ms }))),
                    ),
                }
            },
        }
    } else if bt == 4 || bt == 5 {
        match sp_cmt_header(b, s.pos, bt == 4) {
            Err(e) => Err(e),
            Ok(((id, ct), p)) => {
                proof {
                    lemma_cmt_header_advances(b, s.pos, bt == 4);
                }
                let ctid = s.class_types.len() as usize;
                let s1 = PState {
                    pos: p,
                    class_types: s.class_types.push(ct),
                    class_metadata: s.class_metadata.insert(id, ctid),
                    ..s
                };
                match sp_members_acc(b, s1, ct.member_types, 0, Seq::empty()) {
                    Err(e) => Err(e),
                    Ok((ms, s2)) => Ok(
                        (id, with_record(s2, id, RecordV::Class(crate::records::ClassV { class_type_id: ctid, members: ms }))),
                    ),
                }
            },
        }
    } else if bt == 6 {
        sp_binary_object_string(b, s)
    } else if bt == 7 {
        match sp_array_header(b, s.pos) {
            Err(e) => Err(e),
            Ok(((id, t, n), p)) => {
                proof {
                    lemma_array_header_advances(b, s.pos);
                }
                match sp_items_acc(b, at(s, p), t, n, Seq::empty()) {
                    Err(e) => Err(e),
                    Ok((vals, s2)) => Ok((id, with_record(s2, id, RecordV::BinaryArray(t, vals)))),
                }
            },
        }
    } else {
        sp_array_single_primitive(b, s)
    }
}

pub proof fn lemma_members_acc_step(b: Seq<u8>, s: PState, types: Seq<MemberTypeV>, i: int, acc: Seq<MemberV>, m: MemberV, s2: PState)
    requires
        0 <= i < types.len(),
        sp_member(b, s, types[i]) == Ok::<(MemberV, PState), Seq<char>>((m, s2)),
        s2.pos >= s.pos,
    ensures
        sp_members_acc(b, s, types, i, acc) == sp_members_acc(b, s2, types, i + 1, acc.push(m)),
{
    reveal(sp_member);
}

pub proof fn lemma_members_acc_err(b: Seq<u8>, s: PState, types: Seq<MemberTypeV>, i: int, acc: Seq<MemberV>, e: Seq<char>)
    requires
        0 <= i < types.len(),
        sp_member(b, s, types[i]) == Err::<(MemberV, PState), Seq<char>>(e),
    ensures
        sp_members_acc(b, s, types, i, acc) == Err::<(Seq<MemberV>, PState), Seq<char>>(e),
{
    reveal(sp_member);
}

pub proof fn lemma_members_acc_done(b: Seq<u8>, s: PState, types: Seq<MemberTypeV>, i: int, acc: Seq<MemberV>)
    requires
        i >= types.len(),
    ensures
        sp_members_acc(b, s, types, i, acc) == Ok::<(Seq<MemberV>, PState), Seq<char>>((acc, s)),
{
    reveal(sp_member);
}

pub proof fn lemma_items_acc_step(b: Seq<u8>, s: PState, t: MemberTypeV, n: nat, acc: Seq<MemberV>, m: MemberV, s2: PState)
    requires
        n > 0,
        sp_member(b, s, t) == Ok::<(MemberV, PState), Seq<char>>((m, s2)),
        s2.pos >= s.pos,
    ensures
        sp_items_acc(b, s, t, n, acc) == sp_items_acc(b, s2, t, (n - 1) as nat, acc.push(m)),
{
    reveal(sp_member);
}

pub proof fn lemma_items_acc_err(b: Seq<u8>, s: PState, t: MemberTypeV, n: nat, acc: Seq<MemberV>, e: Seq<char>)
    requires
        n > 0,
        sp_member(b, s, t) == Err::<(MemberV, PState), Seq<char>>(e),
    ensures
        sp_items_acc(b, s, t, n, acc) == Err::<(Seq<MemberV>, PState), Seq<char>>(e),
{
    reveal(sp_member);
}

pub proof fn lemma_items_acc_done(b: Seq<u8>, s: PState, t: MemberTypeV, acc: Seq<MemberV>)
    ensures
        sp_items_acc(b, s, t, 0, acc) == Ok::<(Seq<MemberV>, PState), Seq<char>>((acc, s)),
{
    reveal(sp_member);
}

// ---- positions only move forward ----

pub proof fn lemma_7bit_advances(b: Seq<u8>, pos: int, i: nat, acc: nat)
    requires
        i == 0 || 0 <= pos,
    ensures
        sp_7bit_from(b, pos, i, acc) matches Ok((_, p)) ==> pos < p <= b.len() && 0 <= pos,
    decreases 5 - i,
{
    if i < 5 && 0 <= pos + i < b.len() {
        lemma_7bit_advances(b, pos, i + 1, acc + (b[pos + i] % 128) as nat * pow128(i));
    }
}

pub proof fn lemma_string_advances(b: Seq<u8>, pos: int)
    ensures
        sp_string(b, pos) matches Ok((_, p)) ==> pos < p <= b.len() && 0 <= pos,
{
    lemma_7bit_advances(b, pos, 0, 0);
}

pub proof fn lemma_strings_acc_advances(b: Seq<u8>, pos: int, n: nat, acc: Seq<Seq<char>>)
    ensures
        sp_strings_acc(b, pos, n, acc) matches Ok((_, p)) ==> pos <= p,
    decreases n,
{
    if n > 0 {
        lemma_string_advances(b, pos);
        if let Ok((s, p)) = sp_string(b, pos) {
            lemma_strings_acc_advances(b, p, (n - 1) as nat, acc.push(s));
        }
    }
}

pub proof fn lemma_member_types_acc_advances(b: Seq<u8>, pos: int, n: nat, acc: Seq<MemberTypeV>)
    ensures
        sp_member_types_acc(b, pos, n, acc) matches Ok((_, p)) ==> pos <= p,
    decreases n,
{
    if n > 0 {
        if let Ok((t, p)) = sp_member_type(b, pos) {
            lemma_member_types_acc_advances(b, p, (n - 1) as nat, acc.push(t));
        }
    }
}

pub proof fn lemma_additional_info_advances(b: Seq<u8>, pos: int, t: MemberTypeV)
    ensures
        sp_additional_info(b, pos, t) matches Ok((_, p)) ==> pos <= p,
{
    lemma_string_advances(b, pos);
}

pub proof fn lemma_infos_acc_advances(b: Seq<u8>, pos: int, types: Seq<MemberTypeV>, i: int, acc: Seq<MemberTypeV>)
    ensures
        sp_infos_acc(b, pos, types, i, acc) matches Ok((_, p)) ==> pos <= p,
    decreases types.len() - i,
{
    if 0 <= i < types.len() {
        lemma_additional_info_advances(b, pos, types[i]);
        if let Ok((t, p)) = sp_additional_info(b, pos, types[i]) {
            lemma_infos_acc_advances(b, p, types, i + 1, acc.push(t));
        }
    }
}

pub proof fn lemma_class_type_advances(b: Seq<u8>, pos: int)
    ensures
        sp_class_type(b, pos) matches Ok((_, p)) ==> pos <= p,
{
    if let Ok((id, p1)) = sp_i32(b, pos) {
        lemma_string_advances(b, p1);
        if let Ok((name, p2)) = sp_string(b, p1) {
            if let Ok((count, p3)) = sp_i32(b, p2) {
                if count >= 0 {
                    lemma_strings_acc_advances(b, p3, count as nat, Seq::empty());
                    if let Ok((names, p4)) = sp_strings_acc(b, p3, count as nat, Seq::empty()) {
                        lemma_member_types_acc_advances(b, p4, count as nat, Seq::empty());
                        if let Ok((codes, p5)) = sp_member_types_acc(b, p4, count as nat, Seq::empty()) {
                            lemma_infos_acc_advances(b, p5, codes, 0, Seq::empty());
                        }
                    }
                }
            }
        }
    }
}

pub proof fn lemma_cmt_header_advances(b: Seq<u8>, pos: int, system_class: bool)
    ensures
        sp_cmt_header(b, pos, system_class) matches Ok((_, p)) ==> pos <= p,
{
    lemma_class_type_advances(b, pos);
}

pub proof fn lemma_cwid_header_advances(b: Seq<u8>, s: PState)
    ensures
        sp_cwid_header(b, s) matches Ok((_, p)) ==> s.pos <= p,
{
}

pub proof fn lemma_array_header_advances(b: Seq<u8>, pos: int)
    ensures
        sp_array_header(b, pos) matches Ok((_, p)) ==> pos <= p,
{
    if let Ok((id, p1)) = sp_i32(b, pos) {
        if let Ok((at, p2)) = sp_u8(b, p1) {
            if let Ok((rank, p3)) = sp_i32(b, p2) {
                if let Ok((length, p4)) = sp_i32(b, p3) {
                    if let Ok((code, p5)) = sp_member_type(b, p4) {
                        lemma_additional_info_advances(b, p5, code);
                    }
                }
            }
        }
    }
}

/// A record at the top level after its type byte: a class, string or array
/// record, or a library record.
#[verifier::opaque]
pub open spec fn sp_record(b: Seq<u8>, s: PState, rt: u8) -> Result<(i32, PState), Seq<char>> {
    if is_object_code(rt) {
        sp_object(b, s, rt)
    } else if rt == 12 {
        sp_binary_library(b, s)
    } else {
        Err("Unsupported record type: "@ + int_text(rt as int))
    }
}

/// Top-level records up to the end record (type 11).
pub open spec fn sp_records(b: Seq<u8>, s: PState) -> Result<PState, Seq<char>>
    decreases rem(b, s.pos),
{
    match sp_u8(b, s.pos) {
        Err(e) => Err(e),
        Ok((rt, p1)) => if rt == 11 {
            Ok(at(s, p1))
        } else {
            match sp_record(b, at(s, p1), rt) {
                Err(e) => Err(e),
                Ok((id, s2)) => {
                    let s3 = capture(s2, id, rt, s.pos);
                    if s3.pos < p1 {
                        Err(Seq::empty())
                    } else {
                        sp_records(b, s3)
                    }
                },
            }
        },
    }
}

/// The state before any record is read.
pub open spec fn initial_state(pos: int) -> PState {
    PState {
        pos,
        class_metadata: Map::empty(),
        class_types: Seq::empty(),
        records: Map::empty(),
        record_metadata: Map::empty(),
        record_order: Seq::empty(),
    }
}

/// The record graph that a stream of bytes holds: a serialization header
/// (type 0, root id, header id, two version numbers), then records up to the
/// end record; or the message of the first fault met.
pub open spec fn sp_parse(b: Seq<u8>) -> Result<DeserializedRecordV, Seq<char>> {
    match sp_u8(b, 0) {
        Err(e) => Err(e),
        Ok((h, p0)) => if h != 0 {
            Err("Expected SerializationHeaderRecord (0), got "@ + int_text(h as int))
        } else {
            match sp_i32(b, p0) {
                Err(e) => Err(e),
                Ok((root_id, p1)) => match sp_i32(b, p1) {
                    Err(e) => Err(e),
                    Ok((header_id, p2)) => match sp_i32(b, p2) {
                        Err(e) => Err(e),
                        Ok((_major, p3)) => match sp_i32(b, p3) {
                            Err(e) => Err(e),
                            Ok((_minor, p4)) => match sp_records(b, initial_state(p4)) {
                                Err(e) => Err(e),
                                Ok(s) => Ok(
                                    DeserializedRecordV {
                                        root_id,
                                        header_id,
                                        records: s.records,
                                        class_types: s.class_types,
                                        record_metadata: s.record_metadata,
                                        record_order: s.record_order,
                                    },
                                ),
                            },
                        },
                    },
                },
            }
        },
    }
}

/// Reads the record graph that `bytes` hold.
pub fn parse(bytes: &[u8]) -> (r: Result<DeserializedRecord, String>)
    ensures
        match sp_parse(bytes@) {
            Ok(v) => r matches Ok(rec) && rec@ == v,
            Err(m) => r matches Err(e) && e@ == m,
        },
{
    Parser::new(bytes).parse()
}

struct Parser<'a> {
    input: &'a [u8],
    pos: usize,
    class_metadata: HashMap<i32, usize>,
    class_types: Vec<ClassType>,
    records: HashMap<i32, Record>,
    record_metadata: HashMap<i32, RecordMetadata>,
    record_order: Vec<i32>,
}

proof fn lemma_records_insert(m: Map<i32, Record>, k: i32, v: Record)
    ensures
        m.insert(k, v).map_values(|r: Record| r@) == m.map_values(|r: Record| r@).insert(k, v@),
{
    assert(m.insert(k, v).map_values(|r: Record| r@) =~= m.map_values(|r: Record| r@).insert(k, v@));
}

proof fn lemma_class_types_push(v: Seq<ClassType>, c: ClassType)
    ensures
        class_types_view(v.push(c)) == class_types_view(v).push(c@),
{
    assert(class_types_view(v.push(c)) =~= class_types_view(v).push(c@));
}

proof fn lemma_members_push(v: Seq<Member>, m: Member)
    ensures
        members_view(v.push(m)) == members_view(v).push(m@),
{
    assert(members_view(v.push(m)) =~= members_view(v).push(m@));
}

proof fn lemma_primitives_push(v: Seq<Primitive>, m: Primitive)
    ensures
        primitives_view(v.push(m)) == primitives_view(v).push(m@),
{
    assert(primitives_view(v.push(m)) =~= primitives_view(v).push(m@));
}

proof fn lemma_strings_push(v: Seq<String>, m: String)
    ensures
        strings_view(v.push(m)) == strings_view(v).push(m@),
{
    assert(strings_view(v.push(m)) =~= strings_view(v).push(m@));
}

proof fn lemma_member_types_push(v: Seq<MemberType>, m: MemberType)
    ensures
        member_types_view(v.push(m)) == member_types_view(v).push(m@),
{
    assert(member_types_view(v.push(m)) =~= member_types_view(v).push(m@));
}

fn eof_error(what: &str) -> (e: String)
    ensures
        e@ == eof_message(what@),
{
    let mut e = to_owned_string("Failed to read ");
    push_str(&mut e, what);
    push_str(&mut e, ": failed to fill whole buffer");
    e
}

/// A copy of a string.
fn copy_string(s: &String) -> (r: String)
    ensures
        r@ == s@,
{
    to_owned_string(s.as_str())
}

/// A copy of a member type.
pub fn copy_member_type(t: &MemberType) -> (r: MemberType)
    ensures
        r@ == t@,
{
    match t {
        MemberType::Primitive(p) => MemberType::Primitive(*p),
        MemberType::String => MemberType::String,
        MemberType::Object => MemberType::Object,
        MemberType::SystemClass(s) => MemberType::SystemClass(copy_string(s)),
        MemberType::Class(s, l) => MemberType::Class(copy_string(s), *l),
        MemberType::ObjectArray => MemberType::ObjectArray,
        MemberType::StringArray => MemberType::StringArray,
        MemberType::PrimitiveArray(p) => MemberType::PrimitiveArray(*p),
    }
}

/// A copy of a list of member types.
pub fn copy_member_types(v: &Vec<MemberType>) -> (r: Vec<MemberType>)
    ensures
        member_types_view(r@) == member_types_view(v@),
{
    let mut r: Vec<MemberType> = Vec::new();
    let mut i: usize = 0;
    while i < v.len()
        invariant
            i <= v@.len(),
            member_types_view(r@) == member_types_view(v@).take(i as int),
        decreases v@.len() - i,
    {
        let t = copy_member_type(&v[i]);
        proof {
            lemma_member_types_push(r@, t);
            assert(member_types_view(v@).take(i + 1) =~= member_types_view(v@).take(i as int).push(t@));
        }
        r.push(t);
        i = i + 1;
    }
    assert(member_types_view(v@).take(i as int) =~= member_types_view(v@));
    r
}

impl<'a> Parser<'a> {
    spec fn st(&self) -> PState {
        PState {
            pos: self.pos as int,
            class_metadata: self.class_metadata@,
            class_types: class_types_view(self.class_types@),
            records: self.records@.map_values(|r: Record| r@),
            record_metadata: self.record_metadata@,
            record_order: self.record_order@,
        }
    }

    spec fn wf(&self) -> bool {
        &&& self.pos <= self.input@.len()
        &&& forall|k: i32| #[trigger]
            self.class_metadata@.contains_key(k) ==> self.class_metadata@[k] < self.class_types@.len()
    }

    /// Everything but the position is as in `old`.
    spec fn same_but_pos(&self, old: &Parser<'a>) -> bool {
        &&& self.input == old.input
        &&& self.class_metadata == old.class_metadata
        &&& self.class_types == old.class_types
        &&& self.records == old.records
        &&& self.record_metadata == old.record_metadata
        &&& self.record_order == old.record_order
    }

    fn new(bytes: &'a [u8]) -> (p: Self)
        ensures
            p.wf(),
            p.input@ == bytes@,
            p.st() == initial_state(0),
    {
        let p = Parser {
            input: bytes,
            pos: 0,
            class_metadata: HashMap::new(),
            class_types: Vec::new(),
            records: HashMap::new(),
            record_metadata: HashMap::new(),
            record_order: Vec::new(),
        };
        assert(p.st().records =~= Map::<i32, RecordV>::empty());
        assert(p.st().class_types =~= Seq::<ClassTypeV>::empty());
        p
    }

    fn read_u8(&mut self) -> (r: Result<u8, String>)
        requires
            old(self).wf(),
        ensures
            final(self).wf(),
            final(self).same_but_pos(old(self)),
            final(self).pos >= old(self).pos,
            match sp_u8(old(self).input@, old(self).pos as int) {
                Ok((v, p)) => r matches Ok(x) && x == v && final(self).pos == p,
                Err(m) => r matches Err(e) && e@ == m,
            },
    {
        if self.pos < self.input.len() {
            let v = self.input[self.pos];
            self.pos = self.pos + 1;
            Ok(v)
        } else {
            Err(eof_error("u8"))
        }
    }

    fn read_i32(&mut self) -> (r: Result<i32, String>)
        requires
            old(self).wf(),
        ensures
            final(self).wf(),
            final(self).same_but_pos(old(self)),
            final(self).pos >= old(self).pos,
            match sp_i32(old(self).input@, old(self).pos as int) {
                Ok((v, p)) => r matches Ok(x) && x == v && final(self).pos == p,
                Err(m) => r matches Err(e) && e@ == m,
            },
    {
        if self.input.len() - self.pos >= 4 {
            let v = read_i32_le(self.input, self.pos);
            self.pos = self.pos + 4;
            Ok(v)
        } else {
            Err(eof_error("i32"))
        }
    }

    /// The little-endian value of the next `n` bytes (for `n` in 1, 2, 4, 8),
    /// with `what` naming the read in the end-of-input message.
    fn read_le(&mut self, n: usize, what: &str) -> (r: Result<u64, String>)
        requires
            old(self).wf(),
            n == 1 || n == 2 || n == 4 || n == 8,
        ensures
            final(self).wf(),
            final(self).same_but_pos(old(self)),
            final(self).pos >= old(self).pos,
            match sp_le(old(self).input@, old(self).pos as int, n as int, what@) {
                Ok((v, p)) => r matches Ok(x) && x as nat == v && final(self).pos == p,
                Err(m) => r matches Err(e) && e@ == m,
            },
            r matches Ok(x) ==> x < pow256(n as nat),
    {
        if self.input.len() - self.pos >= n {
            let ghost sub = self.input@.subrange(self.pos as int, self.pos + n);
            let v: u64 = if n == 1 {
                let x = self.input[self.pos];
                proof {
                    reveal_with_fuel(le_nat, 2);
                    assert(sub.drop_first().len() == 0);
                }
                x as u64
            } else if n == 2 {
                read_u16_le(self.input, self.pos) as u64
            } else if n == 4 {
                read_u32_le(self.input, self.pos) as u64
            } else {
                read_u64_le(self.input, self.pos)
            };
            proof {
                lemma_le_nat_bound(sub);
                lemma_pow256_values();
            }
            self.pos = self.pos + n;
            Ok(v)
        } else {
            Err(eof_error(what))
        }
    }

    #[verifier::loop_isolation(false)]
    fn read_7bit_encoded_int(&mut self) -> (r: Result<u64, String>)
        requires
            old(self).wf(),
        ensures
            final(self).wf(),
            final(self).same_but_pos(old(self)),
            final(self).pos >= old(self).pos,
            match sp_7bit(old(self).input@, old(self).pos as int) {
                Ok((v, p)) => r matches Ok(x) && x as nat == v && final(self).pos == p,
                Err(m) => r matches Err(e) && e@ == m,
            },
    {
        let ghost b = self.input@;
        let ghost start = self.pos as int;
        let mut result: u64 = 0;
        let mut mult: u64 = 1;
        let mut i: usize = 0;
        while i < 5
            invariant
                i <= 5,
                self.wf(),
                self.same_but_pos(old(self)),
                self.pos >= old(self).pos,
                b == self.input@,
                self.pos == start + i,
                mult as nat == pow128(i as nat),
                mult <= 268435456,
                result < mult,
                sp_7bit(b, start) == sp_7bit_from(b, start, i as nat, result as nat),
            decreases 5 - i,
        {
            let byte = self.read_u8()?;
            let low = (byte % 128) as u64;
            proof {
                reveal_with_fuel(pow128, 2);
                assert(result + low * mult < 128 * mult) by (nonlinear_arith)
                    requires
                        result < mult,
                        low < 128,
                ;
            }
            assert(low * mult <= 127 * 268435456) by (nonlinear_arith)
                requires
                    low < 128,
                    mult <= 268435456,
            ;
            result = result + low * mult;
            if byte < 128 {
                return Ok(result);
            }
            proof {
                if i < 4 {
                    reveal_with_fuel(pow128, 5);
                    assert(mult <= 2097152) by {
                        if i == 0 { } else if i == 1 { } else if i == 2 { } else { }
                    }
                }
            }
            if i == 4 {
                i = 5;
                break;
            }
            mult = mult * 128;
            i = i + 1;
        }
        Err(to_owned_string("Invalid 7-bit encoded int (too long)"))
    }

    #[verifier::loop_isolation(false)]
    fn read_string(&mut self) -> (r: Result<String, String>)
        requires
            old(self).wf(),
        ensures
            final(self).wf(),
            final(self).same_but_pos(old(self)),
            final(self).pos >= old(self).pos,
            match sp_string(old(self).input@, old(self).pos as int) {
                Ok((v, p)) => r matches Ok(x) && x@ == v && final(self).pos == p,
                Err(m) => r matches Err(e) && e@ == m,
            },
    {
        let length = self.read_7bit_encoded_int()?;
        let avail = self.input.len() - self.pos;
        if length > avail as u64 {
            return Err(to_owned_string("Failed to read string bytes: failed to fill whole buffer"));
        }
        let length = length as usize;
        let mut bytes: Vec<u8> = Vec::new();
        let start = self.pos;
        let mut i: usize = 0;
        while i < length
            invariant
                i <= length,
                start + length <= self.input@.len(),
                bytes@ == self.input@.subrange(start as int, start + i),
            decreases length - i,
        {
            bytes.push(self.input[start + i]);
            i = i + 1;
            assert(bytes@ =~= self.input@.subrange(start as int, start + i));
        }
        self.pos = start + length;
        match string_from_utf8(bytes) {
            Ok(s) => Ok(s),
            Err(e) => {
                let mut m = to_owned_string("Invalid UTF-8 string: ");
                push_str(&mut m, e.as_str());
                Err(m)
            },
        }
    }
}

impl<'a> Parser<'a> {
    fn read_primitive_type(&mut self) -> (r: Result<PrimitiveType, String>)
        requires
            old(self).wf(),
        ensures
            final(self).wf(),
            final(self).same_but_pos(old(self)),
            final(self).pos >= old(self).pos,
            match sp_primitive_type(old(self).input@, old(self).pos as int) {
                Ok((v, p)) => r matches Ok(x) && x == v && final(self).pos == p,
                Err(m) => r matches Err(e) && e@ == m,
            },
    {
        let v = self.read_u8()?;
        let t = if v == 1 {
            PrimitiveType::Boolean
        } else if v == 2 {
            PrimitiveType::Byte
        } else if v == 3 {
            PrimitiveType::Char
        } else if v == 5 {
            PrimitiveType::Decimal
        } else if v == 6 {
            PrimitiveType::Double
        } else if v == 7 {
            PrimitiveType::Int16
        } else if v == 8 {
            PrimitiveType::Int32
        } else if v == 9 {
            PrimitiveType::Int64
        } else if v == 10 {
            PrimitiveType::Int8
        } else if v == 11 {
            PrimitiveType::Single
        } else if v == 12 {
            PrimitiveType::TimeSpan
        } else if v == 13 {
            PrimitiveType::DateTime
        } else if v == 14 {
            PrimitiveType::UInt16
        } else if v == 15 {
            PrimitiveType::UInt32
        } else if v == 16 {
            PrimitiveType::UInt64
        } else if v == 17 {
            PrimitiveType::Null
        } else if v == 18 {
            PrimitiveType::String
        } else {
            return Err(text_with_int("Unknown primitive type code: ", v as i128));
        };
        Ok(t)
    }

    fn read_primitive(&mut self, typ: PrimitiveType) -> (r: Result<Primitive, String>)
        requires
            old(self).wf(),
        ensures
            final(self).wf(),
            final(self).same_but_pos(old(self)),
            final(self).pos >= old(self).pos,
            match sp_primitive(old(self).input@, old(self).pos as int, typ) {
                Ok((v, p)) => r matches Ok(x) && x@ == v && final(self).pos == p,
                Err(m) => r matches Err(e) && e@ == m,
            },
    {
        proof {
            lemma_pow256_values();
        }
        match typ {
            PrimitiveType::Boolean => {
                let v = self.read_u8()?;
                Ok(Primitive::Boolean(v != 0))
            },
            PrimitiveType::Byte => {
                let v = self.read_u8()?;
                Ok(Primitive::Byte(v))
            },
            PrimitiveType::Char => {
                let raw = self.read_le(2, "u16")?;
                let value = raw as u32;
                assert(value as nat == raw as nat);
                match char_from_u32(value) {
                    Some(c) => Ok(Primitive::Char(c)),
                    None => {
                        let e = text_with_int("Invalid UTF-16 char value: ", value as i128);
                        assert(!is_scalar_code(raw as nat));
                        assert(e@ == "Invalid UTF-16 char value: "@ + int_text(raw as int));
                        Err(e)
                    },
                }
            },
            PrimitiveType::Decimal => {
                let s = self.read_string()?;
                Ok(Primitive::Decimal(s))
            },
            PrimitiveType::Double => {
                let v = self.read_le(8, "f64")?;
                Ok(Primitive::Double(v))
            },
            PrimitiveType::Int16 => {
                let v = self.read_le(2, "i16")?;
                Ok(Primitive::Int16((v as u16) as i16))
            },
            PrimitiveType::Int32 => {
                let v = self.read_le(4, "i32")?;
                Ok(Primitive::Int32((v as u32) as i32))
            },
            PrimitiveType::Int64 => {
                let v = self.read_le(8, "i64")?;
                Ok(Primitive::Int64(v as i64))
            },
            PrimitiveType::Int8 => {
                let v = self.read_le(1, "i8")?;
                Ok(Primitive::Int8((v as u8) as i8))
            },
            PrimitiveType::Single => {
                let v = self.read_le(4, "f32")?;
                Ok(Primitive::Single(v as u32))
            },
            PrimitiveType::TimeSpan => {
                let v = self.read_le(8, "i64")?;
                Ok(Primitive::TimeSpan(v as i64))
            },
            PrimitiveType::DateTime => {
                let v = self.read_le(8, "i64")?;
                Ok(Primitive::DateTime(v as i64))
            },
            PrimitiveType::UInt16 => {
                let v = self.read_le(2, "u16")?;
                Ok(Primitive::UInt16(v as u16))
            },
            PrimitiveType::UInt32 => {
                let v = self.read_le(4, "u32")?;
                Ok(Primitive::UInt32(v as u32))
            },
            PrimitiveType::UInt64 => {
                let v = self.read_le(8, "u64")?;
                Ok(Primitive::UInt64(v))
            },
            PrimitiveType::Null => Ok(Primitive::Null),
            PrimitiveType::String => {
                let s = self.read_string()?;
                Ok(Primitive::String(s))
            },
        }
    }

    fn read_member_type(&mut self) -> (r: Result<MemberType, String>)
        requires
            old(self).wf(),
        ensures
            final(self).wf(),
            final(self).same_but_pos(old(self)),
            final(self).pos >= old(self).pos,
            match sp_member_type(old(self).input@, old(self).pos as int) {
                Ok((v, p)) => r matches Ok(x) && x@ == v && final(self).pos == p,
                Err(m) => r matches Err(e) && e@ == m,
            },
    {
        let v = self.read_u8()?;
        if v == 0 {
            Ok(MemberType::Primitive(PrimitiveType::Null))
        } else if v == 1 {
            Ok(MemberType::String)
        } else if v == 2 {
            Ok(MemberType::Object)
        } else if v == 3 {
            let s = String::new();
            Ok(MemberType::SystemClass(s))
        } else if v == 4 {
            let s = String::new();
            Ok(MemberType::Class(s, 0))
        } else if v == 5 {
            Ok(MemberType::ObjectArray)
        } else if v == 6 {
            Ok(MemberType::StringArray)
        } else if v == 7 {
            Ok(MemberType::PrimitiveArray(PrimitiveType::Null))
        } else {
            Err(text_with_int("Unknown member type code: ", v as i128))
        }
    }

    fn read_member_type_additional_info(&mut self, typ: MemberType) -> (r: Result<MemberType, String>)
        requires
            old(self).wf(),
        ensures
            final(self).wf(),
            final(self).same_but_pos(old(self)),
            final(self).pos >= old(self).pos,
            match sp_additional_info(old(self).input@, old(self).pos as int, typ@) {
                Ok((v, p)) => r matches Ok(x) && x@ == v && final(self).pos == p,
                Err(m) => r matches Err(e) && e@ == m,
            },
    {
        match typ {
            MemberType::Primitive(_) => {
                let t = self.read_primitive_type()?;
                Ok(MemberType::Primitive(t))
            },
            MemberType::SystemClass(_) => {
                let name = self.read_string()?;
                Ok(MemberType::SystemClass(name))
            },
            MemberType::Class(_, _) => {
                let name = self.read_string()?;
                let library_id = self.read_i32()?;
                Ok(MemberType::Class(name, library_id))
            },
            MemberType::PrimitiveArray(_) => {
                let t = self.read_primitive_type()?;
                Ok(MemberType::PrimitiveArray(t))
            },
            other => Ok(other),
        }
    }

    #[verifier::loop_isolation(false)]
    #[verifier::rlimit(100)]
    #[verifier::spinoff_prover]
    fn read_class_type(&mut self) -> (r: Result<(i32, ClassType), String>)
        requires
            old(self).wf(),
        ensures
            final(self).wf(),
            final(self).same_but_pos(old(self)),
            final(self).pos >= old(self).pos,
            match sp_class_type(old(self).input@, old(self).pos as int) {
                Ok(((id, ct), p)) => r matches Ok((x, c)) && x == id && c@ == ct && final(self).pos
                    == p,
                Err(m) => r matches Err(e) && e@ == m,
            },
    {
        let ghost b = self.input@;
        let id = self.read_i32()?;
        let name = self.read_string()?;
        let member_count = self.read_i32()?;
        if member_count < 0 {
            return Err(to_owned_string("Negative member count in class type"));
        }
        let n = member_count as usize;
        let ghost p3 = self.pos as int;
        let mut member_names: Vec<String> = Vec::new();
        assert(strings_view(member_names@) =~= Seq::<Seq<char>>::empty());
        let mut i: usize = 0;
        while i < n
            invariant
                i <= n,
                n == member_count,
                self.wf(),
                self.same_but_pos(old(self)),
                self.pos >= old(self).pos,
                b == self.input@,
                sp_strings_acc(b, p3, n as nat, Seq::empty()) == sp_strings_acc(
                    b,
                    self.pos as int,
                    (n - i) as nat,
                    strings_view(member_names@),
                ),
            decreases n - i,
        {
            let s = self.read_string()?;
            proof {
                lemma_strings_push(member_names@, s);
            }
            member_names.push(s);
            i = i + 1;
        }
        let ghost p4 = self.pos as int;
        let mut codes: Vec<MemberType> = Vec::new();
        assert(member_types_view(codes@) =~= Seq::<MemberTypeV>::empty());
        let mut i: usize = 0;
        while i < n
            invariant
                i <= n,
                self.wf(),
                self.same_but_pos(old(self)),
                self.pos >= old(self).pos,
                b == self.input@,
                sp_member_types_acc(b, p4, n as nat, Seq::empty()) == sp_member_types_acc(
                    b,
                    self.pos as int,
                    (n - i) as nat,
                    member_types_view(codes@),
                ),
            decreases n - i,
        {
            let t = self.read_member_type()?;
            proof {
                lemma_member_types_push(codes@, t);
            }
            codes.push(t);
            i = i + 1;
        }
        let ghost p5 = self.pos as int;
        let ghost codes_v = member_types_view(codes@);
        let mut member_types: Vec<MemberType> = Vec::new();
        assert(member_types_view(member_types@) =~= Seq::<MemberTypeV>::empty());
        let mut i: usize = 0;
        while i < codes.len()
            invariant
                i <= codes@.len(),
                codes_v == member_types_view(codes@),
                self.wf(),
                self.same_but_pos(old(self)),
                self.pos >= old(self).pos,
                b == self.input@,
                sp_infos_acc(b, p5, codes_v, 0, Seq::empty()) == sp_infos_acc(
                    b,
                    self.pos as int,
                    codes_v,
                    i as int,
                    member_types_view(member_types@),
                ),
            decreases codes@.len() - i,
        {
            let t = copy_member_type(&codes[i]);
            let t2 = self.read_member_type_additional_info(t)?;
            proof {
                lemma_member_types_push(member_types@, t2);
            }
            member_types.push(t2);
            i = i + 1;
        }
        Ok((id, ClassType { name, library_id: 0, system_class: false, member_names, member_types }))
    }

    fn capture_record_metadata(&mut self, record_id: i32, record_type: u8, start_offset: usize)
        requires
            old(self).wf(),
        ensures
            final(self).wf(),
            final(self).input == old(self).input,
            final(self).st() == capture(old(self).st(), record_id, record_type, start_offset as int),
            final(self).pos == old(self).pos,
    {
        let end_offset = self.pos;
        let len = if end_offset >= start_offset {
            end_offset - start_offset
        } else {
            0
        };
        self.record_metadata.insert(
            record_id,
            RecordMetadata {
                original_record_type: record_type,
                start_offset,
                end_offset,
                original_byte_length: len,
            },
        );
        self.record_order.push(record_id);
    }

    fn read_binary_object_string(&mut self) -> (r: Result<i32, String>)
        requires
            old(self).wf(),
        ensures
            final(self).wf(),
            final(self).input == old(self).input,
            r is Ok ==> final(self).pos >= old(self).pos,
            match sp_object(old(self).input@, old(self).st(), 6) {
                Ok((id, s)) => r matches Ok(x) && x == id && final(self).st() == s,
                Err(m) => r matches Err(e) && e@ == m,
            },
    {
        reveal(sp_object);
        let id = self.read_i32()?;
        let value = self.read_string()?;
        proof {
            lemma_records_insert(self.records@, id, Record::String(value));
        }
        self.records.insert(id, Record::String(value));
        Ok(id)
    }

    fn read_binary_library(&mut self) -> (r: Result<i32, String>)
        requires
            old(self).wf(),
        ensures
            final(self).wf(),
            final(self).input == old(self).input,
            r is Ok ==> final(self).pos >= old(self).pos,
            match sp_binary_library(old(self).input@, old(self).st()) {
                Ok((id, s)) => r matches Ok(x) && x == id && final(self).st() == s,
                Err(m) => r matches Err(e) && e@ == m,
            },
    {
        let id = self.read_i32()?;
        let name = self.read_string()?;
        proof {
            lemma_records_insert(self.records@, id, Record::BinaryLibrary(name));
        }
        self.records.insert(id, Record::BinaryLibrary(name));
        Ok(id)
    }

    #[verifier::loop_isolation(false)]
    fn read_array_single_primitive(&mut self) -> (r: Result<i32, String>)
        requires
            old(self).wf(),
        ensures
            final(self).wf(),
            final(self).input == old(self).input,
            r is Ok ==> final(self).pos >= old(self).pos,
            match sp_object(old(self).input@, old(self).st(), 15) {
                Ok((id, s)) => r matches Ok(x) && x == id && final(self).st() == s,
                Err(m) => r matches Err(e) && e@ == m,
            },
    {
        reveal(sp_object);
        let ghost b = self.input@;
        let id = self.read_i32()?;
        let length = self.read_i32()?;
        if length < 0 {
            return Err(to_owned_string("Negative primitive array length"));
        }
        let primitive_type = self.read_primitive_type()?;
        let ghost p3 = self.pos as int;
        let n = length as usize;
        let mut values: Vec<Primitive> = Vec::new();
        assert(primitives_view(values@) =~= Seq::<PrimitiveV>::empty());
        let mut i: usize = 0;
        while i < n
            invariant
                i <= n,
                n == length,
                self.wf(),
                self.same_but_pos(old(self)),
                self.pos >= old(self).pos,
                b == self.input@,
                sp_primitives_acc(b, p3, primitive_type, n as nat, Seq::empty()) == sp_primitives_acc(
                    b,
                    self.pos as int,
                    primitive_type,
                    (n - i) as nat,
                    primitives_view(values@),
                ),
            decreases n - i,
        {
            let v = self.read_primitive(primitive_type)?;
            proof {
                lemma_primitives_push(values@, v);
            }
            values.push(v);
            i = i + 1;
        }
        proof {
            lemma_records_insert(self.records@, id, Record::PrimitiveArray(primitive_type, values));
        }
        self.records.insert(id, Record::PrimitiveArray(primitive_type, values));
        Ok(id)
    }
}

impl<'a> Parser<'a> {
    #[verifier::rlimit(100)]
    #[verifier::spinoff_prover]
    fn read_member(&mut self, expected: &MemberType) -> (r: Result<Member, String>)
        requires
            old(self).wf(),
        ensures
            final(self).wf(),
            final(self).input == old(self).input,
            r is Ok ==> final(self).pos >= old(self).pos,
            match sp_member(old(self).input@, old(self).st(), expected@) {
                Ok((v, s)) => r matches Ok(x) && x@ == v && final(self).st() == s,
                Err(m) => r matches Err(e) && e@ == m,
            },
        decreases rem(old(self).input@, old(self).pos as int), 0nat, 0nat,
    {
        reveal(sp_member);
        if let MemberType::Primitive(primitive_type) = expected {
            let v = self.read_primitive(*primitive_type)?;
            return Ok(Member::Primitive(v));
        }
        let binary_type = self.read_u8()?;
        let nested_record_start = self.pos - 1;
        if binary_type == 1 {
            let id = self.read_class_with_id()?;
            self.capture_record_metadata(id, binary_type, nested_record_start);
            Ok(Member::Reference(id))
        } else if binary_type == 4 {
            let id = self.read_class_with_members_and_types(true)?;
            self.capture_record_metadata(id, binary_type, nested_record_start);
            Ok(Member::Reference(id))
        } else if binary_type == 5 {
            let id = self.read_class_with_members_and_types(false)?;
            self.capture_record_metadata(id, binary_type, nested_record_start);
            Ok(Member::Reference(id))
        } else if binary_type == 6 {
            let id = self.read_binary_object_string()?;
            self.capture_record_metadata(id, binary_type, nested_record_start);
            Ok(Member::Reference(id))
        } else if binary_type == 7 {
            let id = self.read_binary_array()?;
            self.capture_record_metadata(id, binary_type, nested_record_start);
            Ok(Member::Reference(id))
        } else if binary_type == 8 {
            let primitive_type = self.read_primitive_type()?;
            let v = self.read_primitive(primitive_type)?;
            Ok(Member::Primitive(v))
        } else if binary_type == 9 {
            let id = self.read_i32()?;
            Ok(Member::Reference(id))
        } else if binary_type == 10 {
            Ok(Member::Null)
        } else if binary_type == 13 {
            let n = self.read_u8()?;
            Ok(Member::NullMultiple(n as i32))
        } else if binary_type == 14 {
            let n = self.read_i32()?;
            Ok(Member::NullMultiple(n))
        } else if binary_type == 15 {
            let id = self.read_array_single_primitive()?;
            self.capture_record_metadata(id, binary_type, nested_record_start);
            Ok(Member::Reference(id))
        } else {
            Err(text_with_int("Unsupported member record type: ", binary_type as i128))
        }
    }

    fn read_members(&mut self, member_types: &Vec<MemberType>) -> (r: Result<Vec<Member>, String>)
        requires
            old(self).wf(),
        ensures
            final(self).wf(),
            final(self).input == old(self).input,
            r is Ok ==> final(self).pos >= old(self).pos,
            match sp_members_acc(
                old(self).input@,
                old(self).st(),
                member_types_view(member_types@),
                0,
                Seq::empty(),
            ) {
                Ok((v, s)) => r matches Ok(x) && members_view(x@) == v && final(self).st() == s,
                Err(m) => r matches Err(e) && e@ == m,
            },
        decreases rem(old(self).input@, old(self).pos as int), 0nat, 1nat,
    {
        let ghost b = self.input@;
        let ghost tv = member_types_view(member_types@);
        let mut members: Vec<Member> = Vec::new();
        assert(members_view(members@) =~= Seq::<MemberV>::empty());
        let mut i: usize = 0;
        while i < member_types.len()
            invariant
                i <= member_types@.len(),
                tv == member_types_view(member_types@),
                self.wf(),
                self.input == old(self).input,
                b == self.input@,
                self.pos >= old(self).pos,
                sp_members_acc(b, old(self).st(), tv, 0, Seq::empty()) == sp_members_acc(
                    b,
                    self.st(),
                    tv,
                    i as int,
                    members_view(members@),
                ),
            decreases member_types@.len() - i,
        {
            let ghost st_i = self.st();
            let ghost acc = members_view(members@);
            assert(tv[i as int] == member_types@[i as int]@);
            let m = match self.read_member(&member_types[i]) {
                Ok(m) => m,
                Err(e) => {
                    proof {
                        lemma_members_acc_err(b, st_i, tv, i as int, acc, e@);
                    }
                    return Err(e);
                },
            };
            proof {
                lemma_members_push(members@, m);
                lemma_members_acc_step(b, st_i, tv, i as int, acc, m@, self.st());
            }
            members.push(m);
            i = i + 1;
        }
        proof {
            lemma_members_acc_done(b, self.st(), tv, i as int, members_view(members@));
        }
        Ok(members)
    }

    fn read_class_with_id(&mut self) -> (r: Result<i32, String>)
        requires
            old(self).wf(),
        ensures
            final(self).wf(),
            final(self).input == old(self).input,
            r is Ok ==> final(self).pos >= old(self).pos,
            match sp_object(old(self).input@, old(self).st(), 1) {
                Ok((id, s)) => r matches Ok(x) && x == id && final(self).st() == s,
                Err(m) => r matches Err(e) && e@ == m,
            },
        decreases rem(old(self).input@, old(self).pos as int), 1nat, 0nat,
    {
        reveal(sp_object);
        let object_id = self.read_i32()?;
        let metadata_id = self.read_i32()?;
        let class_type_id = match self.class_metadata.get(&metadata_id) {
            Some(c) => *c,
            None => {
                return Err(text_with_int("Unknown class metadata id ", metadata_id as i128));
            },
        };
        let member_types = copy_member_types(&self.class_types[class_type_id].member_types);
        let members = self.read_members(&member_types)?;
        proof {
            lemma_records_insert(
                self.records@,
                object_id,
                Record::Class(Class { class_type_id, members }),
            );
        }
        self.records.insert(object_id, Record::Class(Class { class_type_id, members }));
        Ok(object_id)
    }

    #[verifier::rlimit(100)]
    #[verifier::spinoff_prover]
    fn read_class_with_members_and_types(&mut self, system_class: bool) -> (r: Result<i32, String>)
        requires
            old(self).wf(),
        ensures
            final(self).wf(),
            final(self).input == old(self).input,
            r is Ok ==> final(self).pos >= old(self).pos,
            match sp_object(old(self).input@, old(self).st(), if system_class { 4 } else { 5 }) {
                Ok((id, s)) => r matches Ok(x) && x == id && final(self).st() == s,
                Err(m) => r matches Err(e) && e@ == m,
            },
        decreases rem(old(self).input@, old(self).pos as int), 1nat, 0nat,
    {
        reveal(sp_object);
        let (id, mut class_type) = self.read_class_type()?;
        class_type.system_class = system_class;
        if !system_class {
            class_type.library_id = self.read_i32()?;
        }
        let class_type_id = self.class_types.len();
        proof {
            lemma_class_types_push(self.class_types@, class_type);
        }
        self.class_types.push(class_type);
        self.class_metadata.insert(id, class_type_id);
        let member_types = copy_member_types(&self.class_types[class_type_id].member_types);
        let members = self.read_members(&member_types)?;
        proof {
            lemma_records_insert(self.records@, id, Record::Class(Class { class_type_id, members }));
        }
        self.records.insert(id, Record::Class(Class { class_type_id, members }));
        Ok(id)
    }

    #[verifier::loop_isolation(false)]
    #[verifier::rlimit(100)]
    #[verifier::spinoff_prover]
    fn read_binary_array(&mut self) -> (r: Result<i32, String>)
        requires
            old(self).wf(),
        ensures
            final(self).wf(),
            final(self).input == old(self).input,
            r is Ok ==> final(self).pos >= old(self).pos,
            match sp_object(old(self).input@, old(self).st(), 7) {
                Ok((id, s)) => r matches Ok(x) && x == id && final(self).st() == s,
                Err(m) => r matches Err(e) && e@ == m,
            },
        decreases rem(old(self).input@, old(self).pos as int), 1nat, 0nat,
    {
        reveal(sp_object);
        let ghost b = self.input@;
        let id = self.read_i32()?;
        let array_type = self.read_u8()?;
        if array_type != 0 {
            return Err(text_with_int("Unsupported binary array type: ", array_type as i128));
        }
        let rank = self.read_i32()?;
        if rank != 1 {
            return Err(text_with_int("Unsupported binary array rank: ", rank as i128));
        }
        let length = self.read_i32()?;
        if length < 0 {
            return Err(to_owned_string("Negative binary array length"));
        }
        let code = self.read_member_type()?;
        let member_type = self.read_member_type_additional_info(code)?;
        let ghost s2 = self.st();
        let n = length as usize;
        let mut values: Vec<Member> = Vec::new();
        assert(members_view(values@) =~= Seq::<MemberV>::empty());
        let mut i: usize = 0;
        while i < n
            invariant
                i <= n,
                n == length,
                self.wf(),
                self.input == old(self).input,
                b == self.input@,
                self.pos >= old(self).pos,
                sp_items_acc(b, s2, member_type@, n as nat, Seq::empty()) == sp_items_acc(
                    b,
                    self.st(),
                    member_type@,
                    (n - i) as nat,
                    members_view(values@),
                ),
            decreases n - i,
        {
            let ghost st_i = self.st();
            let ghost acc = members_view(values@);
            let m = match self.read_member(&member_type) {
                Ok(m) => m,
                Err(e) => {
                    proof {
                        lemma_items_acc_err(b, st_i, member_type@, (n - i) as nat, acc, e@);
                    }
                    return Err(e);
                },
            };
            proof {
                lemma_members_push(values@, m);
                lemma_items_acc_step(b, st_i, member_type@, (n - i) as nat, acc, m@, self.st());
            }
            values.push(m);
            i = i + 1;
        }
        proof {
            lemma_items_acc_done(b, self.st(), member_type@, members_view(values@));
        }
        proof {
            lemma_records_insert(self.records@, id, Record::BinaryArray(member_type, values));
        }
        self.records.insert(id, Record::BinaryArray(member_type, values));
        Ok(id)
    }

    #[verifier::rlimit(100)]
    #[verifier::spinoff_prover]
    fn read_record(&mut self, record_type: u8) -> (r: Result<i32, String>)
        requires
            old(self).wf(),
        ensures
            final(self).wf(),
            final(self).input == old(self).input,
            r is Ok ==> final(self).pos >= old(self).pos,
            match sp_record(old(self).input@, old(self).st(), record_type) {
                Ok((id, s)) => r matches Ok(x) && x == id && final(self).st() == s,
                Err(m) => r matches Err(e) && e@ == m,
            },
    {
        reveal(sp_record);
        if record_type == 1 {
            self.read_class_with_id()
        } else if record_type == 4 {
            self.read_class_with_members_and_types(true)
        } else if record_type == 5 {
            self.read_class_with_members_and_types(false)
        } else if record_type == 6 {
            self.read_binary_object_string()
        } else if record_type == 7 {
            self.read_binary_array()
        } else if record_type == 12 {
            self.read_binary_library()
        } else if record_type == 15 {
            self.read_array_single_primitive()
        } else {
            Err(text_with_int("Unsupported record type: ", record_type as i128))
        }
    }

    #[verifier::rlimit(100)]
    #[verifier::spinoff_prover]
    #[verifier::loop_isolation(false)]
    fn parse(self) -> (r: Result<DeserializedRecord, String>)
        requires
            self.wf(),
            self.st() == initial_state(0),
        ensures
            match sp_parse(self.input@) {
                Ok(v) => r matches Ok(rec) && rec@ == v,
                Err(m) => r matches Err(e) && e@ == m,
            },
    {
        let mut p = self;
        let ghost b = p.input@;
        let header_record_type = p.read_u8()?;
        if header_record_type != 0 {
            return Err(
                text_with_int(
                    "Expected SerializationHeaderRecord (0), got ",
                    header_record_type as i128,
                ),
            );
        }
        let root_id = p.read_i32()?;
        let header_id = p.read_i32()?;
        let _major_version = p.read_i32()?;
        let _minor_version = p.read_i32()?;
        let ghost s0 = p.st();
        assert(s0 == initial_state(s0.pos));
        loop
            invariant
                p.wf(),
                b == p.input@,
                sp_records(b, s0) == sp_records(b, p.st()),
            decreases rem(b, p.pos as int),
        {
            let record_start = p.pos;
            let record_type = p.read_u8()?;
            if record_type == 11 {
                break;
            }
            let record_id = p.read_record(record_type)?;
            p.capture_record_metadata(record_id, record_type, record_start);
        }
        let rec = DeserializedRecord {
            root_id,
            header_id,
            records: p.records,
            class_types: p.class_types,
            record_metadata: p.record_metadata,
            record_order: p.record_order,
        };
        Ok(rec)
    }
}

} // verus!
