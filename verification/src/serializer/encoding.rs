//! The bytes that each piece of a record is written as.
use crate::bytes::{encode_7bit, le_bytes};
use crate::records::{
    member_types_view, primitive_type_of, strings_view, ClassType, MemberTypeV, MemberV, PrimitiveType,
    PrimitiveV,
};
use vstd::prelude::*;
use vstd::utf8::encode_utf8;

verus! {

/// A little-endian `i32`.
pub open spec fn enc_i32(n: i32) -> Seq<u8> {
    le_bytes((n as u32) as nat, 4)
}

/// A string: the 7-bit encoded length of its UTF-8 bytes, then the bytes.
pub open spec fn enc_string(s: Seq<char>) -> Seq<u8> {
    encode_7bit(encode_utf8(s).len()) + encode_utf8(s)
}

/// Whether a string is short enough to be written (its length prefix holds at most 31 bits).
pub open spec fn string_fits(s: Seq<char>) -> bool {
    encode_utf8(s).len() <= 0x7FFF_FFFF
}

/// The code of a primitive type.
pub open spec fn primitive_type_code(t: PrimitiveType) -> u8 {
    match t {
        PrimitiveType::Boolean => 1,
        PrimitiveType::Byte => 2,
        PrimitiveType::Char => 3,
        PrimitiveType::Decimal => 5,
        PrimitiveType::Double => 6,
        PrimitiveType::Int16 => 7,
        PrimitiveType::Int32 => 8,
        PrimitiveType::Int64 => 9,
        PrimitiveType::Int8 => 10,
        PrimitiveType::Single => 11,
        PrimitiveType::TimeSpan => 12,
        PrimitiveType::DateTime => 13,
        PrimitiveType::UInt16 => 14,
        PrimitiveType::UInt32 => 15,
        PrimitiveType::UInt64 => 16,
        PrimitiveType::Null => 17,
        PrimitiveType::String => 18,
    }
}

/// A primitive value without its type: little-endian numbers, a `Char` as its
/// UTF-16 code unit (`?` when it needs two), strings length-prefixed, nothing for `Null`.
pub open spec fn enc_primitive(p: PrimitiveV) -> Seq<u8> {
    match p {
        PrimitiveV::Boolean(b) => seq![if b { 1u8 } else { 0u8 }],
        PrimitiveV::Byte(v) => seq![v],
        PrimitiveV::Char(c) => if (c as u32) > 0xFFFF {
            le_bytes(63, 2)
        } else {
            le_bytes((c as u32) as nat, 2)
        },
        PrimitiveV::Decimal(s) => enc_string(s),
        PrimitiveV::Double(bits) => le_bytes(bits as nat, 8),
        PrimitiveV::Int16(v) => le_bytes((v as u16) as nat, 2),
        PrimitiveV::Int32(v) => le_bytes((v as u32) as nat, 4),
        PrimitiveV::Int64(v) => le_bytes((v as u64) as nat, 8),
        PrimitiveV::Int8(v) => seq![v as u8],
        PrimitiveV::Single(bits) => le_bytes(bits as nat, 4),
        PrimitiveV::TimeSpan(v) => le_bytes((v as u64) as nat, 8),
        PrimitiveV::DateTime(v) => le_bytes((v as u64) as nat, 8),
        PrimitiveV::UInt16(v) => le_bytes(v as nat, 2),
        PrimitiveV::UInt32(v) => le_bytes(v as nat, 4),
        PrimitiveV::UInt64(v) => le_bytes(v as nat, 8),
        PrimitiveV::Null => Seq::empty(),
        PrimitiveV::String(s) => enc_string(s),
    }
}

/// Whether the strings a primitive holds can be written.
pub open spec fn primitive_fits(p: PrimitiveV) -> bool {
    match p {
        PrimitiveV::Decimal(s) => string_fits(s),
        PrimitiveV::String(s) => string_fits(s),
        _ => true,
    }
}

/// The code of a member type.
pub open spec fn member_type_code(t: MemberTypeV) -> u8 {
    match t {
        MemberTypeV::Primitive(_) => 0,
        MemberTypeV::String => 1,
        MemberTypeV::Object => 2,
        MemberTypeV::SystemClass(_) => 3,
        MemberTypeV::Class(..) => 4,
        MemberTypeV::ObjectArray => 5,
        MemberTypeV::StringArray => 6,
        MemberTypeV::PrimitiveArray(_) => 7,
    }
}

/// The additional information that follows the codes of member types.
pub open spec fn enc_member_type_info(t: MemberTypeV) -> Seq<u8> {
    match t {
        MemberTypeV::Primitive(p) => seq![primitive_type_code(p)],
        MemberTypeV::SystemClass(name) => enc_string(name),
        MemberTypeV::Class(name, lib) => enc_string(name) + enc_i32(lib),
        MemberTypeV::PrimitiveArray(p) => seq![primitive_type_code(p)],
        _ => Seq::empty(),
    }
}

/// Whether the names a member type holds can be written.
pub open spec fn member_type_fits(t: MemberTypeV) -> bool {
    match t {
        MemberTypeV::SystemClass(name) => string_fits(name),
        MemberTypeV::Class(name, _) => string_fits(name),
        _ => true,
    }
}

/// Strings one after another.
pub open spec fn enc_strings(s: Seq<Seq<char>>) -> Seq<u8>
    decreases s.len(),
{
    if s.len() == 0 {
        Seq::empty()
    } else {
        enc_strings(s.drop_last()) + enc_string(s.last())
    }
}

/// The codes of member types one after another.
pub open spec fn enc_type_codes(t: Seq<MemberTypeV>) -> Seq<u8>
    decreases t.len(),
{
    if t.len() == 0 {
        Seq::empty()
    } else {
        enc_type_codes(t.drop_last()).push(member_type_code(t.last()))
    }
}

/// The additional information of member types one after another.
pub open spec fn enc_type_infos(t: Seq<MemberTypeV>) -> Seq<u8>
    decreases t.len(),
{
    if t.len() == 0 {
        Seq::empty()
    } else {
        enc_type_infos(t.drop_last()) + enc_member_type_info(t.last())
    }
}

/// A class type as written after a class record's type byte: the record id,
/// the class name, the member count, the member names, the member type codes,
/// then their additional information.
pub open spec fn enc_class_type(id: i32, ct: ClassType) -> Seq<u8> {
    enc_i32(id) + enc_string(ct.name@) + enc_i32(ct.member_names.len() as i32) + enc_strings(
        strings_view(ct.member_names@),
    ) + enc_type_codes(member_types_view(ct.member_types@)) + enc_type_infos(
        member_types_view(ct.member_types@),
    )
}

/// Whether all the strings of a class type can be written.
pub open spec fn class_type_fits(ct: ClassType) -> bool {
    &&& string_fits(ct.name@)
    &&& forall|i: int| 0 <= i < ct.member_names.len() ==> string_fits(#[trigger] ct.member_names@[i]@)
    &&& forall|i: int| 0 <= i < ct.member_types.len() ==> member_type_fits(#[trigger] ct.member_types@[i]@)
}

/// A member as written with its declared type, when it is not a record
/// written in its place: bare when the type is primitive, else a typed
/// primitive, a reference, or nulls.
pub open spec fn enc_member(m: MemberV, t: MemberTypeV) -> Seq<u8> {
    if t is Primitive {
        match m {
            MemberV::Primitive(v) => enc_primitive(v),
            _ => Seq::empty(),
        }
    } else {
        match m {
            MemberV::Primitive(v) => seq![8u8, primitive_type_code(primitive_type_of(v))] + enc_primitive(v),
            MemberV::Reference(id) => seq![9u8] + enc_i32(id),
            MemberV::Null => seq![10u8],
            MemberV::NullMultiple(c) => if 0 < c <= 0xFF {
                seq![13u8, c as u8]
            } else {
                seq![14u8] + enc_i32(c)
            },
        }
    }
}

/// Members one after another, each with the declared type at its index.
pub open spec fn enc_members(ms: Seq<MemberV>, ts: Seq<MemberTypeV>) -> Seq<u8>
    decreases ms.len(),
{
    if ms.len() == 0 {
        Seq::empty()
    } else {
        enc_members(ms.drop_last(), ts) + enc_member(ms.last(), ts[ms.len() - 1])
    }
}

/// Array items one after another, all of declared type `t`.
pub open spec fn enc_items(vals: Seq<MemberV>, t: MemberTypeV) -> Seq<u8>
    decreases vals.len(),
{
    if vals.len() == 0 {
        Seq::empty()
    } else {
        enc_items(vals.drop_last(), t) + enc_member(vals.last(), t)
    }
}

} // verus!
