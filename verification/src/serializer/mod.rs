pub mod class_readback;
pub mod config;
pub mod encoding;
pub mod nested_roundtrip;
pub mod order;
pub mod record_roundtrip;
pub mod readback;
pub mod sizes;
pub mod stream_roundtrip;
pub mod string_patcher;

use crate::bytes::{
    encode_7bit, write_i16_le, write_i32_le, write_i64_le, write_i8, write_u16_le,
    write_u32_le, write_u64_le, write_u8,
};
use crate::records::{
    member_types_view, primitive_type_of, primitives_view, strings_view, Class, ClassType,
    DeserializedRecord, Member, MemberType, Primitive, PrimitiveType, PrimitiveV,
    Record,
};
use crate::text::{int_text, push_int, push_str, text_with_int, to_owned_string};
use sizes::{lemma_primitive_size_is_encoding_len, member_size, primitive_size};
use string_patcher::string_record_size;
use record_roundtrip::inlined;
use order::{key_lt, order_key, sort_ids, sorted_ids};
use encoding::{
    class_type_fits, enc_class_type, enc_i32, enc_member_type_info, enc_primitive, enc_string,
    enc_strings, enc_type_codes, enc_type_infos, member_type_code, member_type_fits,
    primitive_fits, primitive_type_code, string_fits,
};
use std::collections::{HashMap, HashSet, VecDeque};
use vstd::prelude::*;
use vstd::std_specs::iter::IteratorSpec;
use vstd::string::*;
use vstd::utf8::encode_utf8;

verus! {

broadcast use vstd::std_specs::hash::group_hash_axioms;

/// The writer's state: the bytes written so far, the ids queued to be written
/// (`todo`) and every id ever queued or written (`done`), the ids written
/// (`emitted`), and for each class type the id of the record that wrote it out.
pub struct SState {
    pub output: Seq<u8>,
    pub todo: Seq<i32>,
    pub done: Set<i32>,
    pub emitted: Set<i32>,
    pub class_metadata: Map<usize, i32>,
}

/// The bytes written.
pub open spec fn append(st: SState, bytes: Seq<u8>) -> SState {
    SState { output: st.output + bytes, ..st }
}

/// Queues `id` unless it was ever queued or written.
pub open spec fn add_todo(st: SState, id: i32) -> SState {
    if st.done.contains(id) {
        st
    } else {
        SState { done: st.done.insert(id), todo: st.todo.push(id), ..st }
    }
}

/// Whether record `child` is written inside record `parent`: both have
/// metadata and the child's bytes lay strictly inside the parent's.
pub open spec fn should_inline(recs: DeserializedRecord, parent: Option<i32>, child: i32) -> bool {
    match parent {
        None => false,
        Some(p) => {
            &&& recs.record_metadata@.contains_key(p)
            &&& recs.record_metadata@.contains_key(child)
            &&& recs.record_metadata@[p].start_offset < recs.record_metadata@[child].start_offset
            &&& recs.record_metadata@[child].end_offset <= recs.record_metadata@[p].end_offset
        },
    }
}

/// How far a record's recorded bytes reach, a measure that nesting lowers.
pub open spec fn span(recs: DeserializedRecord, id: i32) -> nat {
    if recs.record_metadata@.contains_key(id) {
        (recs.record_metadata@[id].end_offset - recs.record_metadata@[id].start_offset
            + 0x1_0000_0000_0000_0000) as nat
    } else {
        0
    }
}

pub open spec fn span_of(recs: DeserializedRecord, parent: Option<i32>) -> nat {
    match parent {
        Some(p) => span(recs, p),
        None => 0,
    }
}

/// The refusal when a record's metadata names another record type than its kind is written as.
pub open spec fn type_mismatch(recs: DeserializedRecord, id: i32, w: u8) -> Option<Seq<char>> {
    if recs.record_metadata@.contains_key(id) && recs.record_metadata@[id].original_record_type != w {
        Some(
            "Record "@ + int_text(id as int) + " metadata/type mismatch: original record type "@
                + int_text(recs.record_metadata@[id].original_record_type as int)
                + " but writer would emit "@ + int_text(w as int),
        )
    } else {
        None
    }
}

/// The record type a class record is written as: the original one when known;
/// else 4 for a system class, 1 when its class type was written already, 5 otherwise.
pub open spec fn class_record_type(recs: DeserializedRecord, st: SState, id: i32, class: Class, ct: ClassType) -> u8 {
    if recs.record_metadata@.contains_key(id) {
        recs.record_metadata@[id].original_record_type
    } else if ct.system_class {
        4
    } else if st.class_metadata.contains_key(class.class_type_id) {
        1
    } else {
        5
    }
}

/// The refusal when a record of fixed layout (not a class, string or array of
/// objects) is written with another length than it had.
pub open spec fn size_error(recs: DeserializedRecord, id: i32, start: int, end: int) -> Option<Seq<char>> {
    if !recs.record_metadata@.contains_key(id) {
        None
    } else {
        let m = recs.record_metadata@[id];
        let size = if end >= start { end - start } else { 0 };
        if m.original_record_type == 1 || m.original_record_type == 4 || m.original_record_type == 5
            || m.original_record_type == 6 || m.original_record_type == 7 {
            None
        } else if size != m.original_byte_length {
            Some(
                "Record size mismatch at record_id="@ + int_text(id as int) + " (type="@ + int_text(
                    m.original_record_type as int,
                ) + ", original offsets "@ + int_text(m.start_offset as int) + ".."@ + int_text(
                    m.end_offset as int,
                ) + "): serialized offsets "@ + int_text(start) + ".."@ + int_text(end)
                    + ", original_size="@ + int_text(m.original_byte_length as int)
                    + " bytes, serialized_size="@ + int_text(size) + " bytes."@,
            )
        } else {
            None
        }
    }
}

/// A record that was a class record (record types 1, 4 and 5), a string (6) or
/// an array of objects (7) is never refused for its length: the length check
/// passes whatever offsets it is written at, so writing it by id fails only
/// where writing the record itself fails.
pub proof fn law_variable_length_records_exempt(recs: DeserializedRecord, st: SState, id: i32, start: int, end: int)
    requires
        recs.record_metadata@.contains_key(id),
        recs.record_metadata@[id].original_record_type == 1 || recs.record_metadata@[id].original_record_type == 4
            || recs.record_metadata@[id].original_record_type == 5 || recs.record_metadata@[id].original_record_type == 6
            || recs.record_metadata@[id].original_record_type == 7,
    ensures
        size_error(recs, id, start, end) is None,
        !st.emitted.contains(id) && recs.records@.contains_key(id) ==> (
            sp_write_record_by_id(recs, st, id) is Ok <==> sp_write_record(recs, st, id, recs.records@[id]) is Ok),
{
}

/// Primitives one after another.
pub open spec fn enc_primitives(v: Seq<PrimitiveV>) -> Seq<u8>
    decreases v.len(),
{
    if v.len() == 0 {
        Seq::empty()
    } else {
        enc_primitives(v.drop_last()) + enc_primitive(v.last())
    }
}

/// Writes record `id` unless it was written already, then checks its length.
pub open spec fn sp_write_record_by_id(recs: DeserializedRecord, st: SState, id: i32) -> Result<SState, Seq<char>>
    decreases span(recs, id), 2nat, 0nat,
{
    if st.emitted.contains(id) {
        Ok(st)
    } else if !recs.records@.contains_key(id) {
        Err("Missing record "@ + int_text(id as int))
    } else {
        match sp_write_record(recs, st, id, recs.records@[id]) {
            Err(e) => Err(e),
            Ok(st2) => match size_error(recs, id, st.output.len() as int, st2.output.len() as int) {
                Some(e) => Err(e),
                None => Ok(SState { emitted: st2.emitted.insert(id), done: st2.done.insert(id), ..st2 }),
            },
        }
    }
}

/// Writes record `id`: its type byte and header, then its contents.
pub open spec fn sp_write_record(recs: DeserializedRecord, st: SState, id: i32, record: Record) -> Result<SState, Seq<char>>
    decreases span(recs, id), 1nat, 0nat,
{
    match record {
        Record::BinaryLibrary(name) => match type_mismatch(recs, id, 12) {
            Some(e) => Err(e),
            None => Ok(append(st, seq![12u8] + enc_i32(id) + enc_string(name@))),
        },
        Record::Class(class) => {
            let ct = recs.class_types@[class.class_type_id as int];
            let rt = class_record_type(recs, st, id, class, ct);
            let header: Result<SState, Seq<char>> = if rt == 1 {
                if st.class_metadata.contains_key(class.class_type_id) {
                    Ok(append(st, seq![1u8] + enc_i32(id) + enc_i32(st.class_metadata[class.class_type_id])))
                } else {
                    Err(
                        "Record "@ + int_text(id as int)
                            + " requires ClassWithId(1) but no metadata class id is available for class_type_id "@
                            + int_text(class.class_type_id as int),
                    )
                }
            } else if rt == 4 {
                let s1 = append(st, seq![4u8] + enc_class_type(id, ct));
                Ok(SState { class_metadata: s1.class_metadata.insert(class.class_type_id, id), ..s1 })
            } else if rt == 5 {
                let s1 = append(st, seq![5u8] + enc_class_type(id, ct) + enc_i32(ct.library_id));
                Ok(SState { class_metadata: s1.class_metadata.insert(class.class_type_id, id), ..s1 })
            } else {
                Err(
                    "Record "@ + int_text(id as int)
                        + " is a Class but metadata requires unsupported record type "@ + int_text(
                        rt as int,
                    ),
                )
            };
            match header {
                Err(e) => Err(e),
                Ok(s1) => sp_write_members(recs, s1, Some(id), class.members@, ct.member_types@, 0),
            }
        },
        Record::BinaryArray(typ, vals) => match type_mismatch(recs, id, 7) {
            Some(e) => Err(e),
            None => {
                let s1 = append(
                    st,
                    seq![7u8] + enc_i32(id) + seq![0u8] + enc_i32(1) + enc_i32(vals.len() as i32) + seq![
                        member_type_code(typ@),
                    ] + enc_member_type_info(typ@),
                );
                sp_write_items(recs, s1, Some(id), vals@, typ, 0)
            },
        },
        Record::PrimitiveArray(typ, vals) => match type_mismatch(recs, id, 15) {
            Some(e) => Err(e),
            None => Ok(
                append(
                    st,
                    seq![15u8] + enc_i32(id) + enc_i32(vals.len() as i32) + seq![primitive_type_code(typ)]
                        + enc_primitives(primitives_view(vals@)),
                ),
            ),
        },
        Record::String(v) => match type_mismatch(recs, id, 6) {
            Some(e) => Err(e),
            None => Ok(append(st, seq![6u8] + enc_i32(id) + enc_string(v@))),
        },
    }
}

/// Whether writing `record` is refused before any byte of it is written: its
/// metadata names another record type than its kind is written as, or, for a
/// class record, a record type the writer cannot give it.
pub open spec fn refused_before_writing(recs: DeserializedRecord, st: SState, id: i32, record: Record) -> bool {
    match record {
        Record::BinaryLibrary(_) => type_mismatch(recs, id, 12) is Some,
        Record::String(_) => type_mismatch(recs, id, 6) is Some,
        Record::PrimitiveArray(..) => type_mismatch(recs, id, 15) is Some,
        Record::BinaryArray(..) => type_mismatch(recs, id, 7) is Some,
        Record::Class(class) => {
            let rt = class_record_type(recs, st, id, class, recs.class_types@[class.class_type_id as int]);
            !(rt == 4 || rt == 5 || (rt == 1 && st.class_metadata.contains_key(class.class_type_id)))
        },
    }
}

/// Writes the members `members[i..]` with their declared types (as far as both go).
pub open spec fn sp_write_members(recs: DeserializedRecord, st: SState, parent: Option<i32>, members: Seq<Member>, types: Seq<MemberType>, i: int) -> Result<SState, Seq<char>>
    decreases span_of(recs, parent), 0nat, (if 0 <= i <= members.len() { members.len() - i + 1 } else { 0 }) as nat,
{
    if i < 0 || i >= members.len() || i >= types.len() {
        Ok(st)
    } else {
        match sp_write_member(recs, st, parent, members[i], types[i]) {
            Err(e) => Err(e),
            Ok(s2) => sp_write_members(recs, s2, parent, members, types, i + 1),
        }
    }
}

/// Writes the array items `vals[i..]`, all of declared type `t`.
pub open spec fn sp_write_items(recs: DeserializedRecord, st: SState, parent: Option<i32>, vals: Seq<Member>, t: MemberType, i: int) -> Result<SState, Seq<char>>
    decreases span_of(recs, parent), 0nat, (if 0 <= i <= vals.len() { vals.len() - i + 1 } else { 0 }) as nat,
{
    if i < 0 || i >= vals.len() {
        Ok(st)
    } else {
        match sp_write_member(recs, st, parent, vals[i], t) {
            Err(e) => Err(e),
            Ok(s2) => sp_write_items(recs, s2, parent, vals, t, i + 1),
        }
    }
}

/// Writes one member: bare when its declared type is primitive; otherwise a
/// typed primitive, the referenced record itself when it lay inside the parent,
/// a reference (queueing its target), or nulls.
#[verifier::opaque]
pub open spec fn sp_write_member(recs: DeserializedRecord, st: SState, parent: Option<i32>, member: Member, t: MemberType) -> Result<SState, Seq<char>>
    decreases span_of(recs, parent), 0nat, 0nat,
{
    if t is Primitive {
        match member {
            Member::Primitive(v) => Ok(append(st, enc_primitive(v@))),
            _ => Err("Non primitive member for primitive field"@),
        }
    } else {
        match member {
            Member::Primitive(v) => Ok(
                append(st, seq![8u8, primitive_type_code(primitive_type_of(v@))] + enc_primitive(v@)),
            ),
            Member::Reference(cid) => if should_inline(recs, parent, cid) {
                sp_write_record_by_id(recs, st, cid)
            } else {
                Ok(add_todo(append(st, seq![9u8] + enc_i32(cid)), cid))
            },
            Member::Null => Ok(append(st, seq![10u8])),
            Member::NullMultiple(c) => if c <= 0 {
                Err("NullMultiple count must be positive, got "@ + int_text(c as int))
            } else if c <= 0xFF {
                Ok(append(st, seq![13u8, c as u8]))
            } else {
                Ok(append(st, seq![14u8] + enc_i32(c)))
            },
        }
    }
}

pub proof fn lemma_members_step(recs: DeserializedRecord, st: SState, parent: Option<i32>, members: Seq<Member>, types: Seq<MemberType>, i: int, s2: SState)
    requires
        0 <= i < members.len(),
        i < types.len(),
        sp_write_member(recs, st, parent, members[i], types[i]) == Ok::<SState, Seq<char>>(s2),
    ensures
        sp_write_members(recs, st, parent, members, types, i) == sp_write_members(recs, s2, parent, members, types, i + 1),
{
    reveal(sp_write_member);
}

pub proof fn lemma_members_err(recs: DeserializedRecord, st: SState, parent: Option<i32>, members: Seq<Member>, types: Seq<MemberType>, i: int, e: Seq<char>)
    requires
        0 <= i < members.len(),
        i < types.len(),
        sp_write_member(recs, st, parent, members[i], types[i]) == Err::<SState, Seq<char>>(e),
    ensures
        sp_write_members(recs, st, parent, members, types, i) == Err::<SState, Seq<char>>(e),
{
    reveal(sp_write_member);
}

pub proof fn lemma_members_done(recs: DeserializedRecord, st: SState, parent: Option<i32>, members: Seq<Member>, types: Seq<MemberType>, i: int)
    requires
        0 <= i,
        i >= members.len() || i >= types.len(),
    ensures
        sp_write_members(recs, st, parent, members, types, i) == Ok::<SState, Seq<char>>(st),
{
    reveal(sp_write_member);
}

pub proof fn lemma_items_step(recs: DeserializedRecord, st: SState, parent: Option<i32>, vals: Seq<Member>, t: MemberType, i: int, s2: SState)
    requires
        0 <= i < vals.len(),
        sp_write_member(recs, st, parent, vals[i], t) == Ok::<SState, Seq<char>>(s2),
    ensures
        sp_write_items(recs, st, parent, vals, t, i) == sp_write_items(recs, s2, parent, vals, t, i + 1),
{
    reveal(sp_write_member);
}

pub proof fn lemma_items_err(recs: DeserializedRecord, st: SState, parent: Option<i32>, vals: Seq<Member>, t: MemberType, i: int, e: Seq<char>)
    requires
        0 <= i < vals.len(),
        sp_write_member(recs, st, parent, vals[i], t) == Err::<SState, Seq<char>>(e),
    ensures
        sp_write_items(recs, st, parent, vals, t, i) == Err::<SState, Seq<char>>(e),
{
    reveal(sp_write_member);
}

pub proof fn lemma_items_done(recs: DeserializedRecord, st: SState, parent: Option<i32>, vals: Seq<Member>, t: MemberType, i: int)
    requires
        0 <= i,
        i >= vals.len(),
    ensures
        sp_write_items(recs, st, parent, vals, t, i) == Ok::<SState, Seq<char>>(st),
{
    reveal(sp_write_member);
}

pub proof fn lemma_prefix_append(a: Seq<u8>, x: Seq<u8>)
    ensures
        a.is_prefix_of(a + x),
{
    assert(a =~= (a + x).subrange(0, a.len() as int));
}

pub proof fn lemma_prefix_trans(a: Seq<u8>, b: Seq<u8>, c: Seq<u8>)
    requires
        a.is_prefix_of(b),
        b.is_prefix_of(c),
    ensures
        a.is_prefix_of(c),
{
    assert(a =~= c.subrange(0, a.len() as int)) by {
        assert forall|i: int| 0 <= i < a.len() implies a[i] == c.subrange(0, a.len() as int)[i] by {
            assert(a[i] == b[i]);
            assert(b[i] == c[i]);
        }
    }
}

/// Writing a member only appends to the output.
proof fn lemma_member_extends(recs: DeserializedRecord, st: SState, parent: Option<i32>, m: Member, t: MemberType)
    ensures
        sp_write_member(recs, st, parent, m, t) matches Ok(s2) ==> st.output.is_prefix_of(s2.output),
    decreases span_of(recs, parent), 0nat, 0nat,
{
    reveal(sp_write_member);
    if t is Primitive {
        if let Member::Primitive(v) = m {
            lemma_prefix_append(st.output, enc_primitive(v@));
        }
    } else {
        match m {
            Member::Primitive(v) => lemma_prefix_append(
                st.output,
                seq![8u8, primitive_type_code(primitive_type_of(v@))] + enc_primitive(v@),
            ),
            Member::Reference(cid) => if should_inline(recs, parent, cid) {
                lemma_record_by_id_extends(recs, st, cid);
            } else {
                lemma_prefix_append(st.output, seq![9u8] + enc_i32(cid));
            },
            Member::Null => lemma_prefix_append(st.output, seq![10u8]),
            Member::NullMultiple(c) => {
                if c <= 0xFF {
                    lemma_prefix_append(st.output, seq![13u8, c as u8]);
                } else {
                    lemma_prefix_append(st.output, seq![14u8] + enc_i32(c));
                }
            },
        }
    }
}

/// Writing a record by its id only appends to the output.
pub proof fn lemma_record_by_id_extends(recs: DeserializedRecord, st: SState, id: i32)
    ensures
        sp_write_record_by_id(recs, st, id) matches Ok(s2) ==> st.output.is_prefix_of(s2.output),
    decreases span(recs, id), 2nat, 0nat,
{
    reveal(sp_write_member);
    if !st.emitted.contains(id) && recs.records@.contains_key(id) {
        lemma_record_extends(recs, st, id, recs.records@[id]);
    } else {
        lemma_prefix_append(st.output, Seq::empty());
        assert(st.output + Seq::<u8>::empty() =~= st.output);
    }
}

/// Writing a record only appends to the output.
proof fn lemma_record_extends(recs: DeserializedRecord, st: SState, id: i32, record: Record)
    ensures
        sp_write_record(recs, st, id, record) matches Ok(s2) ==> st.output.is_prefix_of(s2.output),
    decreases span(recs, id), 1nat, 0nat,
{
    reveal(sp_write_member);
    match record {
        Record::BinaryLibrary(name) => lemma_prefix_append(st.output, seq![12u8] + enc_i32(id) + enc_string(name@)),
        Record::String(v) => lemma_prefix_append(st.output, seq![6u8] + enc_i32(id) + enc_string(v@)),
        Record::PrimitiveArray(typ, vals) => lemma_prefix_append(
            st.output,
            seq![15u8] + enc_i32(id) + enc_i32(vals.len() as i32) + seq![primitive_type_code(typ)]
                + enc_primitives(primitives_view(vals@)),
        ),
        Record::BinaryArray(typ, vals) => {
            let bytes = seq![7u8] + enc_i32(id) + seq![0u8] + enc_i32(1) + enc_i32(vals.len() as i32) + seq![
                member_type_code(typ@),
            ] + enc_member_type_info(typ@);
            let s1 = append(st, bytes);
            lemma_prefix_append(st.output, bytes);
            lemma_items_extends(recs, s1, Some(id), vals@, typ, 0);
            if let Ok(s2) = sp_write_items(recs, s1, Some(id), vals@, typ, 0) {
                lemma_prefix_trans(st.output, s1.output, s2.output);
            }
        },
        Record::Class(class) => {
            let ct = recs.class_types@[class.class_type_id as int];
            let rt = class_record_type(recs, st, id, class, ct);
            let bytes = if rt == 1 {
                seq![1u8] + enc_i32(id) + enc_i32(st.class_metadata[class.class_type_id])
            } else if rt == 4 {
                seq![4u8] + enc_class_type(id, ct)
            } else {
                seq![5u8] + enc_class_type(id, ct) + enc_i32(ct.library_id)
            };
            lemma_prefix_append(st.output, bytes);
            let s1a = append(st, bytes);
            let s1 = if rt == 1 { s1a } else { SState { class_metadata: s1a.class_metadata.insert(class.class_type_id, id), ..s1a } };
            lemma_members_extends(recs, s1, Some(id), class.members@, ct.member_types@, 0);
            if let Ok(s2) = sp_write_members(recs, s1, Some(id), class.members@, ct.member_types@, 0) {
                lemma_prefix_trans(st.output, s1.output, s2.output);
            }
        },
    }
}

/// Writing members only appends to the output.
pub proof fn lemma_members_extends(
    recs: DeserializedRecord,
    st: SState,
    parent: Option<i32>,
    members: Seq<Member>,
    types: Seq<MemberType>,
    i: int,
)
    ensures
        sp_write_members(recs, st, parent, members, types, i) matches Ok(s2) ==> st.output.is_prefix_of(s2.output),
    decreases span_of(recs, parent), 0nat, (if 0 <= i <= members.len() { members.len() - i + 1 } else { 0 }) as nat,
{
    reveal(sp_write_member);
    if i < 0 || i >= members.len() || i >= types.len() {
        lemma_prefix_append(st.output, Seq::empty());
        assert(st.output + Seq::<u8>::empty() =~= st.output);
    } else {
        lemma_member_extends(recs, st, parent, members[i], types[i]);
        if let Ok(s2) = sp_write_member(recs, st, parent, members[i], types[i]) {
            lemma_members_extends(recs, s2, parent, members, types, i + 1);
            if let Ok(s3) = sp_write_members(recs, s2, parent, members, types, i + 1) {
                lemma_prefix_trans(st.output, s2.output, s3.output);
            }
        }
    }
}

/// Writing array items only appends to the output.
pub proof fn lemma_items_extends(recs: DeserializedRecord, st: SState, parent: Option<i32>, vals: Seq<Member>, t: MemberType, i: int)
    ensures
        sp_write_items(recs, st, parent, vals, t, i) matches Ok(s2) ==> st.output.is_prefix_of(s2.output),
    decreases span_of(recs, parent), 0nat, (if 0 <= i <= vals.len() { vals.len() - i + 1 } else { 0 }) as nat,
{
    reveal(sp_write_member);
    if i < 0 || i >= vals.len() {
        lemma_prefix_append(st.output, Seq::empty());
        assert(st.output + Seq::<u8>::empty() =~= st.output);
    } else {
        lemma_member_extends(recs, st, parent, vals[i], t);
        if let Ok(s2) = sp_write_member(recs, st, parent, vals[i], t) {
            lemma_items_extends(recs, s2, parent, vals, t, i + 1);
            if let Ok(s3) = sp_write_items(recs, s2, parent, vals, t, i + 1) {
                lemma_prefix_trans(st.output, s2.output, s3.output);
            }
        }
    }
}

/// Whether record `id`'s bytes lay strictly inside another record's.
pub open spec fn is_nested(recs: DeserializedRecord, id: i32) -> bool {
    &&& recs.record_metadata@.contains_key(id)
    &&& exists|other: i32| #[trigger] recs.record_metadata@.contains_key(other) && other != id
        && recs.record_metadata@[other].start_offset < recs.record_metadata@[id].start_offset
        && recs.record_metadata@[id].end_offset <= recs.record_metadata@[other].end_offset
}

/// The records written first, when metadata is known: the recorded order (or
/// the ids with metadata by `order_key`), leaving out records nested in others.
pub open spec fn top_level_order(recs: DeserializedRecord) -> Seq<i32> {
    let base = if recs.record_order@.len() > 0 {
        recs.record_order@
    } else {
        sorted_ids(recs, recs.record_metadata@.dom())
    };
    top_level(recs, base)
}

/// The ids of `ids` whose records are not nested in others, in order.
pub open spec fn top_level(recs: DeserializedRecord, ids: Seq<i32>) -> Seq<i32>
    decreases ids.len(),
{
    if ids.len() == 0 {
        Seq::empty()
    } else if is_nested(recs, ids.last()) {
        top_level(recs, ids.drop_last())
    } else {
        top_level(recs, ids.drop_last()).push(ids.last())
    }
}

/// The ids of the library records.
pub open spec fn library_ids(recs: DeserializedRecord) -> Set<i32> {
    recs.records@.dom().filter(|id: i32| recs.records@[id] is BinaryLibrary)
}

/// Queues `ids[i..]`.
pub open spec fn add_todos(st: SState, ids: Seq<i32>, i: int) -> SState
    decreases ids.len() - i,
{
    if i < 0 || i >= ids.len() {
        st
    } else {
        add_todos(add_todo(st, ids[i]), ids, i + 1)
    }
}

/// Writes the records `ids[i..]` in turn.
#[verifier::opaque]
pub open spec fn sp_write_ids(recs: DeserializedRecord, st: SState, ids: Seq<i32>, i: int) -> Result<SState, Seq<char>>
    decreases ids.len() - i,
{
    if i < 0 || i >= ids.len() {
        Ok(st)
    } else {
        match sp_write_record_by_id(recs, st, ids[i]) {
            Err(e) => Err(e),
            Ok(s2) => sp_write_ids(recs, s2, ids, i + 1),
        }
    }
}

/// The measure of the queue: ids of records never queued, then the queue's length.
pub open spec fn queue_measure(recs: DeserializedRecord, st: SState) -> (nat, nat) {
    (recs.records@.dom().difference(st.done).len(), st.todo.len())
}

/// Writes queued records, first in first out, until the queue is empty.
#[verifier::opaque]
pub open spec fn sp_drain(recs: DeserializedRecord, st: SState) -> Result<SState, Seq<char>>
    decreases queue_measure(recs, st).0, queue_measure(recs, st).1,
{
    if st.todo.len() == 0 {
        Ok(st)
    } else {
        let id = st.todo[0];
        match sp_write_record_by_id(recs, SState { todo: st.todo.drop_first(), ..st }, id) {
            Err(e) => Err(e),
            Ok(s2) => if key_lt(
                (queue_measure(recs, s2).0 as int, queue_measure(recs, s2).1 as int),
                (queue_measure(recs, st).0 as int, queue_measure(recs, st).1 as int),
            ) {
                sp_drain(recs, s2)
            } else {
                Err(Seq::empty())
            },
        }
    }
}

pub proof fn lemma_write_ids_step(recs: DeserializedRecord, st: SState, ids: Seq<i32>, i: int, s2: SState)
    requires
        0 <= i < ids.len(),
        sp_write_record_by_id(recs, st, ids[i]) == Ok::<SState, Seq<char>>(s2),
    ensures
        sp_write_ids(recs, st, ids, i) == sp_write_ids(recs, s2, ids, i + 1),
{
    reveal(sp_write_ids);
}

pub proof fn lemma_write_ids_err(recs: DeserializedRecord, st: SState, ids: Seq<i32>, i: int, e: Seq<char>)
    requires
        0 <= i < ids.len(),
        sp_write_record_by_id(recs, st, ids[i]) == Err::<SState, Seq<char>>(e),
    ensures
        sp_write_ids(recs, st, ids, i) == Err::<SState, Seq<char>>(e),
{
    reveal(sp_write_ids);
}

pub proof fn lemma_write_ids_done(recs: DeserializedRecord, st: SState, ids: Seq<i32>, i: int)
    requires
        i >= ids.len(),
    ensures
        sp_write_ids(recs, st, ids, i) == Ok::<SState, Seq<char>>(st),
{
    reveal(sp_write_ids);
}

pub proof fn lemma_drain_step(recs: DeserializedRecord, st: SState, s2: SState)
    requires
        st.todo.len() > 0,
        sp_write_record_by_id(recs, SState { todo: st.todo.drop_first(), ..st }, st.todo[0]) == Ok::<SState, Seq<char>>(s2),
        key_lt(
            (queue_measure(recs, s2).0 as int, queue_measure(recs, s2).1 as int),
            (queue_measure(recs, st).0 as int, queue_measure(recs, st).1 as int),
        ),
    ensures
        sp_drain(recs, st) == sp_drain(recs, s2),
{
    reveal(sp_drain);
}

pub proof fn lemma_drain_err(recs: DeserializedRecord, st: SState, e: Seq<char>)
    requires
        st.todo.len() > 0,
        sp_write_record_by_id(recs, SState { todo: st.todo.drop_first(), ..st }, st.todo[0]) == Err::<SState, Seq<char>>(e),
    ensures
        sp_drain(recs, st) == Err::<SState, Seq<char>>(e),
{
    reveal(sp_drain);
}

pub proof fn lemma_drain_done(recs: DeserializedRecord, st: SState)
    requires
        st.todo.len() == 0,
    ensures
        sp_drain(recs, st) == Ok::<SState, Seq<char>>(st),
{
    reveal(sp_drain);
}

/// The header: type 0, the root and header ids, version 1.0.
pub open spec fn enc_header(recs: DeserializedRecord) -> Seq<u8> {
    seq![0u8] + enc_i32(recs.root_id) + enc_i32(recs.header_id) + enc_i32(1) + enc_i32(0)
}

/// The state before any record is written.
pub open spec fn initial_sstate(output: Seq<u8>) -> SState {
    SState { output, todo: Seq::empty(), done: Set::empty(), emitted: Set::empty(), class_metadata: Map::empty() }
}

/// The bytes a valid record graph is written as: the header; the top-level
/// records in their original order when metadata is known, else the library
/// records and the root queued; the queue drained; every record not yet written,
/// by `order_key`; and the end record (11). Or the first refusal met.
pub open spec fn sp_serialize(recs: DeserializedRecord) -> Result<Seq<u8>, Seq<char>> {
    let st0 = initial_sstate(enc_header(recs));
    let st1: Result<SState, Seq<char>> = if !recs.record_metadata@.is_empty() {
        sp_write_ids(recs, st0, top_level_order(recs), 0)
    } else {
        Ok(add_todo(add_todos(st0, sorted_ids(recs, library_ids(recs)), 0), recs.root_id))
    };
    match st1 {
        Err(e) => Err(e),
        Ok(s1) => match sp_drain(recs, s1) {
            Err(e) => Err(e),
            Ok(s2) => match sp_write_ids(
                recs,
                s2,
                sorted_ids(recs, recs.records@.dom().difference(s2.emitted)),
                0,
            ) {
                Err(e) => Err(e),
                Ok(s3) => Ok(s3.output.push(11u8)),
            },
        },
    }
}

pub proof fn lemma_write_ids_extends(recs: DeserializedRecord, st: SState, ids: Seq<i32>, i: int)
    ensures
        sp_write_ids(recs, st, ids, i) matches Ok(s2) ==> st.output.is_prefix_of(s2.output),
    decreases ids.len() - i,
{
    reveal(sp_write_ids);
    if i < 0 || i >= ids.len() {
        lemma_prefix_append(st.output, Seq::empty());
        assert(st.output + Seq::<u8>::empty() =~= st.output);
    } else {
        lemma_record_by_id_extends(recs, st, ids[i]);
        if let Ok(s2) = sp_write_record_by_id(recs, st, ids[i]) {
            lemma_write_ids_extends(recs, s2, ids, i + 1);
            if let Ok(s3) = sp_write_ids(recs, s2, ids, i + 1) {
                lemma_prefix_trans(st.output, s2.output, s3.output);
            }
        }
    }
}

pub proof fn lemma_add_todos_output(st: SState, ids: Seq<i32>, i: int)
    ensures
        add_todos(st, ids, i).output == st.output,
    decreases ids.len() - i,
{
    if 0 <= i < ids.len() {
        lemma_add_todos_output(add_todo(st, ids[i]), ids, i + 1);
    }
}

pub proof fn lemma_drain_extends(recs: DeserializedRecord, st: SState)
    ensures
        sp_drain(recs, st) matches Ok(s2) ==> st.output.is_prefix_of(s2.output),
    decreases queue_measure(recs, st).0, queue_measure(recs, st).1,
{
    reveal(sp_drain);
    if st.todo.len() == 0 {
        lemma_prefix_append(st.output, Seq::empty());
        assert(st.output + Seq::<u8>::empty() =~= st.output);
    } else {
        let id = st.todo[0];
        let s1 = SState { todo: st.todo.drop_first(), ..st };
        lemma_record_by_id_extends(recs, s1, id);
        if let Ok(s2) = sp_write_record_by_id(recs, s1, id) {
            if key_lt(
                (queue_measure(recs, s2).0 as int, queue_measure(recs, s2).1 as int),
                (queue_measure(recs, st).0 as int, queue_measure(recs, st).1 as int),
            ) {
                lemma_drain_extends(recs, s2);
                if let Ok(s3) = sp_drain(recs, s2) {
                    lemma_prefix_trans(st.output, s2.output, s3.output);
                }
            }
        }
    }
}

/// Whatever the writer produces begins with the header (type 0, the root and
/// header ids, version 1.0) and ends with the end record (11).
pub proof fn law_serialized_output_framed(d: DeserializedRecord)
    ensures
        sp_serialize(d) matches Ok(bytes) ==> enc_header(d).is_prefix_of(bytes) && bytes.len() > 0 && bytes.last()
            == 11u8,
{
    let st0 = initial_sstate(enc_header(d));
    let st1: Result<SState, Seq<char>> = if !d.record_metadata@.is_empty() {
        sp_write_ids(d, st0, top_level_order(d), 0)
    } else {
        Ok(add_todo(add_todos(st0, sorted_ids(d, library_ids(d)), 0), d.root_id))
    };
    if !d.record_metadata@.is_empty() {
        lemma_write_ids_extends(d, st0, top_level_order(d), 0);
    } else {
        lemma_add_todos_output(st0, sorted_ids(d, library_ids(d)), 0);
        lemma_prefix_append(st0.output, Seq::empty());
        assert(st0.output + Seq::<u8>::empty() =~= st0.output);
    }
    if let Ok(s1) = st1 {
        lemma_drain_extends(d, s1);
        if let Ok(s2) = sp_drain(d, s1) {
            let rest = sorted_ids(d, d.records@.dom().difference(s2.emitted));
            lemma_write_ids_extends(d, s2, rest, 0);
            if let Ok(s3) = sp_write_ids(d, s2, rest, 0) {
                lemma_prefix_trans(st0.output, s1.output, s2.output);
                lemma_prefix_trans(st0.output, s2.output, s3.output);
                lemma_prefix_append(s3.output, seq![11u8]);
                assert(s3.output.push(11u8) =~= s3.output + seq![11u8]);
                lemma_prefix_trans(st0.output, s3.output, s3.output.push(11u8));
            }
        }
    }
}

/// Whether the strings of a member can be written.
pub open spec fn member_fits(m: Member) -> bool {
    match m {
        Member::Primitive(p) => primitive_fits(p@),
        _ => true,
    }
}

/// Whether the strings of a record, and of its class type, can be written.
pub open spec fn record_fits(recs: DeserializedRecord, r: Record) -> bool {
    match r {
        Record::BinaryLibrary(s) => string_fits(s@),
        Record::String(s) => string_fits(s@),
        Record::Class(c) => {
            &&& (c.class_type_id < recs.class_types.len() ==> class_type_fits(
                recs.class_types@[c.class_type_id as int],
            ))
            &&& forall|i: int| 0 <= i < c.members.len() ==> member_fits(#[trigger] c.members@[i])
        },
        Record::BinaryArray(t, v) => {
            &&& member_type_fits(t@)
            &&& forall|i: int| 0 <= i < v.len() ==> member_fits(#[trigger] v@[i])
        },
        Record::PrimitiveArray(_, v) => forall|i: int|
            0 <= i < v.len() ==> primitive_fits(#[trigger] v@[i]@),
    }
}

/// Whether every string of the graph's records can be written (a length
/// prefix holds at most 31 bits; longer strings make the writer panic).
pub open spec fn graph_fits(recs: DeserializedRecord) -> bool {
    forall|id: i32| #[trigger] recs.records@.contains_key(id) ==> record_fits(recs, recs.records@[id])
}

/// What writing a record needs of it: its strings fit a length prefix, its
/// class type exists, and its references point to records of the graph.
pub open spec fn record_writable(recs: DeserializedRecord, r: Record) -> bool {
    match r {
        Record::BinaryLibrary(s) => string_fits(s@),
        Record::String(s) => string_fits(s@),
        Record::Class(c) => {
            &&& c.class_type_id < recs.class_types.len()
            &&& class_type_fits(recs.class_types@[c.class_type_id as int])
            &&& forall|i: int| 0 <= i < c.members.len() ==> member_fits(#[trigger] c.members@[i])
            &&& forall|i: int| 0 <= i < c.members.len() ==> recs.member_ref_ok(#[trigger] c.members@[i])
        },
        Record::BinaryArray(t, v) => {
            &&& member_type_fits(t@)
            &&& forall|i: int| 0 <= i < v.len() ==> member_fits(#[trigger] v@[i])
            &&& forall|i: int| 0 <= i < v.len() ==> recs.member_ref_ok(#[trigger] v@[i])
        },
        Record::PrimitiveArray(_, v) => forall|i: int|
            0 <= i < v.len() ==> primitive_fits(#[trigger] v@[i]@),
    }
}

/// Every record of the graph can be written.
#[verifier::opaque]
pub open spec fn graph_writable(recs: DeserializedRecord) -> bool {
    forall|id: i32| #[trigger] recs.records@.contains_key(id) ==> record_writable(recs, recs.records@[id])
}

pub proof fn lemma_writable_record(recs: DeserializedRecord, id: i32)
    requires
        graph_writable(recs),
        recs.records@.contains_key(id),
    ensures
        record_writable(recs, recs.records@[id]),
{
    reveal(graph_writable);
}

/// A valid graph whose strings fit can be written.
pub proof fn lemma_valid_writable(recs: DeserializedRecord)
    requires
        recs.graph_valid(),
        graph_fits(recs),
    ensures
        graph_writable(recs),
{
    reveal(graph_writable);
    assert forall|id: i32| #[trigger] recs.records@.contains_key(id) implies record_writable(recs, recs.records@[id]) by {
        assert(recs.record_error(id, recs.records@[id]) is None);
        assert(record_fits(recs, recs.records@[id]));
        match recs.records@[id] {
            Record::Class(c) => lemma_first_missing_none(recs, c.members@, 0),
            Record::BinaryArray(_, v) => lemma_first_missing_none(recs, v@, 0),
            _ => {},
        }
    }
}

/// What a write may do to the queue: ids only join `done`, only ids of records
/// join it, and the queue grows by at most as many ids as joined `done`.
pub open spec fn frame(recs: DeserializedRecord, a: SState, b: SState) -> bool {
    &&& a.done.subset_of(b.done)
    &&& b.done.subset_of(a.done.union(recs.records@.dom()))
    &&& b.done.finite()
    &&& b.todo.len() + a.done.len() <= a.todo.len() + b.done.len()
}

pub proof fn lemma_first_missing_none(recs: DeserializedRecord, ms: Seq<Member>, i: int)
    requires
        0 <= i,
        crate::records::first_missing_from(recs.records@, ms, i) is None,
    ensures
        forall|j: int| i <= j < ms.len() ==> recs.member_ref_ok(#[trigger] ms[j]),
    decreases ms.len() - i,
{
    if i < ms.len() {
        lemma_first_missing_none(recs, ms, i + 1);
    }
}

/// Writing a queued record lowers the queue's measure: either ids joined `done`
/// (all of them record ids), or none did and the queue is shorter.
pub proof fn lemma_measure_decreases(recs: DeserializedRecord, st: SState, s2: SState)
    requires
        st.todo.len() > 0,
        st.done.finite(),
        recs.records@.dom().finite(),
        frame(recs, SState { todo: st.todo.drop_first(), ..st }, s2),
    ensures
        key_lt(
            (queue_measure(recs, s2).0 as int, queue_measure(recs, s2).1 as int),
            (queue_measure(recs, st).0 as int, queue_measure(recs, st).1 as int),
        ),
{
    let dom = recs.records@.dom();
    let da = dom.difference(st.done);
    let db = dom.difference(s2.done);
    assert(db.subset_of(da));
    vstd::set_lib::lemma_len_subset(db, da);
    if s2.done =~= st.done {
        assert(db =~= da);
    } else {
        let x = choose|x: i32| s2.done.contains(x) && !st.done.contains(x);
        assert(dom.contains(x));
        assert(db.subset_of(da.remove(x)));
        vstd::set_lib::lemma_len_subset(db, da.remove(x));
    }
}

/// The size `member_serialized_size` gives a member is what writing it adds,
/// unless it is a reference to a record written inline; both refuse alike.
pub proof fn law_member_size_matches_write(
    recs: DeserializedRecord,
    st: SState,
    parent: Option<i32>,
    m: Member,
    t: MemberType,
)
    requires
        member_fits(m),
        !(m matches Member::Reference(cid) && !(t is Primitive) && should_inline(recs, parent, cid)),
    ensures
        match member_size(m@, t@) {
            Ok(n) => sp_write_member(recs, st, parent, m, t) matches Ok(s2) && s2.output.len() == st.output.len() + n,
            Err(e) => sp_write_member(recs, st, parent, m, t) == Err::<SState, Seq<char>>(e),
        },
{
    reveal(sp_write_member);
    crate::bytes::lemma_le_bytes_len((0i32 as u32) as nat, 4);
    match m {
        Member::Primitive(p) => {
            lemma_primitive_size_is_encoding_len(p@);
        },
        Member::Reference(cid) => {
            crate::bytes::lemma_le_bytes_len((cid as u32) as nat, 4);
        },
        Member::NullMultiple(c) => {
            crate::bytes::lemma_le_bytes_len((c as u32) as nat, 4);
        },
        _ => {},
    }
}

proof fn lemma_frame_trans(recs: DeserializedRecord, a: SState, b: SState, c: SState)
    requires
        frame(recs, a, b),
        frame(recs, b, c),
        a.done.finite(),
    ensures
        frame(recs, a, c),
{
}

proof fn lemma_frame_refl(recs: DeserializedRecord, a: SState)
    requires
        a.done.finite(),
    ensures
        frame(recs, a, a),
{
}

struct Serializer {
    output: Vec<u8>,
    todo: VecDeque<i32>,
    done: HashSet<i32>,
    emitted: HashSet<i32>,
    class_metadata: HashMap<usize, i32>,
}

impl Serializer {
    spec fn st(&self) -> SState {
        SState {
            output: self.output@,
            todo: self.todo@,
            done: self.done@,
            emitted: self.emitted@,
            class_metadata: self.class_metadata@,
        }
    }

    spec fn same_but_output(&self, old: &Serializer) -> bool {
        &&& self.todo == old.todo
        &&& self.done == old.done
        &&& self.emitted == old.emitted
        &&& self.class_metadata == old.class_metadata
    }

    fn new() -> (s: Self)
        ensures
            s.st() == (SState {
                output: Seq::empty(),
                todo: Seq::empty(),
                done: Set::empty(),
                emitted: Set::empty(),
                class_metadata: Map::empty(),
            }),
    {
        Serializer {
            output: Vec::with_capacity(0x1000),
            todo: VecDeque::new(),
            done: HashSet::new(),
            emitted: HashSet::new(),
            class_metadata: HashMap::new(),
        }
    }

    fn write_u8(&mut self, i: u8)
        ensures
            final(self).same_but_output(old(self)),
            final(self).output@ == old(self).output@.push(i),
    {
        write_u8(&mut self.output, i);
    }

    fn write_i32(&mut self, i: i32)
        ensures
            final(self).same_but_output(old(self)),
            final(self).output@ == old(self).output@ + enc_i32(i),
    {
        write_i32_le(&mut self.output, i);
    }

    fn write_string(&mut self, val: &str)
        requires
            string_fits(val@),
        ensures
            final(self).same_but_output(old(self)),
            final(self).output@ == old(self).output@ + enc_string(val@),
    {
        let bytes = val.as_bytes();
        let mut length = bytes.len();
        let ghost total = bytes@.len();
        let ghost start = self.output@;
        loop
            invariant_except_break
                encode_7bit(total) == self.output@.subrange(start.len() as int, self.output@.len() as int)
                    + encode_7bit(length as nat),
            invariant
                self.same_but_output(old(self)),
                start == old(self).output@,
                self.output@.subrange(0, start.len() as int) == start,
                start.len() <= self.output@.len(),
            ensures
                self.output@ == start + encode_7bit(total),
            decreases length,
        {
            let ghost before = self.output@;
            if length < 128 {
                self.write_u8(length as u8);
                assert(self.output@.subrange(start.len() as int, self.output@.len() as int)
                    =~= before.subrange(start.len() as int, before.len() as int).push(length as u8));
                assert(self.output@.subrange(0, start.len() as int) =~= start);
                assert(encode_7bit(length as nat) == seq![length as u8]);
                assert(encode_7bit(total) =~= self.output@.subrange(start.len() as int, self.output@.len() as int));
                assert(self.output@ =~= start + encode_7bit(total));
                break;
            }
            let b = (length % 128 + 128) as u8;
            self.write_u8(b);
            assert(self.output@.subrange(start.len() as int, self.output@.len() as int)
                =~= before.subrange(start.len() as int, before.len() as int).push(b));
            assert(self.output@.subrange(0, start.len() as int) =~= start);
            assert(encode_7bit(length as nat) == seq![b] + encode_7bit((length / 128) as nat));
            length = length / 128;
            assert(encode_7bit(total) =~= self.output@.subrange(start.len() as int, self.output@.len() as int)
                + encode_7bit(length as nat));
        }
        let ghost prefix_end = self.output@.len();
        let mut i: usize = 0;
        while i < bytes.len()
            invariant
                self.same_but_output(old(self)),
                i <= bytes@.len(),
                self.output@ == old(self).output@ + encode_7bit(total) + bytes@.take(i as int),
            decreases bytes@.len() - i,
        {
            self.write_u8(bytes[i]);
            assert(bytes@.take(i + 1) =~= bytes@.take(i as int).push(bytes@[i as int]));
            i = i + 1;
        }
        assert(bytes@.take(i as int) =~= bytes@);
        assert(self.output@ =~= old(self).output@ + enc_string(val@));
    }

    fn write_primitive_type(&mut self, typ: &PrimitiveType)
        ensures
            final(self).same_but_output(old(self)),
            final(self).output@ == old(self).output@.push(primitive_type_code(*typ)),
    {
        self.write_u8(
            match typ {
                PrimitiveType::Boolean => 1,
                PrimitiveType::Byte => 2,
                PrimitiveType::Char => 3,
                PrimitiveType::Decimal => 5,
                PrimitiveType::Double => 6,
                PrimitiveType::Int16 => 7,
                PrimitiveType::Int32 => 8,
                PrimitiveType::Int64 => 9,
                PrimitiveType::Int8 => 10,
                PrimitiveType::Single => 11,
                PrimitiveType::TimeSpan => 12,
                PrimitiveType::DateTime => 13,
                PrimitiveType::UInt16 => 14,
                PrimitiveType::UInt32 => 15,
                PrimitiveType::UInt64 => 16,
                PrimitiveType::Null => 17,
                PrimitiveType::String => 18,
            },
        );
    }

    fn write_primitive(&mut self, val: &Primitive)
        requires
            primitive_fits(val@),
        ensures
            final(self).same_but_output(old(self)),
            final(self).output@ == old(self).output@ + enc_primitive(val@),
    {
        match val {
            Primitive::Boolean(v) => {
                let b: u8 = if *v { 1 } else { 0 };
                self.write_u8(b);
                assert(self.output@ =~= old(self).output@ + enc_primitive(val@));
            },
            Primitive::Byte(v) => {
                self.write_u8(*v);
                assert(self.output@ =~= old(self).output@ + enc_primitive(val@));
            },
            Primitive::Char(v) => {
                let code = *v as u32;
                if code > 0xFFFF {
                    write_u16_le(&mut self.output, 63);
                } else {
                    write_u16_le(&mut self.output, code as u16);
                }
            },
            Primitive::Decimal(v) => self.write_string(v.as_str()),
            Primitive::Double(v) => write_u64_le(&mut self.output, *v),
            Primitive::Int16(v) => write_i16_le(&mut self.output, *v),
            Primitive::Int32(v) => write_i32_le(&mut self.output, *v),
            Primitive::Int64(v) => write_i64_le(&mut self.output, *v),
            Primitive::Int8(v) => {
                write_i8(&mut self.output, *v);
                assert(self.output@ =~= old(self).output@ + enc_primitive(val@));
            },
            Primitive::Single(v) => write_u32_le(&mut self.output, *v),
            Primitive::TimeSpan(v) => write_i64_le(&mut self.output, *v),
            Primitive::DateTime(v) => write_i64_le(&mut self.output, *v),
            Primitive::UInt16(v) => write_u16_le(&mut self.output, *v),
            Primitive::UInt32(v) => write_u32_le(&mut self.output, *v),
            Primitive::UInt64(v) => write_u64_le(&mut self.output, *v),
            Primitive::Null => {
                assert(self.output@ =~= old(self).output@ + enc_primitive(val@));
            },
            Primitive::String(v) => self.write_string(v.as_str()),
        }
    }

    fn write_member_type(&mut self, typ: &MemberType)
        ensures
            final(self).same_but_output(old(self)),
            final(self).output@ == old(self).output@.push(member_type_code(typ@)),
    {
        match typ {
            MemberType::Primitive(_) => self.write_u8(0),
            MemberType::String => self.write_u8(1),
            MemberType::Object => self.write_u8(2),
            MemberType::SystemClass(_) => self.write_u8(3),
            MemberType::Class(..) => self.write_u8(4),
            MemberType::ObjectArray => self.write_u8(5),
            MemberType::StringArray => self.write_u8(6),
            MemberType::PrimitiveArray(_) => self.write_u8(7),
        }
    }

    fn write_member_type_additional_info(&mut self, typ: &MemberType)
        requires
            member_type_fits(typ@),
        ensures
            final(self).same_but_output(old(self)),
            final(self).output@ == old(self).output@ + enc_member_type_info(typ@),
    {
        match typ {
            MemberType::Primitive(t) => {
                self.write_primitive_type(t);
                assert(self.output@ =~= old(self).output@ + enc_member_type_info(typ@));
            },
            MemberType::SystemClass(name) => self.write_string(name.as_str()),
            MemberType::Class(s, i) => {
                self.write_string(s.as_str());
                self.write_i32(*i);
                assert(self.output@ =~= old(self).output@ + enc_member_type_info(typ@));
            },
            MemberType::PrimitiveArray(t) => {
                self.write_primitive_type(t);
                assert(self.output@ =~= old(self).output@ + enc_member_type_info(typ@));
            },
            _ => {
                assert(self.output@ =~= old(self).output@ + enc_member_type_info(typ@));
            },
        }
    }

    fn write_class_type(&mut self, id: i32, class_type: &ClassType)
        requires
            class_type_fits(*class_type),
        ensures
            final(self).same_but_output(old(self)),
            final(self).output@ == old(self).output@ + enc_class_type(id, *class_type),
    {
        self.write_i32(id);
        self.write_string(class_type.name.as_str());
        self.write_i32(class_type.member_names.len() as i32);
        let ghost o1 = self.output@;
        let ghost names = strings_view(class_type.member_names@);
        let mut i: usize = 0;
        while i < class_type.member_names.len()
            invariant
                self.same_but_output(old(self)),
                class_type_fits(*class_type),
                names == strings_view(class_type.member_names@),
                i <= class_type.member_names@.len(),
                self.output@ == o1 + enc_strings(names.take(i as int)),
            decreases class_type.member_names@.len() - i,
        {
            self.write_string(class_type.member_names[i].as_str());
            assert(names.take(i + 1).drop_last() =~= names.take(i as int));
            i = i + 1;
        }
        assert(names.take(i as int) =~= names);
        let ghost o2 = self.output@;
        let ghost types = member_types_view(class_type.member_types@);
        let mut i: usize = 0;
        while i < class_type.member_types.len()
            invariant
                self.same_but_output(old(self)),
                types == member_types_view(class_type.member_types@),
                i <= class_type.member_types@.len(),
                self.output@ == o2 + enc_type_codes(types.take(i as int)),
            decreases class_type.member_types@.len() - i,
        {
            self.write_member_type(&class_type.member_types[i]);
            assert(types.take(i + 1).drop_last() =~= types.take(i as int));
            i = i + 1;
        }
        assert(types.take(i as int) =~= types);
        let ghost o3 = self.output@;
        let mut i: usize = 0;
        while i < class_type.member_types.len()
            invariant
                self.same_but_output(old(self)),
                class_type_fits(*class_type),
                types == member_types_view(class_type.member_types@),
                i <= class_type.member_types@.len(),
                self.output@ == o3 + enc_type_infos(types.take(i as int)),
            decreases class_type.member_types@.len() - i,
        {
            self.write_member_type_additional_info(&class_type.member_types[i]);
            assert(types.take(i + 1).drop_last() =~= types.take(i as int));
            i = i + 1;
        }
        assert(types.take(i as int) =~= types);
        assert(self.output@ =~= old(self).output@ + enc_class_type(id, *class_type));
    }
}

impl Serializer {
    fn add_todo(&mut self, id: i32)
        requires
            old(self).done@.finite(),
        ensures
            final(self).st() == add_todo(old(self).st(), id),
            final(self).done@.finite(),
    {
        if !self.done.contains(&id) {
            self.done.insert(id);
            self.todo.push_back(id);
        }
    }

    fn should_inline_member_record(&self, recs: &DeserializedRecord, parent_record_id: Option<i32>, child_record_id: i32) -> (r: bool)
        ensures
            r == should_inline(*recs, parent_record_id, child_record_id),
    {
        let parent_id = match parent_record_id {
            Some(p) => p,
            None => return false,
        };
        let parent_meta = match recs.record_metadata(parent_id) {
            Some(m) => m,
            None => return false,
        };
        let child_meta = match recs.record_metadata(child_record_id) {
            Some(m) => m,
            None => return false,
        };
        parent_meta.start_offset < child_meta.start_offset && child_meta.end_offset <= parent_meta.end_offset
    }

    fn ensure_record_type(&self, id: i32, writer_record_type: u8, recs: &DeserializedRecord) -> (r: Result<(), String>)
        ensures
            match type_mismatch(*recs, id, writer_record_type) {
                Some(m) => r matches Err(e) && e@ == m,
                None => r is Ok,
            },
    {
        if let Some(metadata) = recs.record_metadata(id) {
            if metadata.original_record_type != writer_record_type {
                let mut e = text_with_int("Record ", id as i128);
                push_str(&mut e, " metadata/type mismatch: original record type ");
                push_int(&mut e, metadata.original_record_type as i128);
                push_str(&mut e, " but writer would emit ");
                push_int(&mut e, writer_record_type as i128);
                return Err(e);
            }
        }
        Ok(())
    }

    fn resolve_class_record_type(&self, recs: &DeserializedRecord, id: i32, class: &Class, class_type: &ClassType) -> (r: u8)
        ensures
            r == class_record_type(*recs, self.st(), id, *class, *class_type),
    {
        if let Some(metadata) = recs.record_metadata(id) {
            return metadata.original_record_type;
        }
        if class_type.system_class {
            4
        } else if self.class_metadata.contains_key(&class.class_type_id) {
            1
        } else {
            5
        }
    }

    fn class_record_writes_library_id(&self, record_type: u8) -> (r: bool)
        ensures
            r == (record_type == 5),
    {
        record_type == 5
    }

    fn validate_record_size(&self, recs: &DeserializedRecord, id: i32, start_offset: usize) -> (r: Result<(), String>)
        ensures
            match size_error(*recs, id, start_offset as int, self.output@.len() as int) {
                Some(m) => r matches Err(e) && e@ == m,
                None => r is Ok,
            },
    {
        let metadata = match recs.record_metadata(id) {
            Some(m) => m,
            None => return Ok(()),
        };
        let end_offset = self.output.len();
        let serialized_size = if end_offset >= start_offset {
            end_offset - start_offset
        } else {
            0
        };
        let t = metadata.original_record_type;
        if t == 1 || t == 4 || t == 5 || t == 6 || t == 7 {
            return Ok(());
        }
        if serialized_size != metadata.original_byte_length {
            let mut e = text_with_int("Record size mismatch at record_id=", id as i128);
            push_str(&mut e, " (type=");
            push_int(&mut e, t as i128);
            push_str(&mut e, ", original offsets ");
            push_int(&mut e, metadata.start_offset as i128);
            push_str(&mut e, "..");
            push_int(&mut e, metadata.end_offset as i128);
            push_str(&mut e, "): serialized offsets ");
            push_int(&mut e, start_offset as i128);
            push_str(&mut e, "..");
            push_int(&mut e, end_offset as i128);
            push_str(&mut e, ", original_size=");
            push_int(&mut e, metadata.original_byte_length as i128);
            push_str(&mut e, " bytes, serialized_size=");
            push_int(&mut e, serialized_size as i128);
            push_str(&mut e, " bytes.");
            return Err(e);
        }
        Ok(())
    }

    fn write_record_by_id(&mut self, recs: &DeserializedRecord, id: i32) -> (r: Result<(), String>)
        requires
            graph_writable(*recs),
            old(self).done@.finite(),
        ensures
            match sp_write_record_by_id(*recs, old(self).st(), id) {
                Ok(s) => r is Ok && final(self).st() == s,
                Err(m) => r matches Err(e) && e@ == m,
            },
            r is Ok ==> frame(*recs, old(self).st(), final(self).st()),
        decreases span(*recs, id), 2nat, 0nat,
    {
        proof {
            reveal(sp_write_member);
        }
        if self.emitted.contains(&id) {
            proof { lemma_frame_refl(*recs, self.st()); }
            return Ok(());
        }
        let record = match recs.records.get(&id) {
            Some(r) => r,
            None => return Err(text_with_int("Missing record ", id as i128)),
        };
        proof {
            lemma_writable_record(*recs, id);
        }
        let start_offset = self.output.len();
        match self.write_record(recs, id, record) {
            Ok(()) => {},
            Err(e) => return Err(e),
        }
        match self.validate_record_size(recs, id, start_offset) {
            Ok(()) => {},
            Err(e) => return Err(e),
        }
        self.emitted.insert(id);
        self.done.insert(id);
        Ok(())
    }

    #[verifier::rlimit(50)]
    fn write_record(&mut self, recs: &DeserializedRecord, id: i32, record: &Record) -> (r: Result<(), String>)
        requires
            graph_writable(*recs),
            old(self).done@.finite(),
            recs.records@.contains_key(id),
            recs.records@[id] == *record,
            record_writable(*recs, *record),
        ensures
            match sp_write_record(*recs, old(self).st(), id, *record) {
                Ok(s) => r is Ok && final(self).st() == s,
                Err(m) => r matches Err(e) && e@ == m,
            },
            r is Ok ==> frame(*recs, old(self).st(), final(self).st()),
            refused_before_writing(*recs, old(self).st(), id, *record) ==> r is Err && *final(self) == *old(self),
        decreases span(*recs, id), 1nat, 0nat,
    {
        proof {
            reveal(sp_write_member);
            lemma_frame_refl(*recs, self.st());
        }
        match record {
            Record::BinaryLibrary(name) => {
                self.ensure_record_type(id, 12, recs)?;
                self.write_u8(12);
                self.write_i32(id);
                self.write_string(name.as_str());
                assert(self.output@ =~= old(self).output@ + (seq![12u8] + enc_i32(id) + enc_string(name@)));
                Ok(())
            },
            Record::String(val) => {
                self.ensure_record_type(id, 6, recs)?;
                self.write_u8(6);
                self.write_i32(id);
                self.write_string(val.as_str());
                assert(self.output@ =~= old(self).output@ + (seq![6u8] + enc_i32(id) + enc_string(val@)));
                Ok(())
            },
            Record::PrimitiveArray(typ, vals) => {
                self.ensure_record_type(id, 15, recs)?;
                self.write_u8(15);
                self.write_i32(id);
                self.write_i32(vals.len() as i32);
                self.write_primitive_type(typ);
                let ghost o1 = self.output@;
                let ghost pv = primitives_view(vals@);
                let mut i: usize = 0;
                while i < vals.len()
                    invariant
                        self.same_but_output(old(self)),
                        i <= vals@.len(),
                        pv == primitives_view(vals@),
                        forall|k: int| 0 <= k < vals.len() ==> primitive_fits(#[trigger] vals@[k]@),
                        self.output@ == o1 + enc_primitives(pv.take(i as int)),
                    decreases vals@.len() - i,
                {
                    self.write_primitive(&vals[i]);
                    assert(pv.take(i + 1).drop_last() =~= pv.take(i as int));
                    i = i + 1;
                }
                assert(pv.take(i as int) =~= pv);
                assert(self.output@ =~= old(self).output@ + (seq![15u8] + enc_i32(id) + enc_i32(vals.len() as i32)
                    + seq![primitive_type_code(*typ)] + enc_primitives(pv)));
                Ok(())
            },
            Record::BinaryArray(typ, vals) => {
                self.ensure_record_type(id, 7, recs)?;
                self.write_u8(7);
                self.write_i32(id);
                self.write_u8(0);
                self.write_i32(1);
                self.write_i32(vals.len() as i32);
                self.write_member_type(typ);
                self.write_member_type_additional_info(typ);
                assert(self.output@ =~= old(self).output@ + (seq![7u8] + enc_i32(id) + seq![0u8] + enc_i32(1)
                    + enc_i32(vals.len() as i32) + seq![member_type_code(typ@)] + enc_member_type_info(typ@)));
                let ghost s1 = self.st();
                self.write_items(recs, id, vals, typ)?;
                proof {
                    lemma_frame_trans(*recs, old(self).st(), s1, self.st());
                }
                Ok(())
            },
            Record::Class(class) => {
                let class_type = recs.class_type(class);
                let record_type = self.resolve_class_record_type(recs, id, class, class_type);
                if record_type == 1 {
                    let class_id = match self.class_metadata.get(&class.class_type_id) {
                        Some(c) => *c,
                        None => {
                            let mut e = text_with_int("Record ", id as i128);
                            push_str(&mut e, " requires ClassWithId(1) but no metadata class id is available for class_type_id ");
                            push_int(&mut e, class.class_type_id as i128);
                            return Err(e);
                        },
                    };
                    self.write_u8(1);
                    self.write_i32(id);
                    self.write_i32(class_id);
                    assert(self.output@ =~= old(self).output@ + (seq![1u8] + enc_i32(id) + enc_i32(class_id)));
                } else if record_type == 4 {
                    self.write_u8(4);
                    self.write_class_type(id, class_type);
                    self.class_metadata.insert(class.class_type_id, id);
                    assert(self.output@ =~= old(self).output@ + (seq![4u8] + enc_class_type(id, *class_type)));
                } else if record_type == 5 {
                    self.write_u8(5);
                    self.write_class_type(id, class_type);
                    if self.class_record_writes_library_id(record_type) {
                        self.write_i32(class_type.library_id);
                    }
                    self.class_metadata.insert(class.class_type_id, id);
                    assert(self.output@ =~= old(self).output@ + (seq![5u8] + enc_class_type(id, *class_type)
                        + enc_i32(class_type.library_id)));
                } else {
                    let mut e = text_with_int("Record ", id as i128);
                    push_str(&mut e, " is a Class but metadata requires unsupported record type ");
                    push_int(&mut e, record_type as i128);
                    return Err(e);
                }
                let ghost s1 = self.st();
                self.write_members(recs, id, &class.members, &class_type.member_types)?;
                proof {
                    lemma_frame_trans(*recs, old(self).st(), s1, self.st());
                }
                Ok(())
            },
        }
    }

    fn write_members(&mut self, recs: &DeserializedRecord, id: i32, members: &Vec<Member>, types: &Vec<MemberType>) -> (r: Result<(), String>)
        requires
            graph_writable(*recs),
            old(self).done@.finite(),
            forall|k: int| 0 <= k < members.len() ==> member_fits(#[trigger] members@[k]),
            forall|k: int| 0 <= k < members.len() ==> recs.member_ref_ok(#[trigger] members@[k]),
        ensures
            match sp_write_members(*recs, old(self).st(), Some(id), members@, types@, 0) {
                Ok(s) => r is Ok && final(self).st() == s,
                Err(m) => r matches Err(e) && e@ == m,
            },
            r is Ok ==> frame(*recs, old(self).st(), final(self).st()),
        decreases span(*recs, id), 0nat, 1nat,
    {
        let ghost s1 = self.st();
        proof {
            lemma_frame_refl(*recs, s1);
        }
        let mut i: usize = 0;
        while i < members.len() && i < types.len()
            invariant
                graph_writable(*recs),
                i <= members@.len(),
                s1 == old(self).st(),
                s1.done.finite(),
                self.done@.finite(),
                forall|k: int| 0 <= k < members.len() ==> member_fits(#[trigger] members@[k]),
                forall|k: int| 0 <= k < members.len() ==> recs.member_ref_ok(#[trigger] members@[k]),
                frame(*recs, s1, self.st()),
                sp_write_members(*recs, s1, Some(id), members@, types@, 0)
                    == sp_write_members(*recs, self.st(), Some(id), members@, types@, i as int),
            decreases members@.len() - i,
        {
            let ghost si = self.st();
            let res = self.write_member(recs, Some(id), &members[i], &types[i]);
            match res {
                Ok(()) => {
                    proof {
                        lemma_members_step(*recs, si, Some(id), members@, types@, i as int, self.st());
                        lemma_frame_trans(*recs, s1, si, self.st());
                    }
                },
                Err(e) => {
                    proof {
                        lemma_members_err(*recs, si, Some(id), members@, types@, i as int, e@);
                    }
                    return Err(e);
                },
            }
            i = i + 1;
        }
        proof {
            lemma_members_done(*recs, self.st(), Some(id), members@, types@, i as int);
        }
        Ok(())
    }

    fn write_items(&mut self, recs: &DeserializedRecord, id: i32, vals: &Vec<Member>, t: &MemberType) -> (r: Result<(), String>)
        requires
            graph_writable(*recs),
            old(self).done@.finite(),
            forall|k: int| 0 <= k < vals.len() ==> member_fits(#[trigger] vals@[k]),
            forall|k: int| 0 <= k < vals.len() ==> recs.member_ref_ok(#[trigger] vals@[k]),
        ensures
            match sp_write_items(*recs, old(self).st(), Some(id), vals@, *t, 0) {
                Ok(s) => r is Ok && final(self).st() == s,
                Err(m) => r matches Err(e) && e@ == m,
            },
            r is Ok ==> frame(*recs, old(self).st(), final(self).st()),
        decreases span(*recs, id), 0nat, 1nat,
    {
        let ghost s1 = self.st();
        proof {
            lemma_frame_refl(*recs, s1);
        }
        let mut i: usize = 0;
        while i < vals.len()
            invariant
                graph_writable(*recs),
                i <= vals@.len(),
                s1 == old(self).st(),
                s1.done.finite(),
                self.done@.finite(),
                forall|k: int| 0 <= k < vals.len() ==> member_fits(#[trigger] vals@[k]),
                forall|k: int| 0 <= k < vals.len() ==> recs.member_ref_ok(#[trigger] vals@[k]),
                frame(*recs, s1, self.st()),
                sp_write_items(*recs, s1, Some(id), vals@, *t, 0)
                    == sp_write_items(*recs, self.st(), Some(id), vals@, *t, i as int),
            decreases vals@.len() - i,
        {
            let ghost si = self.st();
            let res = self.write_member(recs, Some(id), &vals[i], t);
            match res {
                Ok(()) => {
                    proof {
                        lemma_items_step(*recs, si, Some(id), vals@, *t, i as int, self.st());
                        lemma_frame_trans(*recs, s1, si, self.st());
                    }
                },
                Err(e) => {
                    proof {
                        lemma_items_err(*recs, si, Some(id), vals@, *t, i as int, e@);
                    }
                    return Err(e);
                },
            }
            i = i + 1;
        }
        proof {
            lemma_items_done(*recs, self.st(), Some(id), vals@, *t, i as int);
        }
        Ok(())
    }

    fn write_member(&mut self, recs: &DeserializedRecord, parent_record_id: Option<i32>, member: &Member, t: &MemberType) -> (r: Result<(), String>)
        requires
            graph_writable(*recs),
            old(self).done@.finite(),
            recs.member_ref_ok(*member),
            member_fits(*member),
        ensures
            match sp_write_member(*recs, old(self).st(), parent_record_id, *member, *t) {
                Ok(s) => r is Ok && final(self).st() == s,
                Err(m) => r matches Err(e) && e@ == m,
            },
            r is Ok ==> frame(*recs, old(self).st(), final(self).st()),
            r is Err && !(!(*t is Primitive) && inlined(*recs, parent_record_id, *member)) ==> *final(self)
                == *old(self),
        decreases span_of(*recs, parent_record_id), 0nat, 0nat,
    {
        proof {
            reveal(sp_write_member);
            lemma_frame_refl(*recs, self.st());
        }
        if let MemberType::Primitive(_) = t {
            if let Member::Primitive(val) = member {
                self.write_primitive(val);
                return Ok(());
            } else {
                return Err(to_owned_string("Non primitive member for primitive field"));
            }
        }
        match member {
            Member::Primitive(val) => {
                self.write_u8(8);
                let pt = val.primitive_type();
                self.write_primitive_type(&pt);
                self.write_primitive(val);
                assert(self.output@ =~= old(self).output@ + (seq![8u8, primitive_type_code(primitive_type_of(val@))]
                    + enc_primitive(val@)));
                Ok(())
            },
            Member::Reference(id) => {
                if self.should_inline_member_record(recs, parent_record_id, *id) {
                    self.write_record_by_id(recs, *id)
                } else {
                    self.write_u8(9);
                    self.write_i32(*id);
                    assert(self.output@ =~= old(self).output@ + (seq![9u8] + enc_i32(*id)));
                    self.add_todo(*id);
                    Ok(())
                }
            },
            Member::Null => {
                self.write_u8(10);
                assert(self.output@ =~= old(self).output@ + seq![10u8]);
                Ok(())
            },
            Member::NullMultiple(count) => {
                if *count <= 0 {
                    return Err(text_with_int("NullMultiple count must be positive, got ", *count as i128));
                }
                if *count <= 0xFF {
                    self.write_u8(13);
                    self.write_u8(*count as u8);
                    assert(self.output@ =~= old(self).output@ + seq![13u8, *count as u8]);
                } else {
                    self.write_u8(14);
                    self.write_i32(*count);
                    assert(self.output@ =~= old(self).output@ + (seq![14u8] + enc_i32(*count)));
                }
                Ok(())
            },
        }
    }
}

impl Serializer {
    fn is_nested_record(&self, recs: &DeserializedRecord, record_id: i32) -> (r: bool)
        ensures
            r == is_nested(*recs, record_id),
    {
        let record_meta = match recs.record_metadata(record_id) {
            Some(m) => m,
            None => return false,
        };
        let ghost m = recs.record_metadata@;
        for (other_id, other_meta) in it: recs.record_metadata.iter()
            invariant
                m == recs.record_metadata@,
                m.contains_key(record_id),
                *record_meta == m[record_id],
                it.seq() == vstd::std_specs::hash::spec_hash_map_iter(&recs.record_metadata).remaining(),
                forall|j: int| 0 <= j < it.index() ==> !(*it.seq()[j].0 != record_id
                    && it.seq()[j].1.start_offset < record_meta.start_offset
                    && record_meta.end_offset <= it.seq()[j].1.end_offset),
        {
            if *other_id != record_id && other_meta.start_offset < record_meta.start_offset
                && record_meta.end_offset <= other_meta.end_offset {
                proof {
                    vstd::std_specs::hash::axiom_spec_hash_map_iter(&recs.record_metadata);
                    let v = vstd::std_specs::hash::spec_hash_map_iter(&recs.record_metadata).remaining();
                    let j = it.index() as int;
                    assert(m.contains_key(*v[j].0) && m[*v[j].0] == *v[j].1);
                }
                return true;
            }
        }
        proof {
            vstd::std_specs::hash::axiom_spec_hash_map_iter(&recs.record_metadata);
            let v = vstd::std_specs::hash::spec_hash_map_iter(&recs.record_metadata).remaining();
            assert forall|other: i32| #[trigger] m.contains_key(other) implies !(other != record_id
                && m[other].start_offset < m[record_id].start_offset
                && m[record_id].end_offset <= m[other].end_offset) by {
                assert(v.contains((&other, &m[other])));
                let j = choose|j: int| 0 <= j < v.len() && v[j] == (&other, &m[other]);
            }
        }
        false
    }

    fn original_top_level_order(&self, recs: &DeserializedRecord) -> (r: Option<Vec<i32>>)
        ensures
            r is None <==> recs.record_metadata@.is_empty(),
            r matches Some(v) ==> v@ == top_level_order(*recs),
    {
        if recs.record_metadata.is_empty() {
            return None;
        }
        let base = if recs.record_order.len() > 0 {
            copy_ids(&recs.record_order)
        } else {
            let ids = metadata_ids(recs);
            sort_ids(recs, &ids)
        };
        let mut out: Vec<i32> = Vec::new();
        let mut i: usize = 0;
        while i < base.len()
            invariant
                i <= base@.len(),
                out@ == top_level(*recs, base@.take(i as int)),
            decreases base@.len() - i,
        {
            let id = base[i];
            assert(base@.take(i + 1).drop_last() =~= base@.take(i as int));
            if !self.is_nested_record(recs, id) {
                out.push(id);
            }
            i = i + 1;
        }
        assert(base@.take(i as int) =~= base@);
        Some(out)
    }

    fn write_ids(&mut self, recs: &DeserializedRecord, ids: &Vec<i32>) -> (r: Result<(), String>)
        requires
            graph_writable(*recs),
            old(self).done@.finite(),
        ensures
            match sp_write_ids(*recs, old(self).st(), ids@, 0) {
                Ok(s) => r is Ok && final(self).st() == s,
                Err(m) => r matches Err(e) && e@ == m,
            },
            r is Ok ==> final(self).done@.finite(),
    {
        let ghost s0 = self.st();
        let mut i: usize = 0;
        while i < ids.len()
            invariant
                graph_writable(*recs),
                i <= ids@.len(),
                self.done@.finite(),
                s0 == old(self).st(),
                sp_write_ids(*recs, s0, ids@, 0) == sp_write_ids(*recs, self.st(), ids@, i as int),
            decreases ids@.len() - i,
        {
            let ghost si = self.st();
            let res = self.write_record_by_id(recs, ids[i]);
            match res {
                Ok(()) => {
                    proof {
                        lemma_write_ids_step(*recs, si, ids@, i as int, self.st());
                    }
                },
                Err(e) => {
                    proof {
                        lemma_write_ids_err(*recs, si, ids@, i as int, e@);
                    }
                    return Err(e);
                },
            }
            i = i + 1;
        }
        proof {
            lemma_write_ids_done(*recs, self.st(), ids@, i as int);
        }
        Ok(())
    }

    fn add_todos(&mut self, ids: &Vec<i32>)
        requires
            old(self).done@.finite(),
        ensures
            final(self).st() == add_todos(old(self).st(), ids@, 0),
            final(self).done@.finite(),
    {
        let ghost s0 = self.st();
        let mut i: usize = 0;
        while i < ids.len()
            invariant
                i <= ids@.len(),
                self.done@.finite(),
                add_todos(s0, ids@, 0) == add_todos(self.st(), ids@, i as int),
            decreases ids@.len() - i,
        {
            self.add_todo(ids[i]);
            i = i + 1;
        }
    }

    fn drain(&mut self, recs: &DeserializedRecord) -> (r: Result<(), String>)
        requires
            graph_writable(*recs),
            old(self).done@.finite(),
        ensures
            match sp_drain(*recs, old(self).st()) {
                Ok(s) => r is Ok && final(self).st() == s,
                Err(m) => r matches Err(e) && e@ == m,
            },
            r is Ok ==> final(self).done@.finite(),
    {
        let ghost s0 = self.st();
        loop
            invariant
                graph_writable(*recs),
                self.done@.finite(),
                recs.records@.dom().finite(),
                s0 == old(self).st(),
                sp_drain(*recs, s0) == sp_drain(*recs, self.st()),
            decreases queue_measure(*recs, self.st()).0, queue_measure(*recs, self.st()).1,
        {
            let ghost st = self.st();
            match self.todo.pop_front() {
                None => {
                    proof {
                        lemma_drain_done(*recs, st);
                    }
                    return Ok(());
                },
                Some(id) => {
                    assert(self.st() == SState { todo: st.todo.drop_first(), ..st });
                    let res = self.write_record_by_id(recs, id);
                    match res {
                        Ok(()) => {
                            proof {
                                lemma_measure_decreases(*recs, st, self.st());
                                lemma_drain_step(*recs, st, self.st());
                            }
                        },
                        Err(e) => {
                            proof {
                                lemma_drain_err(*recs, st, e@);
                            }
                            return Err(e);
                        },
                    }
                },
            }
        }
    }

    fn unwritten_ids(&self, recs: &DeserializedRecord) -> (v: Vec<i32>)
        ensures
            v@.to_set() == recs.records@.dom().difference(self.emitted@),
    {
        let ghost m = recs.records@;
        let ghost target = m.dom().difference(self.emitted@);
        let mut v: Vec<i32> = Vec::new();
        for (id, record) in it: recs.records.iter()
            invariant
                m == recs.records@,
                target == m.dom().difference(self.emitted@),
                it.seq() == vstd::std_specs::hash::spec_hash_map_iter(&recs.records).remaining(),
                forall|j: int| 0 <= j < v@.len() ==> target.contains(#[trigger] v@[j]),
                forall|j: int| 0 <= j < it.index() ==> (target.contains(*it.seq()[j].0) ==> v@.contains(*it.seq()[j].0)),
        {
            proof {
                vstd::std_specs::hash::axiom_spec_hash_map_iter(&recs.records);
                let s = vstd::std_specs::hash::spec_hash_map_iter(&recs.records).remaining();
                let j = it.index() as int;
                assert(m.contains_key(*s[j].0));
            }
            if !self.emitted.contains(id) {
                let ghost before = v@;
                v.push(*id);
                assert forall|j: int| 0 <= j < it.index() + 1 && target.contains(*it.seq()[j].0) implies v@.contains(*it.seq()[j].0) by {
                    if j < it.index() {
                        let k = choose|k: int| 0 <= k < before.len() && before[k] == *it.seq()[j].0;
                        assert(v@[k] == before[k]);
                    } else if j == it.index() {
                        assert(v@[before.len() as int] == *id);
                    }
                }
            }
        }
        proof {
            vstd::std_specs::hash::axiom_spec_hash_map_iter(&recs.records);
            let s = vstd::std_specs::hash::spec_hash_map_iter(&recs.records).remaining();
            assert forall|y: i32| v@.to_set().contains(y) <==> target.contains(y) by {
                if target.contains(y) {
                    assert(s.contains((&y, &m[y])));
                    let j = choose|j: int| 0 <= j < s.len() && s[j] == (&y, &m[y]);
                }
                if v@.to_set().contains(y) {
                    let k = choose|k: int| 0 <= k < v@.len() && v@[k] == y;
                }
            }
            assert(v@.to_set() =~= target);
        }
        v
    }

    fn serialize(self, rec: &DeserializedRecord) -> (r: Result<Vec<u8>, String>)
        requires
            graph_writable(*rec),
            self.st() == initial_sstate(Seq::empty()),
        ensures
            match sp_serialize(*rec) {
                Ok(b) => r matches Ok(v) && v@ == b,
                Err(m) => r matches Err(e) && e@ == m,
            },
    {
        let mut w = self;
        w.write_u8(0);
        w.write_i32(rec.root_id);
        w.write_i32(rec.header_id);
        w.write_i32(1);
        w.write_i32(0);
        assert(w.output@ =~= enc_header(*rec));
        assert(w.st() == initial_sstate(enc_header(*rec)));
        match w.original_top_level_order(rec) {
            Some(order) => {
                match w.write_ids(rec, &order) {
                    Ok(()) => {},
                    Err(e) => return Err(e),
                }
            },
            None => {
                let ids = library_record_ids(rec);
                let sorted = sort_ids(rec, &ids);
                w.add_todos(&sorted);
                w.add_todo(rec.root_id);
            },
        }
        match w.drain(rec) {
            Ok(()) => {},
            Err(e) => return Err(e),
        }
        let remaining = w.unwritten_ids(rec);
        let sorted = sort_ids(rec, &remaining);
        match w.write_ids(rec, &sorted) {
            Ok(()) => {},
            Err(e) => return Err(e),
        }
        w.write_u8(11);
        Ok(w.output)
    }
}

impl Serializer {
    /// The size of a string once written: its length prefix and its bytes.
    fn encoded_string_size(value: &str) -> (n: usize)
        requires
            encode_utf8(value@).len() + 5 <= usize::MAX,
        ensures
            n == string_record_size(value@),
            string_fits(value@) ==> n == enc_string(value@).len(),
    {
        proof {
            if string_fits(value@) {
                sizes::lemma_string_size_is_encoding_len(value@);
            }
        }
        let length = value.len();
        let prefix_len: usize = if length <= 0x7F {
            1
        } else if length <= 0x3FFF {
            2
        } else if length <= 0x1F_FFFF {
            3
        } else if length <= 0x0FFF_FFFF {
            4
        } else {
            5
        };
        prefix_len + length
    }

    /// The size of a primitive once written without its type.
    fn primitive_serialized_size(value: &Primitive) -> (n: usize)
        requires
            primitive_fits(value@),
        ensures
            n == primitive_size(value@),
            n == enc_primitive(value@).len(),
    {
        proof {
            lemma_primitive_size_is_encoding_len(value@);
        }
        match value {
            Primitive::Boolean(_) | Primitive::Byte(_) | Primitive::Int8(_) => 1,
            Primitive::Char(_) | Primitive::Int16(_) | Primitive::UInt16(_) => 2,
            Primitive::Int32(_) | Primitive::UInt32(_) | Primitive::Single(_) => 4,
            Primitive::Int64(_) | Primitive::UInt64(_) | Primitive::Double(_) | Primitive::TimeSpan(_)
            | Primitive::DateTime(_) => 8,
            Primitive::Decimal(s) | Primitive::String(s) => Self::encoded_string_size(s.as_str()),
            Primitive::Null => 0,
        }
    }

    /// The size of a member once written (a reference counted as a reference),
    /// or why it cannot be written.
    fn member_serialized_size(member: &Member, member_type: &MemberType) -> (r: Result<usize, String>)
        requires
            member_fits(*member),
        ensures
            match member_size(member@, member_type@) {
                Ok(n) => r == Ok::<usize, String>(n as usize),
                Err(m) => r matches Err(e) && e@ == m,
            },
    {
        if let MemberType::Primitive(_) = member_type {
            if let Member::Primitive(value) = member {
                return Ok(Self::primitive_serialized_size(value));
            }
            return Err(to_owned_string("Non primitive member for primitive field"));
        }
        match member {
            Member::Primitive(value) => Ok(2 + Self::primitive_serialized_size(value)),
            Member::Reference(_) => Ok(5),
            Member::Null => Ok(1),
            Member::NullMultiple(count) => {
                if *count <= 0 {
                    return Err(text_with_int("NullMultiple count must be positive, got ", *count as i128));
                }
                if *count <= 0xFF {
                    Ok(2)
                } else {
                    Ok(5)
                }
            },
        }
    }
}

/// A copy of a list of ids.
fn copy_ids(v: &Vec<i32>) -> (r: Vec<i32>)
    ensures
        r@ == v@,
{
    let mut r: Vec<i32> = Vec::new();
    let mut i: usize = 0;
    while i < v.len()
        invariant
            i <= v@.len(),
            r@ == v@.take(i as int),
        decreases v@.len() - i,
    {
        r.push(v[i]);
        assert(v@.take(i + 1) =~= v@.take(i as int).push(v@[i as int]));
        i = i + 1;
    }
    assert(v@.take(i as int) =~= v@);
    r
}

/// The ids of the records that have metadata.
fn metadata_ids(recs: &DeserializedRecord) -> (v: Vec<i32>)
    ensures
        v@.to_set() == recs.record_metadata@.dom(),
{
    let ghost m = recs.record_metadata@;
    let mut v: Vec<i32> = Vec::new();
    for (id, meta) in it: recs.record_metadata.iter()
        invariant
            m == recs.record_metadata@,
            it.seq() == vstd::std_specs::hash::spec_hash_map_iter(&recs.record_metadata).remaining(),
            forall|j: int| 0 <= j < v@.len() ==> m.contains_key(#[trigger] v@[j]),
            forall|j: int| 0 <= j < it.index() ==> v@.contains(*it.seq()[j].0),
    {
        proof {
            vstd::std_specs::hash::axiom_spec_hash_map_iter(&recs.record_metadata);
            let s = vstd::std_specs::hash::spec_hash_map_iter(&recs.record_metadata).remaining();
            let j = it.index() as int;
            assert(m.contains_key(*s[j].0));
        }
        let ghost before = v@;
        v.push(*id);
        assert forall|j: int| 0 <= j < it.index() + 1 implies v@.contains(*it.seq()[j].0) by {
            if j < it.index() {
                let k = choose|k: int| 0 <= k < before.len() && before[k] == *it.seq()[j].0;
                assert(v@[k] == before[k]);
            } else {
                assert(v@[before.len() as int] == *id);
            }
        }
    }
    proof {
        vstd::std_specs::hash::axiom_spec_hash_map_iter(&recs.record_metadata);
        let s = vstd::std_specs::hash::spec_hash_map_iter(&recs.record_metadata).remaining();
        assert forall|y: i32| v@.to_set().contains(y) <==> m.dom().contains(y) by {
            if m.dom().contains(y) {
                assert(s.contains((&y, &m[y])));
                let j = choose|j: int| 0 <= j < s.len() && s[j] == (&y, &m[y]);
            }
            if v@.to_set().contains(y) {
                let k = choose|k: int| 0 <= k < v@.len() && v@[k] == y;
            }
        }
        assert(v@.to_set() =~= m.dom());
    }
    v
}

/// The ids of the library records.
fn library_record_ids(recs: &DeserializedRecord) -> (v: Vec<i32>)
    ensures
        v@.to_set() == library_ids(*recs),
{
    let ghost m = recs.records@;
    let ghost target = library_ids(*recs);
    let mut v: Vec<i32> = Vec::new();
    for (id, record) in it: recs.records.iter()
        invariant
            m == recs.records@,
            target == library_ids(*recs),
            it.seq() == vstd::std_specs::hash::spec_hash_map_iter(&recs.records).remaining(),
            forall|j: int| 0 <= j < v@.len() ==> target.contains(#[trigger] v@[j]),
            forall|j: int| 0 <= j < it.index() ==> (target.contains(*it.seq()[j].0) ==> v@.contains(*it.seq()[j].0)),
    {
        proof {
            vstd::std_specs::hash::axiom_spec_hash_map_iter(&recs.records);
            let s = vstd::std_specs::hash::spec_hash_map_iter(&recs.records).remaining();
            let j = it.index() as int;
            assert(m.contains_key(*s[j].0) && m[*s[j].0] == *s[j].1);
        }
        if let Record::BinaryLibrary(_) = record {
            let ghost before = v@;
            v.push(*id);
            assert forall|j: int| 0 <= j < it.index() + 1 && target.contains(*it.seq()[j].0) implies v@.contains(*it.seq()[j].0) by {
                if j < it.index() {
                    let k = choose|k: int| 0 <= k < before.len() && before[k] == *it.seq()[j].0;
                    assert(v@[k] == before[k]);
                } else if j == it.index() {
                    assert(v@[before.len() as int] == *id);
                }
            }
        }
    }
    proof {
        vstd::std_specs::hash::axiom_spec_hash_map_iter(&recs.records);
        let s = vstd::std_specs::hash::spec_hash_map_iter(&recs.records).remaining();
        assert forall|y: i32| v@.to_set().contains(y) <==> target.contains(y) by {
            if target.contains(y) {
                assert(s.contains((&y, &m[y])));
                let j = choose|j: int| 0 <= j < s.len() && s[j] == (&y, &m[y]);
            }
            if v@.to_set().contains(y) {
                let k = choose|k: int| 0 <= k < v@.len() && v@[k] == y;
            }
        }
        assert(v@.to_set() =~= target);
    }
    v
}

/// Writes a record graph in the binary format, or says why it cannot: the
/// graph is checked first (`validate_graph`), then written as `sp_serialize` says.
pub fn serialize_checked(rec: &DeserializedRecord) -> (r: Result<Vec<u8>, String>)
    requires
        rec.graph_valid() ==> graph_fits(*rec),
    ensures
        !rec.records@.contains_key(rec.root_id) ==> (r matches Err(e) && e@ == "Missing root record "@
            + int_text(rec.root_id as int)),
        rec.records@.contains_key(rec.root_id) && !rec.graph_valid() ==> (r matches Err(e) && exists|id: i32|
            rec.records@.contains_key(id) && rec.record_error(id, rec.records@[id]) == Some(e@)),
        rec.graph_valid() ==> match sp_serialize(*rec) {
            Ok(b) => r matches Ok(v) && v@ == b,
            Err(m) => r matches Err(e) && e@ == m,
        },
        rec.graph_error() matches Some(m) ==> (r matches Err(e) && e@ == m),
{
    match rec.validate_graph() {
        Ok(()) => {},
        Err(e) => return Err(e),
    }
    proof {
        lemma_valid_writable(*rec);
    }
    let w = Serializer::new();
    assert(w.st() == initial_sstate(Seq::empty()));
    w.serialize(rec)
}

/// Writes a record graph that can be written (the caller knows
/// `serialize_checked` would succeed on it).
pub fn serialize(rec: &DeserializedRecord) -> (r: Vec<u8>)
    requires
        rec.graph_valid(),
        graph_fits(*rec),
        sp_serialize(*rec) is Ok,
    ensures
        sp_serialize(*rec) == Ok::<Seq<u8>, Seq<char>>(r@),
{
    match serialize_checked(rec) {
        Ok(v) => v,
        Err(_) => {
            proof {
                assert(false);
            }
            Vec::new()
        },
    }
}

} // verus!
