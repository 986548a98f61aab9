//! A record graph without layout metadata reads back from the bytes the writer
//! writes for it: the same root and header ids, every record under its id, and
//! each class record with its members and a class type equal to its own.
use crate::bytes::lemma_le_bytes_len;
use crate::parser::{
    at, capture, initial_state, sp_object, sp_parse, sp_record, sp_records, sp_u8, with_record, PState,
};
use crate::records::{
    members_view, primitive_type_of, primitives_view, Class, ClassType, ClassTypeV, ClassV, DeserializedRecord,
    Record, RecordV,
};
use crate::serializer::class_readback::{
    enc_array_header, law_binary_array_readback, law_class_record_readback, law_class_with_id_readback,
    law_system_class_record_readback, member_reads_back, with_class_type,
};
use crate::serializer::encoding::{
    class_type_fits, enc_class_type, enc_i32, enc_items, enc_members, enc_string, member_type_fits,
    primitive_type_code, string_fits,
};
use crate::serializer::order::{key_lt, lemma_sorted_ids_exist, sorted_ids};
use crate::serializer::readback::{
    holds_at, law_library_record_readback, law_primitive_array_readback, law_string_record_readback,
    lemma_holds_split, lemma_i32_readback, primitive_reads_back,
};
use crate::serializer::record_roundtrip::{enc_class_header, lemma_binary_array_written, lemma_class_record_written};
use crate::serializer::{
    add_todo, add_todos, class_record_type, enc_header, enc_primitives, initial_sstate,
    law_serialized_output_framed, lemma_drain_done, lemma_drain_err, lemma_drain_extends, lemma_drain_step,
    lemma_prefix_append, lemma_prefix_trans, lemma_write_ids_done, lemma_write_ids_err, lemma_write_ids_extends,
    lemma_write_ids_step, library_ids, queue_measure, sp_drain, sp_serialize, sp_write_ids, sp_write_record,
    sp_write_record_by_id, SState,
};
use vstd::prelude::*;

verus! {

/// Whether record `r` reads back as itself: its strings can be written, its
/// lengths fit an `i32`, its class type is known and has as many member names
/// and types as it has members, and each member or item reads back with its
/// declared type.
pub open spec fn record_reads_back(recs: DeserializedRecord, r: Record) -> bool {
    match r {
        Record::BinaryLibrary(v) => string_fits(v@),
        Record::String(v) => string_fits(v@),
        Record::PrimitiveArray(t, vals) => {
            &&& vals.len() <= i32::MAX
            &&& forall|i: int|
                0 <= i < vals.len() ==> primitive_type_of(#[trigger] vals@[i]@) == t && primitive_reads_back(vals@[i]@)
        },
        Record::BinaryArray(t, vals) => {
            &&& member_type_fits(t@)
            &&& vals.len() <= i32::MAX
            &&& forall|i: int| 0 <= i < vals.len() ==> member_reads_back(#[trigger] vals@[i]@, t@)
        },
        Record::Class(c) => {
            &&& c.class_type_id < recs.class_types.len()
            &&& class_type_fits(recs.class_types@[c.class_type_id as int])
            &&& recs.class_types@[c.class_type_id as int].member_names.len()
                == recs.class_types@[c.class_type_id as int].member_types.len()
            &&& recs.class_types@[c.class_type_id as int].member_names.len() <= i32::MAX
            &&& c.members.len() == recs.class_types@[c.class_type_id as int].member_types.len()
            &&& forall|i: int|
                0 <= i < c.members.len() ==> member_reads_back(
                    #[trigger] c.members@[i]@,
                    recs.class_types@[c.class_type_id as int]@.member_types[i],
                )
        },
    }
}

/// Whether every record of the graph reads back as itself.
pub open spec fn graph_reads_back(recs: DeserializedRecord) -> bool {
    forall|id: i32| #[trigger] recs.records@.contains_key(id) ==> record_reads_back(recs, recs.records@[id])
}

/// The class type that class type `ct` reads back as: itself, with library 0
/// when it is a system class.
pub open spec fn class_type_read_as(v: ClassTypeV, ct: ClassType) -> bool {
    v == (if ct.system_class {
        ClassTypeV { library_id: 0, ..ct@ }
    } else {
        ct@
    })
}

/// Whether `v`, with the class types `cts` read along with it, is what record
/// `r` reads back as: itself, but that a class record names the class type it
/// was read with, which equals its own.
pub open spec fn record_read_as(recs: DeserializedRecord, v: RecordV, cts: Seq<ClassTypeV>, r: Record) -> bool {
    match r {
        Record::Class(c) => match v {
            RecordV::Class(cv) => {
                &&& cv.members == members_view(c.members@)
                &&& cv.class_type_id < cts.len()
                &&& class_type_read_as(cts[cv.class_type_id as int], recs.class_types@[c.class_type_id as int])
            },
            _ => false,
        },
        _ => v == r@,
    }
}

/// The bytes the writer writes for record `r` of a graph without metadata.
pub open spec fn enc_record(recs: DeserializedRecord, st: SState, id: i32, r: Record) -> Seq<u8> {
    match r {
        Record::BinaryLibrary(v) => seq![12u8] + enc_i32(id) + enc_string(v@),
        Record::String(v) => seq![6u8] + enc_i32(id) + enc_string(v@),
        Record::PrimitiveArray(t, vals) => seq![15u8] + enc_i32(id) + enc_i32(vals.len() as i32) + seq![
            primitive_type_code(t),
        ] + enc_primitives(primitives_view(vals@)),
        Record::BinaryArray(t, vals) => seq![7u8] + enc_array_header(id, t@, vals@.len()) + enc_items(
            members_view(vals@),
            t@,
        ),
        Record::Class(c) => enc_class_header(recs, st, id, c) + enc_members(
            members_view(c.members@),
            recs.class_types@[c.class_type_id as int]@.member_types,
        ),
    }
}

/// The writer's map from class types to the records that wrote them out, after
/// it writes record `r`.
pub open spec fn class_metadata_after(recs: DeserializedRecord, st: SState, id: i32, r: Record) -> Map<usize, i32> {
    match r {
        Record::Class(c) => if class_record_type(recs, st, id, c, recs.class_types@[c.class_type_id as int]) == 1 {
            st.class_metadata
        } else {
            st.class_metadata.insert(c.class_type_id, id)
        },
        _ => st.class_metadata,
    }
}

/// What the writer writes for a record of a graph without metadata.
pub proof fn lemma_record_written(recs: DeserializedRecord, st: SState, id: i32, r: Record)
    requires
        recs.record_metadata@.is_empty(),
        record_reads_back(recs, r),
        sp_write_record(recs, st, id, r) is Ok,
    ensures
        sp_write_record(recs, st, id, r)->Ok_0.output == st.output + enc_record(recs, st, id, r),
        sp_write_record(recs, st, id, r)->Ok_0.emitted == st.emitted,
        sp_write_record(recs, st, id, r)->Ok_0.class_metadata == class_metadata_after(recs, st, id, r),
{
    match r {
        Record::BinaryArray(t, vals) => {
            lemma_binary_array_written(recs, st, id, t, vals);
        },
        Record::Class(c) => {
            lemma_class_record_written(recs, st, id, c);
        },
        _ => {},
    }
}

/// Whether record `rid`, which wrote class type `ctid` out, defines in the
/// reader's state a class type that `ctid` reads back as.
pub open spec fn class_defined(recs: DeserializedRecord, r: PState, ctid: usize, rid: i32) -> bool {
    &&& ctid < recs.class_types.len()
    &&& r.class_metadata.contains_key(rid)
    &&& r.class_metadata[rid] < r.class_types.len()
    &&& class_type_read_as(r.class_types[r.class_metadata[rid] as int], recs.class_types@[ctid as int])
}

/// How the reader's state stands to the writer's once both have gone through
/// the same records: at the same position, holding the records the writer
/// wrote, each read as it was written; each class type the writer wrote out is
/// defined in the reader by the record that wrote it; and no more class types
/// were read than bytes.
pub open spec fn in_step(recs: DeserializedRecord, w: SState, r: PState) -> bool {
    &&& r.pos == w.output.len()
    &&& r.class_types.len() <= r.pos
    &&& r.records.dom() == w.emitted
    &&& w.emitted.subset_of(recs.records@.dom())
    &&& r.class_metadata.dom().subset_of(w.emitted)
    &&& forall|ctid: usize| #[trigger]
        w.class_metadata.contains_key(ctid) ==> class_defined(recs, r, ctid, w.class_metadata[ctid])
    &&& forall|id: i32| #[trigger]
        w.emitted.contains(id) ==> record_read_as(recs, r.records[id], r.class_types, recs.records@[id])
}

proof fn lemma_in_step_extend(recs: DeserializedRecord, w: SState, w2: SState, r: PState, r2: PState, id: i32)
    requires
        in_step(recs, w, r),
        recs.records@.contains_key(id),
        !w.emitted.contains(id),
        r2.pos == w2.output.len(),
        r2.class_types.len() <= r2.pos,
        w2.emitted == w.emitted.insert(id),
        r2.records == r.records.insert(id, r2.records[id]),
        record_read_as(recs, r2.records[id], r2.class_types, recs.records@[id]),
        r.class_types.is_prefix_of(r2.class_types),
        r2.class_metadata.dom().subset_of(r.class_metadata.dom().insert(id)),
        forall|k: i32| #[trigger]
            r.class_metadata.contains_key(k) ==> r2.class_metadata.contains_key(k) && r2.class_metadata[k]
                == r.class_metadata[k],
        forall|ctid: usize| #[trigger]
            w2.class_metadata.contains_key(ctid) ==> (w2.class_metadata[ctid] == id && class_defined(
                recs,
                r2,
                ctid,
                id,
            )) || (w.class_metadata.contains_key(ctid) && w2.class_metadata[ctid] == w.class_metadata[ctid]),
    ensures
        in_step(recs, w2, r2),
{
    assert forall|k: int| 0 <= k < r.class_types.len() implies r2.class_types[k] == r.class_types[k] by {
        assert(r2.class_types.subrange(0, r.class_types.len() as int)[k] == r2.class_types[k]);
    }
    assert(r2.records.dom() =~= w2.emitted);
    assert forall|k: i32| #[trigger]
        w2.emitted.contains(k) implies record_read_as(recs, r2.records[k], r2.class_types, recs.records@[k]) by {
        if k != id {
            assert(w.emitted.contains(k));
            assert(r2.records[k] == r.records[k]);
        }
    }
    assert forall|ctid: usize| #[trigger]
        w2.class_metadata.contains_key(ctid) implies class_defined(recs, r2, ctid, w2.class_metadata[ctid]) by {
        if !(w2.class_metadata[ctid] == id && class_defined(recs, r2, ctid, id)) {
            assert(w.class_metadata.contains_key(ctid));
            assert(class_defined(recs, r, ctid, w.class_metadata[ctid]));
        }
    }
}

/// A type byte the writer wrote reads back.
pub proof fn lemma_type_byte(b: Seq<u8>, pos: int, rt: u8, rest: Seq<u8>)
    requires
        holds_at(b, pos, seq![rt] + rest),
    ensures
        sp_u8(b, pos) == Ok::<(u8, int), Seq<char>>((rt, pos + 1)),
        holds_at(b, pos + 1, rest),
{
    lemma_holds_split(b, pos, seq![rt], rest);
    assert(b[pos] == b.subrange(pos, pos + 1)[0]);
}

/// A top-level record that reads back moves the reader on to the next one.
pub proof fn lemma_records_step(b: Seq<u8>, r: PState, rt: u8, id: i32, s2: PState)
    requires
        rt != 11,
        sp_u8(b, r.pos) == Ok::<(u8, int), Seq<char>>((rt, r.pos + 1)),
        sp_record(b, at(r, r.pos + 1), rt) == Ok::<(i32, PState), Seq<char>>((id, s2)),
        s2.pos >= r.pos + 1,
    ensures
        sp_records(b, r) == sp_records(b, capture(s2, id, rt, r.pos)),
{
}

pub proof fn lemma_prefix_refl(s: Seq<ClassTypeV>)
    ensures
        s.is_prefix_of(s),
{
    assert(s.subrange(0, s.len() as int) =~= s);
}

pub proof fn lemma_prefix_push(s: Seq<ClassTypeV>, x: ClassTypeV)
    ensures
        s.is_prefix_of(s.push(x)),
{
    assert(s.push(x).subrange(0, s.len() as int) =~= s);
}

/// The reader reads a library, string or array record as the writer wrote it.
#[verifier::rlimit(60)]
proof fn lemma_read_plain(recs: DeserializedRecord, w: SState, w2: SState, id: i32, r: PState, b: Seq<u8>) -> (r2: PState)
    requires
        recs.record_metadata@.is_empty(),
        recs.records@.contains_key(id),
        !w.emitted.contains(id),
        record_reads_back(recs, recs.records@[id]),
        in_step(recs, w, r),
        b.len() <= usize::MAX,
        holds_at(b, r.pos, enc_record(recs, w, id, recs.records@[id])),
        w2.output == w.output + enc_record(recs, w, id, recs.records@[id]),
        w2.emitted == w.emitted.insert(id),
        w2.class_metadata == class_metadata_after(recs, w, id, recs.records@[id]),
        !(recs.records@[id] is Class),
    ensures
        in_step(recs, w2, r2),
        sp_records(b, r) == sp_records(b, r2),
{
    reveal(sp_record);
    reveal(sp_object);
    lemma_le_bytes_len((id as u32) as nat, 4);
    lemma_prefix_refl(r.class_types);
    let pos = r.pos;
    let s = at(r, pos + 1);
    let rec = recs.records@[id];
    let e = enc_record(recs, w, id, rec);
    match rec {
        Record::BinaryLibrary(v) => {
            let rest = enc_i32(id) + enc_string(v@);
            assert(e =~= seq![12u8] + rest);
            lemma_type_byte(b, pos, 12u8, rest);
            law_library_record_readback(b, s, id, v@);
            let s2 = with_record(at(s, pos + 1 + rest.len()), id, RecordV::BinaryLibrary(v@));
            lemma_records_step(b, r, 12u8, id, s2);
            let r2 = capture(s2, id, 12u8, pos);
            assert(r2.records == r.records.insert(id, r2.records[id]));
            lemma_in_step_extend(recs, w, w2, r, r2, id);
            r2
        },
        Record::String(v) => {
            let rest = enc_i32(id) + enc_string(v@);
            assert(e =~= seq![6u8] + rest);
            lemma_type_byte(b, pos, 6u8, rest);
            law_string_record_readback(b, s, id, v@);
            let s2 = with_record(at(s, pos + 1 + rest.len()), id, RecordV::String(v@));
            lemma_records_step(b, r, 6u8, id, s2);
            let r2 = capture(s2, id, 6u8, pos);
            assert(r2.records == r.records.insert(id, r2.records[id]));
            lemma_in_step_extend(recs, w, w2, r, r2, id);
            r2
        },
        Record::PrimitiveArray(t, vals) => {
            let pv = primitives_view(vals@);
            lemma_le_bytes_len((pv.len() as i32 as u32) as nat, 4);
            assert(pv.len() as i32 == vals.len() as i32);
            let rest = enc_i32(id) + enc_i32(pv.len() as i32) + seq![primitive_type_code(t)] + enc_primitives(pv);
            assert(e =~= seq![15u8] + rest);
            lemma_type_byte(b, pos, 15u8, rest);
            assert forall|i: int| 0 <= i < pv.len() implies primitive_type_of(#[trigger] pv[i]) == t
                && primitive_reads_back(pv[i]) by {
                assert(pv[i] == vals@[i]@);
            }
            law_primitive_array_readback(b, s, id, t, pv);
            let s2 = with_record(at(s, pos + 1 + rest.len()), id, RecordV::PrimitiveArray(t, pv));
            lemma_records_step(b, r, 15u8, id, s2);
            let r2 = capture(s2, id, 15u8, pos);
            assert(r2.records == r.records.insert(id, r2.records[id]));
            lemma_in_step_extend(recs, w, w2, r, r2, id);
            r2
        },
        Record::BinaryArray(t, vals) => {
            let mv = members_view(vals@);
            let rest = enc_array_header(id, t@, vals@.len()) + enc_items(mv, t@);
            assert(e =~= seq![7u8] + rest);
            lemma_type_byte(b, pos, 7u8, rest);
            assert forall|i: int| 0 <= i < mv.len() implies member_reads_back(#[trigger] mv[i], t@) by {
                assert(mv[i] == vals@[i]@);
            }
            law_binary_array_readback(b, s, id, t@, mv);
            let s2 = with_record(at(s, pos + 1 + rest.len()), id, RecordV::BinaryArray(t@, mv));
            lemma_records_step(b, r, 7u8, id, s2);
            let r2 = capture(s2, id, 7u8, pos);
            assert(r2.records == r.records.insert(id, r2.records[id]));
            lemma_in_step_extend(recs, w, w2, r, r2, id);
            r2
        },
        Record::Class(_) => {
            r
        },
    }
}

/// The reader reads a class record as the writer wrote it.
#[verifier::rlimit(80)]
proof fn lemma_read_class(recs: DeserializedRecord, w: SState, w2: SState, id: i32, r: PState, b: Seq<u8>) -> (r2: PState)
    requires
        recs.record_metadata@.is_empty(),
        recs.records@.contains_key(id),
        !w.emitted.contains(id),
        record_reads_back(recs, recs.records@[id]),
        in_step(recs, w, r),
        b.len() <= usize::MAX,
        holds_at(b, r.pos, enc_record(recs, w, id, recs.records@[id])),
        w2.output == w.output + enc_record(recs, w, id, recs.records@[id]),
        w2.emitted == w.emitted.insert(id),
        w2.class_metadata == class_metadata_after(recs, w, id, recs.records@[id]),
        recs.records@[id] is Class,
    ensures
        in_step(recs, w2, r2),
        sp_records(b, r) == sp_records(b, r2),
{
    reveal(sp_record);
    lemma_le_bytes_len((id as u32) as nat, 4);
    let pos = r.pos;
    let s = at(r, pos + 1);
    let c = recs.records@[id]->Class_0;
    let ctid = c.class_type_id;
    let ct = recs.class_types@[ctid as int];
    let mv = members_view(c.members@);
    let ms = enc_members(mv, ct@.member_types);
    let rt = class_record_type(recs, w, id, c, ct);
    let e = enc_record(recs, w, id, recs.records@[id]);
    assert forall|i: int| 0 <= i < mv.len() implies member_reads_back(#[trigger] mv[i], ct@.member_types[i]) by {
        assert(mv[i] == c.members@[i]@);
    }
    assert(r.class_types.len() < b.len());
    if rt == 1 {
        let mid = w.class_metadata[ctid];
        assert(class_defined(recs, r, ctid, mid));
        let k = r.class_metadata[mid];
        assert(r.class_types[k as int].member_types == ct@.member_types);
        lemma_le_bytes_len((mid as u32) as nat, 4);
        let rest = enc_i32(id) + enc_i32(mid) + ms;
        assert(e =~= seq![1u8] + rest);
        lemma_type_byte(b, pos, 1u8, rest);
        law_class_with_id_readback(b, s, id, mid, mv);
        let s2 = with_record(at(s, pos + 1 + rest.len()), id, RecordV::Class(ClassV { class_type_id: k, members: mv }));
        lemma_records_step(b, r, 1u8, id, s2);
        let r2 = capture(s2, id, 1u8, pos);
        lemma_prefix_refl(r.class_types);
        assert(r2.records == r.records.insert(id, r2.records[id]));
        lemma_in_step_extend(recs, w, w2, r, r2, id);
        r2
    } else if rt == 4 {
        let rest = enc_class_type(id, ct) + ms;
        assert(e =~= seq![4u8] + rest);
        lemma_type_byte(b, pos, 4u8, rest);
        law_system_class_record_readback(b, s, id, ct, mv);
        let ctv = ClassTypeV { system_class: true, library_id: 0, ..ct@ };
        assert(class_type_read_as(ctv, ct));
        let n = r.class_types.len() as usize;
        let s2 = with_record(
            at(with_class_type(s, id, ctv), pos + 1 + rest.len()),
            id,
            RecordV::Class(ClassV { class_type_id: n, members: mv }),
        );
        lemma_records_step(b, r, 4u8, id, s2);
        let r2 = capture(s2, id, 4u8, pos);
        lemma_prefix_push(r.class_types, ctv);
        assert(r2.records == r.records.insert(id, r2.records[id]));
        assert(class_defined(recs, r2, ctid, id));
        lemma_in_step_extend(recs, w, w2, r, r2, id);
        r2
    } else {
        lemma_le_bytes_len((ct.library_id as u32) as nat, 4);
        let rest = enc_class_type(id, ct) + enc_i32(ct.library_id) + ms;
        assert(e =~= seq![5u8] + rest);
        lemma_type_byte(b, pos, 5u8, rest);
        law_class_record_readback(b, s, id, ct, mv);
        let ctv = ClassTypeV { system_class: false, ..ct@ };
        assert(class_type_read_as(ctv, ct));
        let n = r.class_types.len() as usize;
        let s2 = with_record(
            at(with_class_type(s, id, ctv), pos + 1 + rest.len()),
            id,
            RecordV::Class(ClassV { class_type_id: n, members: mv }),
        );
        lemma_records_step(b, r, 5u8, id, s2);
        let r2 = capture(s2, id, 5u8, pos);
        lemma_prefix_push(r.class_types, ctv);
        assert(r2.records == r.records.insert(id, r2.records[id]));
        assert(class_defined(recs, r2, ctid, id));
        lemma_in_step_extend(recs, w, w2, r, r2, id);
        r2
    }
}

pub proof fn lemma_holds_from_prefix(b: Seq<u8>, out: Seq<u8>, pos: int, e: Seq<u8>)
    requires
        out.is_prefix_of(b),
        0 <= pos,
        out.len() == pos + e.len(),
        out.subrange(pos, out.len() as int) == e,
    ensures
        holds_at(b, pos, e),
{
    assert(b.subrange(pos, pos + e.len()) =~= out.subrange(pos, out.len() as int)) by {
        assert forall|i: int| 0 <= i < e.len() implies b.subrange(pos, pos + e.len())[i] == out.subrange(
            pos,
            out.len() as int,
        )[i] by {
            assert(b[pos + i] == b.subrange(0, out.len() as int)[pos + i]);
        }
    }
}

/// Writing a record by its id, and reading on from where the reader stands,
/// keep the two states in step.
proof fn lemma_write_step(recs: DeserializedRecord, w: SState, id: i32, r: PState, b: Seq<u8>) -> (r2: PState)
    requires
        recs.record_metadata@.is_empty(),
        graph_reads_back(recs),
        in_step(recs, w, r),
        b.len() <= usize::MAX,
        sp_write_record_by_id(recs, w, id) is Ok,
        sp_write_record_by_id(recs, w, id)->Ok_0.output.is_prefix_of(b),
    ensures
        in_step(recs, sp_write_record_by_id(recs, w, id)->Ok_0, r2),
        sp_records(b, r) == sp_records(b, r2),
        sp_write_record_by_id(recs, w, id)->Ok_0.emitted == w.emitted.insert(id),
{
    let w2 = sp_write_record_by_id(recs, w, id)->Ok_0;
    if w.emitted.contains(id) {
        assert(w.emitted.insert(id) =~= w.emitted);
        r
    } else {
        let rec = recs.records@[id];
        lemma_record_written(recs, w, id, rec);
        let e = enc_record(recs, w, id, rec);
        assert(w2.output == w.output + e);
        assert(w2.output.subrange(w.output.len() as int, w2.output.len() as int) =~= e);
        lemma_holds_from_prefix(b, w2.output, r.pos, e);
        if rec is Class {
            lemma_read_class(recs, w, w2, id, r, b)
        } else {
            lemma_read_plain(recs, w, w2, id, r, b)
        }
    }
}

/// Writing records `ids[i..]` in turn, and reading on, keep the two states in
/// step; each of those records is then written.
proof fn lemma_write_ids_read(recs: DeserializedRecord, w: SState, ids: Seq<i32>, i: int, r: PState, b: Seq<u8>) -> (r2: PState)
    requires
        recs.record_metadata@.is_empty(),
        graph_reads_back(recs),
        in_step(recs, w, r),
        b.len() <= usize::MAX,
        0 <= i <= ids.len(),
        sp_write_ids(recs, w, ids, i) is Ok,
        sp_write_ids(recs, w, ids, i)->Ok_0.output.is_prefix_of(b),
    ensures
        in_step(recs, sp_write_ids(recs, w, ids, i)->Ok_0, r2),
        sp_records(b, r) == sp_records(b, r2),
        w.emitted.subset_of(sp_write_ids(recs, w, ids, i)->Ok_0.emitted),
        forall|k: int| i <= k < ids.len() ==> sp_write_ids(recs, w, ids, i)->Ok_0.emitted.contains(#[trigger] ids[k]),
    decreases ids.len() - i,
{
    if i >= ids.len() {
        lemma_write_ids_done(recs, w, ids, i);
        r
    } else {
        let res = sp_write_record_by_id(recs, w, ids[i]);
        if let Err(e) = res {
            lemma_write_ids_err(recs, w, ids, i, e);
            r
        } else {
            let w1 = res->Ok_0;
            lemma_write_ids_step(recs, w, ids, i, w1);
            let fin = sp_write_ids(recs, w1, ids, i + 1)->Ok_0;
            lemma_write_ids_extends(recs, w1, ids, i + 1);
            lemma_prefix_trans(w1.output, fin.output, b);
            let r1 = lemma_write_step(recs, w, ids[i], r, b);
            let r2 = lemma_write_ids_read(recs, w1, ids, i + 1, r1, b);
            r2
        }
    }
}

/// Draining the writer's queue, and reading on, keep the two states in step.
proof fn lemma_drain_read(recs: DeserializedRecord, w: SState, r: PState, b: Seq<u8>) -> (r2: PState)
    requires
        recs.record_metadata@.is_empty(),
        graph_reads_back(recs),
        in_step(recs, w, r),
        b.len() <= usize::MAX,
        sp_drain(recs, w) is Ok,
        sp_drain(recs, w)->Ok_0.output.is_prefix_of(b),
    ensures
        in_step(recs, sp_drain(recs, w)->Ok_0, r2),
        sp_records(b, r) == sp_records(b, r2),
        w.emitted.subset_of(sp_drain(recs, w)->Ok_0.emitted),
    decreases queue_measure(recs, w).0, queue_measure(recs, w).1,
{
    if w.todo.len() == 0 {
        lemma_drain_done(recs, w);
        r
    } else {
        let id = w.todo[0];
        let w0 = SState { todo: w.todo.drop_first(), ..w };
        let res = sp_write_record_by_id(recs, w0, id);
        if let Err(e) = res {
            lemma_drain_err(recs, w, e);
            r
        } else {
            let w1 = res->Ok_0;
            if key_lt(
                (queue_measure(recs, w1).0 as int, queue_measure(recs, w1).1 as int),
                (queue_measure(recs, w).0 as int, queue_measure(recs, w).1 as int),
            ) {
                lemma_drain_step(recs, w, w1);
                let fin = sp_drain(recs, w1)->Ok_0;
                lemma_drain_extends(recs, w1);
                lemma_prefix_trans(w1.output, fin.output, b);
                let r1 = lemma_write_step(recs, w0, id, r, b);
                let r2 = lemma_drain_read(recs, w1, r1, b);
                r2
            } else {
                assert(sp_drain(recs, w) is Err) by {
                    reveal(sp_drain);
                }
                r
            }
        }
    }
}

pub proof fn lemma_add_todos_keeps(st: SState, ids: Seq<i32>, i: int)
    ensures
        add_todos(st, ids, i).output == st.output,
        add_todos(st, ids, i).emitted == st.emitted,
        add_todos(st, ids, i).class_metadata == st.class_metadata,
    decreases ids.len() - i,
{
    if 0 <= i < ids.len() {
        lemma_add_todos_keeps(add_todo(st, ids[i]), ids, i + 1);
    }
}

/// A record graph without layout metadata, each of whose records reads back as
/// itself, reads back from the bytes the writer writes for it (bytes that fit
/// in memory): the same root and header ids, and every record under its id,
/// read as itself, but that a class record names the class type it was read
/// with, which equals its own (of library 0 for a system class).
pub proof fn law_parse_serialize_roundtrip(recs: DeserializedRecord)
    requires
        recs.record_metadata@.is_empty(),
        graph_reads_back(recs),
    ensures
        sp_serialize(recs) matches Ok(bytes) ==> (bytes.len() <= usize::MAX ==> (sp_parse(bytes) matches Ok(d)
            && d.root_id == recs.root_id && d.header_id == recs.header_id && d.records.dom()
            == recs.records@.dom() && forall|id: i32| #[trigger]
            recs.records@.contains_key(id) ==> record_read_as(recs, d.records[id], d.class_types, recs.records@[id]))),
{
    if let Ok(bytes) = sp_serialize(recs) {
        if bytes.len() <= usize::MAX {
            let h = enc_header(recs);
            let st0 = initial_sstate(h);
            let libs = sorted_ids(recs, library_ids(recs));
            let st1 = add_todo(add_todos(st0, libs, 0), recs.root_id);
            lemma_add_todos_keeps(st0, libs, 0);
            let s2 = sp_drain(recs, st1)->Ok_0;
            let rest = sorted_ids(recs, recs.records@.dom().difference(s2.emitted));
            let s3 = sp_write_ids(recs, s2, rest, 0)->Ok_0;
            assert(bytes == s3.output.push(11u8));
            // Where each part of the bytes stands.
            law_serialized_output_framed(recs);
            lemma_prefix_append(s3.output, seq![11u8]);
            assert(s3.output.push(11u8) =~= s3.output + seq![11u8]);
            lemma_write_ids_extends(recs, s2, rest, 0);
            lemma_prefix_trans(s2.output, s3.output, bytes);
            // The header.
            lemma_le_bytes_len((recs.root_id as u32) as nat, 4);
            lemma_le_bytes_len((recs.header_id as u32) as nat, 4);
            lemma_le_bytes_len((1i32 as u32) as nat, 4);
            lemma_le_bytes_len((0i32 as u32) as nat, 4);
            let a = enc_i32(recs.root_id);
            let c = enc_i32(recs.header_id);
            let v1 = enc_i32(1);
            let v0 = enc_i32(0);
            assert(h =~= seq![0u8] + (a + (c + (v1 + v0))));
            assert(holds_at(bytes, 0, h));
            lemma_type_byte(bytes, 0, 0u8, a + (c + (v1 + v0)));
            lemma_holds_split(bytes, 1, a, c + (v1 + v0));
            lemma_holds_split(bytes, 5, c, v1 + v0);
            lemma_holds_split(bytes, 9, v1, v0);
            lemma_i32_readback(bytes, 1, recs.root_id);
            lemma_i32_readback(bytes, 5, recs.header_id);
            lemma_i32_readback(bytes, 9, 1);
            lemma_i32_readback(bytes, 13, 0);
            // The records, in step with the writer.
            let r0 = initial_state(17);
            assert(r0.records.dom() =~= st1.emitted);
            assert(in_step(recs, st1, r0));
            let r1 = lemma_drain_read(recs, st1, r0, bytes);
            let r2 = lemma_write_ids_read(recs, s2, rest, 0, r1, bytes);
            // The end record.
            assert(bytes[r2.pos] == 11u8);
            assert(sp_records(bytes, r2) == Ok::<PState, Seq<char>>(at(r2, r2.pos + 1)));
            // Every record was written.
            lemma_sorted_ids_exist(recs, recs.records@.dom().difference(s2.emitted));
            assert forall|id: i32| recs.records@.dom().contains(id) implies s3.emitted.contains(id) by {
                if !s2.emitted.contains(id) {
                    assert(rest.to_set().contains(id));
                    let k = choose|k: int| 0 <= k < rest.len() && rest[k] == id;
                    assert(s3.emitted.contains(rest[k]));
                }
            }
            assert(r2.records.dom() =~= recs.records@.dom());
        }
    }
}

} // verus!
