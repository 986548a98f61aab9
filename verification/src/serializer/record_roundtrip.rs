//! What the writer writes for a class or array record whose members it does
//! not write in place, and that the reader reads such a record back.
use crate::bytes::lemma_le_bytes_len;
use crate::parser::{at, sp_object, sp_u8, with_record, PState};
use crate::records::{
    member_types_view, members_view, Class, ClassTypeV, ClassV, DeserializedRecord, Member, MemberType,
    Record, RecordV,
};
use crate::serializer::class_readback::{
    enc_array_header, law_binary_array_readback, law_class_record_readback, member_reads_back,
    with_class_type,
};
use crate::serializer::encoding::{
    class_type_fits, enc_class_type, enc_i32, enc_items, enc_member, enc_member_type_info, enc_members,
    member_type_code, member_type_fits,
};
use crate::serializer::readback::{holds_at, lemma_holds_split};
use crate::serializer::{
    class_record_type, lemma_items_done, lemma_items_err, lemma_items_step, lemma_members_done,
    lemma_members_err, lemma_members_step, should_inline, sp_write_items, sp_write_member,
    sp_write_members, sp_write_record, type_mismatch, SState,
};
use vstd::prelude::*;

verus! {

/// Whether member `m` of record `parent` is a reference to a record that the
/// writer writes in its place.
pub open spec fn inlined(recs: DeserializedRecord, parent: Option<i32>, m: Member) -> bool {
    match m {
        Member::Reference(cid) => should_inline(recs, parent, cid),
        _ => false,
    }
}

pub proof fn lemma_write_member_flat(recs: DeserializedRecord, st: SState, parent: Option<i32>, m: Member, t: MemberType)
    requires
        sp_write_member(recs, st, parent, m, t) is Ok,
        !inlined(recs, parent, m),
    ensures
        sp_write_member(recs, st, parent, m, t)->Ok_0.output == st.output + enc_member(m@, t@),
        sp_write_member(recs, st, parent, m, t)->Ok_0.emitted == st.emitted,
        sp_write_member(recs, st, parent, m, t)->Ok_0.class_metadata == st.class_metadata,
{
    reveal(sp_write_member);
}

pub proof fn lemma_write_members_flat(
    recs: DeserializedRecord,
    st: SState,
    parent: Option<i32>,
    ms: Seq<Member>,
    ts: Seq<MemberType>,
    i: int,
    base: Seq<u8>,
)
    requires
        0 <= i <= ms.len(),
        ms.len() == ts.len(),
        sp_write_members(recs, st, parent, ms, ts, i) is Ok,
        forall|j: int| 0 <= j < ms.len() ==> !inlined(recs, parent, #[trigger] ms[j]),
        st.output == base + enc_members(members_view(ms).take(i), member_types_view(ts)),
    ensures
        sp_write_members(recs, st, parent, ms, ts, i)->Ok_0.output == base + enc_members(
            members_view(ms),
            member_types_view(ts),
        ),
        sp_write_members(recs, st, parent, ms, ts, i)->Ok_0.emitted == st.emitted,
        sp_write_members(recs, st, parent, ms, ts, i)->Ok_0.class_metadata == st.class_metadata,
    decreases ms.len() - i,
{
    let mv = members_view(ms);
    let tv = member_types_view(ts);
    if i < ms.len() {
        let r = sp_write_member(recs, st, parent, ms[i], ts[i]);
        if let Err(e) = r {
            lemma_members_err(recs, st, parent, ms, ts, i, e);
        } else {
            let s2 = r->Ok_0;
            lemma_members_step(recs, st, parent, ms, ts, i, s2);
            lemma_write_member_flat(recs, st, parent, ms[i], ts[i]);
            assert(mv.take(i + 1).drop_last() =~= mv.take(i));
            assert(mv.take(i + 1).last() == ms[i]@);
            assert(tv[i] == ts[i]@);
            assert(s2.output =~= base + enc_members(mv.take(i + 1), tv));
            lemma_write_members_flat(recs, s2, parent, ms, ts, i + 1, base);
        }
    } else {
        lemma_members_done(recs, st, parent, ms, ts, i);
        assert(mv.take(i) =~= mv);
    }
}

pub proof fn lemma_write_items_flat(
    recs: DeserializedRecord,
    st: SState,
    parent: Option<i32>,
    vals: Seq<Member>,
    t: MemberType,
    i: int,
    base: Seq<u8>,
)
    requires
        0 <= i <= vals.len(),
        sp_write_items(recs, st, parent, vals, t, i) is Ok,
        forall|j: int| 0 <= j < vals.len() ==> !inlined(recs, parent, #[trigger] vals[j]),
        st.output == base + enc_items(members_view(vals).take(i), t@),
    ensures
        sp_write_items(recs, st, parent, vals, t, i)->Ok_0.output == base + enc_items(members_view(vals), t@),
        sp_write_items(recs, st, parent, vals, t, i)->Ok_0.emitted == st.emitted,
        sp_write_items(recs, st, parent, vals, t, i)->Ok_0.class_metadata == st.class_metadata,
    decreases vals.len() - i,
{
    let mv = members_view(vals);
    if i < vals.len() {
        let r = sp_write_member(recs, st, parent, vals[i], t);
        if let Err(e) = r {
            lemma_items_err(recs, st, parent, vals, t, i, e);
        } else {
            let s2 = r->Ok_0;
            lemma_items_step(recs, st, parent, vals, t, i, s2);
            lemma_write_member_flat(recs, st, parent, vals[i], t);
            assert(mv.take(i + 1).drop_last() =~= mv.take(i));
            assert(mv.take(i + 1).last() == vals[i]@);
            assert(s2.output =~= base + enc_items(mv.take(i + 1), t@));
            lemma_write_items_flat(recs, s2, parent, vals, t, i + 1, base);
        }
    } else {
        lemma_items_done(recs, st, parent, vals, t, i);
        assert(mv.take(i) =~= mv);
    }
}

/// The header the writer gives a class record, by the record type it picks:
/// a reference to the record that wrote its class type out (1), its class type
/// as a system class (4), or its class type and library id (5).
pub open spec fn enc_class_header(recs: DeserializedRecord, st: SState, id: i32, class: Class) -> Seq<u8> {
    let ct = recs.class_types@[class.class_type_id as int];
    let rt = class_record_type(recs, st, id, class, ct);
    if rt == 1 {
        seq![1u8] + enc_i32(id) + enc_i32(st.class_metadata[class.class_type_id])
    } else if rt == 4 {
        seq![4u8] + enc_class_type(id, ct)
    } else {
        seq![5u8] + enc_class_type(id, ct) + enc_i32(ct.library_id)
    }
}

/// The writer writes a class record none of whose members it writes in place
/// as its header and its members; it notes the record as the one that wrote
/// the class type out unless the header refers to another.
pub proof fn lemma_class_record_written(recs: DeserializedRecord, st: SState, id: i32, class: Class)
    requires
        sp_write_record(recs, st, id, Record::Class(class)) is Ok,
        class.members.len() == recs.class_types@[class.class_type_id as int].member_types.len(),
        forall|j: int| 0 <= j < class.members.len() ==> !inlined(recs, Some(id), #[trigger] class.members@[j]),
    ensures
        sp_write_record(recs, st, id, Record::Class(class))->Ok_0.output == st.output + (enc_class_header(
            recs,
            st,
            id,
            class,
        ) + enc_members(members_view(class.members@), recs.class_types@[class.class_type_id as int]@.member_types)),
        sp_write_record(recs, st, id, Record::Class(class))->Ok_0.emitted == st.emitted,
        sp_write_record(recs, st, id, Record::Class(class))->Ok_0.class_metadata == (if class_record_type(
            recs,
            st,
            id,
            class,
            recs.class_types@[class.class_type_id as int],
        ) == 1 {
            st.class_metadata
        } else {
            st.class_metadata.insert(class.class_type_id, id)
        }),
{
    let ct = recs.class_types@[class.class_type_id as int];
    let rt = class_record_type(recs, st, id, class, ct);
    let head = enc_class_header(recs, st, id, class);
    let s1 = if rt == 1 {
        SState { output: st.output + head, ..st }
    } else {
        SState { class_metadata: st.class_metadata.insert(class.class_type_id, id), output: st.output + head, ..st }
    };
    assert(sp_write_record(recs, st, id, Record::Class(class)) == sp_write_members(
        recs,
        s1,
        Some(id),
        class.members@,
        ct.member_types@,
        0,
    ));
    assert(members_view(class.members@).take(0) =~= Seq::<crate::records::MemberV>::empty());
    assert(s1.output =~= (st.output + head) + enc_members(
        members_view(class.members@).take(0),
        member_types_view(ct.member_types@),
    ));
    lemma_write_members_flat(recs, s1, Some(id), class.members@, ct.member_types@, 0, st.output + head);
    assert((st.output + head) + enc_members(members_view(class.members@), member_types_view(ct.member_types@))
        =~= st.output + (head + enc_members(members_view(class.members@), member_types_view(ct.member_types@))));
}

/// The writer writes an array of members, none of which it writes in place, as
/// its type byte, its header and its items.
pub proof fn lemma_binary_array_written(recs: DeserializedRecord, st: SState, id: i32, t: MemberType, vals: Vec<Member>)
    requires
        sp_write_record(recs, st, id, Record::BinaryArray(t, vals)) is Ok,
        forall|j: int| 0 <= j < vals.len() ==> !inlined(recs, Some(id), #[trigger] vals@[j]),
    ensures
        sp_write_record(recs, st, id, Record::BinaryArray(t, vals))->Ok_0.output == st.output + (seq![7u8]
            + enc_array_header(id, t@, vals@.len()) + enc_items(members_view(vals@), t@)),
        sp_write_record(recs, st, id, Record::BinaryArray(t, vals))->Ok_0.emitted == st.emitted,
        sp_write_record(recs, st, id, Record::BinaryArray(t, vals))->Ok_0.class_metadata == st.class_metadata,
{
    let head = seq![7u8] + enc_i32(id) + seq![0u8] + enc_i32(1) + enc_i32(vals.len() as i32) + seq![
        member_type_code(t@),
    ] + enc_member_type_info(t@);
    assert(head =~= seq![7u8] + enc_array_header(id, t@, vals@.len()));
    let s1 = SState { output: st.output + head, ..st };
    assert(type_mismatch(recs, id, 7) is None);
    assert(sp_write_record(recs, st, id, Record::BinaryArray(t, vals)) == sp_write_items(recs, s1, Some(id), vals@, t, 0));
    assert(members_view(vals@).take(0) =~= Seq::<crate::records::MemberV>::empty());
    assert(s1.output =~= (st.output + head) + enc_items(members_view(vals@).take(0), t@));
    lemma_write_items_flat(recs, s1, Some(id), vals@, t, 0, st.output + head);
    assert((st.output + head) + enc_items(members_view(vals@), t@) =~= st.output + (head + enc_items(
        members_view(vals@),
        t@,
    )));
}

/// A class record that the writer writes with its own class type and library
/// id, none of whose members it writes in place, reads back from the bytes the
/// writer appended: its type byte, then the record with its members, its class
/// type becoming the reader's next one.
pub proof fn law_class_record_roundtrip(
    recs: DeserializedRecord,
    st: SState,
    id: i32,
    class: Class,
    b: Seq<u8>,
    pos: int,
    s: PState,
)
    requires
        class.class_type_id < recs.class_types.len(),
        class_record_type(recs, st, id, class, recs.class_types@[class.class_type_id as int]) == 5,
        sp_write_record(recs, st, id, Record::Class(class)) is Ok,
        class_type_fits(recs.class_types@[class.class_type_id as int]),
        recs.class_types@[class.class_type_id as int].member_names.len()
            == recs.class_types@[class.class_type_id as int].member_types.len(),
        recs.class_types@[class.class_type_id as int].member_names.len() <= i32::MAX,
        class.members.len() == recs.class_types@[class.class_type_id as int].member_types.len(),
        forall|j: int|
            0 <= j < class.members.len() ==> !inlined(recs, Some(id), #[trigger] class.members@[j])
                && member_reads_back(
                class.members@[j]@,
                recs.class_types@[class.class_type_id as int]@.member_types[j],
            ),
        holds_at(
            b,
            pos,
            sp_write_record(recs, st, id, Record::Class(class))->Ok_0.output.subrange(
                st.output.len() as int,
                sp_write_record(recs, st, id, Record::Class(class))->Ok_0.output.len() as int,
            ),
        ),
    ensures
        sp_u8(b, pos) == Ok::<(u8, int), Seq<char>>((5u8, pos + 1)),
        sp_object(b, at(s, pos + 1), 5) == Ok::<(i32, PState), Seq<char>>(
            (
                id,
                with_record(
                    at(
                        with_class_type(
                            at(s, pos + 1),
                            id,
                            ClassTypeV { system_class: false, ..recs.class_types@[class.class_type_id as int]@ },
                        ),
                        pos + sp_write_record(recs, st, id, Record::Class(class))->Ok_0.output.len()
                            - st.output.len(),
                    ),
                    id,
                    RecordV::Class(
                        ClassV { class_type_id: s.class_types.len() as usize, members: members_view(class.members@) },
                    ),
                ),
            ),
        ),
{
    let ct = recs.class_types@[class.class_type_id as int];
    let out = sp_write_record(recs, st, id, Record::Class(class))->Ok_0.output;
    let mv = members_view(class.members@);
    let rest = enc_class_type(id, ct) + enc_i32(ct.library_id) + enc_members(mv, ct@.member_types);
    lemma_class_record_written(recs, st, id, class);
    assert(enc_class_header(recs, st, id, class) + enc_members(mv, ct@.member_types) =~= seq![5u8] + rest);
    assert(out.subrange(st.output.len() as int, out.len() as int) =~= seq![5u8] + rest);
    lemma_holds_split(b, pos, seq![5u8], rest);
    assert(b[pos] == 5u8) by {
        assert(b[pos] == b.subrange(pos, pos + 1)[0]);
    }
    assert forall|i: int| 0 <= i < mv.len() implies member_reads_back(#[trigger] mv[i], ct@.member_types[i]) by {
        assert(mv[i] == class.members@[i]@);
    }
    law_class_record_readback(b, at(s, pos + 1), id, ct, mv);
    lemma_le_bytes_len((ct.library_id as u32) as nat, 4);
    assert(rest.len() == enc_class_type(id, ct).len() + 4 + enc_members(mv, ct@.member_types).len());
}

/// An array of members that the writer writes, none of which it writes in
/// place, reads back from the bytes the writer appended: its type byte, then
/// the record with its item type and items.
pub proof fn law_binary_array_roundtrip(
    recs: DeserializedRecord,
    st: SState,
    id: i32,
    t: MemberType,
    vals: Vec<Member>,
    b: Seq<u8>,
    pos: int,
    s: PState,
)
    requires
        sp_write_record(recs, st, id, Record::BinaryArray(t, vals)) is Ok,
        member_type_fits(t@),
        vals.len() <= i32::MAX,
        forall|j: int|
            0 <= j < vals.len() ==> !inlined(recs, Some(id), #[trigger] vals@[j]) && member_reads_back(
                vals@[j]@,
                t@,
            ),
        holds_at(
            b,
            pos,
            sp_write_record(recs, st, id, Record::BinaryArray(t, vals))->Ok_0.output.subrange(
                st.output.len() as int,
                sp_write_record(recs, st, id, Record::BinaryArray(t, vals))->Ok_0.output.len() as int,
            ),
        ),
    ensures
        sp_u8(b, pos) == Ok::<(u8, int), Seq<char>>((7u8, pos + 1)),
        sp_object(b, at(s, pos + 1), 7) == Ok::<(i32, PState), Seq<char>>(
            (
                id,
                with_record(
                    at(
                        s,
                        pos + sp_write_record(recs, st, id, Record::BinaryArray(t, vals))->Ok_0.output.len()
                            - st.output.len(),
                    ),
                    id,
                    RecordV::BinaryArray(t@, members_view(vals@)),
                ),
            ),
        ),
{
    let out = sp_write_record(recs, st, id, Record::BinaryArray(t, vals))->Ok_0.output;
    let mv = members_view(vals@);
    let rest = enc_array_header(id, t@, vals@.len()) + enc_items(mv, t@);
    lemma_binary_array_written(recs, st, id, t, vals);
    assert(seq![7u8] + enc_array_header(id, t@, vals@.len()) + enc_items(mv, t@) =~= seq![7u8] + rest);
    assert(out.subrange(st.output.len() as int, out.len() as int) =~= seq![7u8] + rest);
    lemma_holds_split(b, pos, seq![7u8], rest);
    assert(b[pos] == 7u8) by {
        assert(b[pos] == b.subrange(pos, pos + 1)[0]);
    }
    assert forall|i: int| 0 <= i < mv.len() implies member_reads_back(#[trigger] mv[i], t@) by {
        assert(mv[i] == vals@[i]@);
    }
    law_binary_array_readback(b, at(s, pos + 1), id, t@, mv);
    assert(at(at(s, pos + 1), pos + 1 + rest.len()) == at(s, pos + 1 + rest.len()));
}

} // verus!
