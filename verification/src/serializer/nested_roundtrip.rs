//! A record graph whose layout metadata places some records inside others
//! reads back from the bytes the writer writes for it, when each record written
//! in place of a member is written in exactly one place.
use crate::bytes::lemma_le_bytes_len;
use crate::parser::{
    at, capture, initial_state, is_object_code, lemma_items_acc_done, lemma_items_acc_step, lemma_members_acc_done,
    lemma_members_acc_step, sp_cmt_header, sp_cwid_header, sp_items_acc, sp_member, sp_members_acc, sp_object,
    sp_parse, sp_record, sp_records, sp_u8, with_record, PState,
};
use crate::records::{
    member_types_view, members_view, primitive_type_of, primitives_view, Class, ClassType, ClassTypeV, ClassV,
    DeserializedRecord, Member, MemberType, MemberV, Record, RecordV,
};
use crate::serializer::class_readback::{
    enc_array_header, law_class_type_readback, law_member_readback, lemma_array_header_readback, member_reads_back,
};
use crate::serializer::encoding::{
    enc_class_type, enc_i32, enc_member, enc_member_type_info, enc_string, member_type_code, primitive_type_code,
    string_fits,
};
use crate::serializer::readback::{
    holds_at, law_library_record_readback, law_primitive_array_readback, law_string_record_readback,
    lemma_holds_split, lemma_i32_readback, primitive_reads_back,
};
use crate::serializer::record_roundtrip::{enc_class_header, lemma_write_member_flat};
use crate::serializer::stream_roundtrip::{
    enc_record, graph_reads_back, lemma_add_todos_keeps, lemma_holds_from_prefix, lemma_prefix_push,
    lemma_prefix_refl, lemma_records_step, lemma_type_byte, record_reads_back,
};
use crate::serializer::order::{key_lt, lemma_sorted_ids_exist, sorted_ids};
use crate::serializer::{
    add_todo, add_todos, class_record_type, enc_header, enc_primitives, initial_sstate, is_nested,
    law_serialized_output_framed, lemma_drain_done, lemma_drain_err, lemma_drain_extends, lemma_drain_step,
    lemma_items_done, lemma_items_err, lemma_items_extends, lemma_items_step, lemma_members_done, lemma_members_err,
    lemma_members_extends, lemma_members_step, lemma_prefix_append, lemma_prefix_trans, lemma_record_by_id_extends,
    lemma_write_ids_done, lemma_write_ids_err, lemma_write_ids_extends, lemma_write_ids_step, library_ids,
    queue_measure, should_inline, span, sp_drain, sp_serialize, sp_write_ids, sp_write_items, sp_write_member,
    sp_write_members, sp_write_record, sp_write_record_by_id, top_level, top_level_order, SState,
};
use vstd::prelude::*;

verus! {

/// Whether member `k` of record `p` (a class member or an array item) is `m`.
pub open spec fn member_of(recs: DeserializedRecord, p: i32, k: int, m: Member) -> bool {
    &&& recs.records@.contains_key(p)
    &&& match recs.records@[p] {
        Record::Class(c) => 0 <= k < c.members.len() && c.members@[k] == m,
        Record::BinaryArray(_, vals) => 0 <= k < vals.len() && vals@[k] == m,
        _ => false,
    }
}

/// Whether record `c` is written in place of member `k` of record `p`: the
/// member refers to it, and its recorded bytes lay inside `p`'s.
pub open spec fn written_in(recs: DeserializedRecord, c: i32, p: i32, k: int) -> bool {
    member_of(recs, p, k, Member::Reference(c)) && should_inline(recs, Some(p), c)
}

/// Whether record `c` is written in place of some member.
pub open spec fn written_inside(recs: DeserializedRecord, c: i32) -> bool {
    exists|p: i32, k: int| #[trigger] written_in(recs, c, p, k)
}

/// Whether the layout metadata can be written back: a record is written in
/// place of at most one member; such a record is a class, string or array; and
/// a record that holds one is itself written in place, or among the records
/// written first.
pub open spec fn layout_writable(recs: DeserializedRecord) -> bool {
    &&& forall|c: i32, p1: i32, k1: int, p2: i32, k2: int|
        #![trigger written_in(recs, c, p1, k1), written_in(recs, c, p2, k2)]
        written_in(recs, c, p1, k1) && written_in(recs, c, p2, k2) ==> p1 == p2 && k1 == k2
    &&& forall|c: i32, p: i32, k: int| #[trigger]
        written_in(recs, c, p, k) ==> recs.records@.contains_key(c) && !(recs.records@[c] is BinaryLibrary)
    &&& forall|c: i32, p: i32, k: int| #[trigger]
        written_in(recs, c, p, k) ==> top_level_order(recs).contains(p) || written_inside(recs, p)
}

/// The class type that class type `ct` reads back as, under the record type
/// it was written with: itself, marked as a system class or not, of library 0
/// when marked as one.
pub open spec fn class_type_read_like(v: ClassTypeV, ct: ClassType) -> bool {
    v == ClassTypeV { system_class: v.system_class, library_id: if v.system_class { 0 } else { ct.library_id }, ..ct@ }
}

/// Whether `v`, with the class types `cts` read along with it, is what record
/// `r` reads back as: itself, but that a class record names the class type it
/// was read with, which is its own as `class_type_read_like` says.
pub open spec fn record_read_like(recs: DeserializedRecord, v: RecordV, cts: Seq<ClassTypeV>, r: Record) -> bool {
    match r {
        Record::Class(c) => match v {
            RecordV::Class(cv) => {
                &&& cv.members == members_view(c.members@)
                &&& cv.class_type_id < cts.len()
                &&& class_type_read_like(cts[cv.class_type_id as int], recs.class_types@[c.class_type_id as int])
            },
            _ => false,
        },
        _ => v == r@,
    }
}

/// Whether record `rid`, which wrote class type `ctid` out, defines in the
/// reader's state a class type that `ctid` reads back as.
pub open spec fn class_defined_like(recs: DeserializedRecord, r: PState, ctid: usize, rid: i32) -> bool {
    &&& ctid < recs.class_types.len()
    &&& r.class_metadata.contains_key(rid)
    &&& r.class_metadata[rid] < r.class_types.len()
    &&& class_type_read_like(r.class_types[r.class_metadata[rid] as int], recs.class_types@[ctid as int])
}

/// How the reader's state stands to the writer's once both have gone through
/// the same bytes, while the records `open` are being written and read: at the
/// same position, holding the records the writer finished, each read as it was
/// written; each class type written out is defined in the reader by the record
/// that wrote it, which is finished or open; no more class types than bytes.
pub open spec fn in_layout_step(recs: DeserializedRecord, w: SState, r: PState, open: Set<i32>) -> bool {
    &&& r.pos == w.output.len()
    &&& r.class_types.len() <= r.pos
    &&& r.records.dom() == w.emitted
    &&& w.emitted.subset_of(recs.records@.dom())
    &&& r.class_metadata.dom().subset_of(w.emitted.union(open))
    &&& forall|ctid: usize| #[trigger]
        w.class_metadata.contains_key(ctid) ==> class_defined_like(recs, r, ctid, w.class_metadata[ctid])
    &&& forall|id: i32| #[trigger]
        w.emitted.contains(id) ==> record_read_like(recs, r.records[id], r.class_types, recs.records@[id])
}

/// A record written in place is written only once the record holding it is
/// finished or open.
pub open spec fn held_after(recs: DeserializedRecord, done: Set<i32>, open: Set<i32>) -> bool {
    forall|c: i32, p: i32, k: int| #[trigger]
        written_in(recs, c, p, k) && done.contains(c) ==> done.contains(p) || open.contains(p)
}

/// A finished record's records written in place are finished.
pub open spec fn holds_done(recs: DeserializedRecord, done: Set<i32>) -> bool {
    forall|c: i32, p: i32, k: int| #[trigger] written_in(recs, c, p, k) && done.contains(p) ==> done.contains(c)
}

/// Whether each record of `new` is `id` or written in place in a record of
/// `new`, reaches no further than `id`, and has its records written in place
/// finished in `done`.
pub open spec fn grown_from(recs: DeserializedRecord, new: Set<i32>, id: i32, done: Set<i32>) -> bool {
    &&& forall|y: i32| #[trigger]
        new.contains(y) ==> y == id || exists|p: i32, k: int| #[trigger] written_in(recs, y, p, k) && new.contains(p)
    &&& forall|y: i32| #[trigger] new.contains(y) ==> span(recs, y) <= span(recs, id)
    &&& forall|c: i32, p: i32, k: int| #[trigger] written_in(recs, c, p, k) && new.contains(p) ==> done.contains(c)
}

/// A record written in place lies inside another record.
pub proof fn lemma_written_in_nested(recs: DeserializedRecord, c: i32, p: i32, k: int)
    requires
        written_in(recs, c, p, k),
    ensures
        is_nested(recs, c),
        span(recs, c) < span(recs, p),
{
    assert(recs.record_metadata@.contains_key(p));
}

/// The records written first lie inside no other record.
pub proof fn lemma_top_level_not_nested(recs: DeserializedRecord, ids: Seq<i32>, x: i32)
    requires
        top_level(recs, ids).contains(x),
    ensures
        !is_nested(recs, x),
    decreases ids.len(),
{
    if ids.len() > 0 {
        let rest = top_level(recs, ids.drop_last());
        if is_nested(recs, ids.last()) {
            lemma_top_level_not_nested(recs, ids.drop_last(), x);
        } else {
            let k = choose|k: int| 0 <= k < top_level(recs, ids).len() && top_level(recs, ids)[k] == x;
            if k < rest.len() {
                assert(rest[k] == x);
                lemma_top_level_not_nested(recs, ids.drop_last(), x);
            }
        }
    }
}

/// Whether each record of `new` is written in place of a member of `parent`
/// or in a record of `new`, reaches less far than `parent`, and has its records
/// written in place finished in `done`.
pub open spec fn grown_under(recs: DeserializedRecord, new: Set<i32>, parent: i32, done: Set<i32>) -> bool {
    &&& forall|y: i32| #[trigger]
        new.contains(y) ==> (exists|k: int| #[trigger] written_in(recs, y, parent, k)) || exists|p: i32, k: int|
            #[trigger] written_in(recs, y, p, k) && new.contains(p)
    &&& forall|y: i32| #[trigger] new.contains(y) ==> span(recs, y) < span(recs, parent)
    &&& forall|c: i32, p: i32, k: int| #[trigger] written_in(recs, c, p, k) && new.contains(p) ==> done.contains(c)
}

pub proof fn lemma_prefix_trans_ct(a: Seq<ClassTypeV>, b: Seq<ClassTypeV>, c: Seq<ClassTypeV>)
    requires
        a.is_prefix_of(b),
        b.is_prefix_of(c),
    ensures
        a.is_prefix_of(c),
{
    assert(c.subrange(0, a.len() as int) =~= a) by {
        assert forall|i: int| 0 <= i < a.len() implies c.subrange(0, a.len() as int)[i] == a[i] by {
            assert(b.subrange(0, a.len() as int)[i] == a[i]);
            assert(c.subrange(0, b.len() as int)[i] == b[i]);
        }
    }
}

/// Writing a member in place of `parent`'s member `i`, then the later members,
/// grows the finished records by that member's record and what lay in it.
proof fn lemma_grown_members(recs: DeserializedRecord, w: SState, w1: SState, fin: SState, parent: i32, cid: i32, i: int)
    requires
        layout_writable(recs),
        w.emitted.subset_of(w1.emitted),
        w1.emitted.subset_of(fin.emitted),
        written_in(recs, cid, parent, i),
        grown_from(recs, w1.emitted.difference(w.emitted), cid, w1.emitted),
        grown_under(recs, fin.emitted.difference(w1.emitted), parent, fin.emitted),
    ensures
        grown_under(recs, fin.emitted.difference(w.emitted), parent, fin.emitted),
{
    lemma_written_in_nested(recs, cid, parent, i);
    let n1 = w1.emitted.difference(w.emitted);
    let n2 = fin.emitted.difference(w1.emitted);
    let n = fin.emitted.difference(w.emitted);
    assert forall|y: i32| #[trigger] n.contains(y) implies (exists|k: int| #[trigger] written_in(recs, y, parent, k))
        || exists|p: i32, k: int| #[trigger] written_in(recs, y, p, k) && n.contains(p) by {
        if n1.contains(y) {
            if y == cid {
                assert(written_in(recs, y, parent, i));
            } else {
                let (p, k) = choose|p: i32, k: int| #[trigger] written_in(recs, y, p, k) && n1.contains(p);
                assert(n.contains(p));
            }
        } else {
            assert(n2.contains(y));
            if !(exists|k: int| #[trigger] written_in(recs, y, parent, k)) {
                let (p, k) = choose|p: i32, k: int| #[trigger] written_in(recs, y, p, k) && n2.contains(p);
                assert(n.contains(p));
            }
        }
    }
    assert forall|y: i32| #[trigger] n.contains(y) implies span(recs, y) < span(recs, parent) by {
        if n1.contains(y) {
        } else {
            assert(n2.contains(y));
        }
    }
    assert forall|c: i32, p: i32, k: int| #[trigger] written_in(recs, c, p, k) && n.contains(p) implies fin.emitted.contains(c) by {
        if n1.contains(p) {
            assert(w1.emitted.contains(c));
        } else {
            assert(n2.contains(p));
        }
    }
}

/// Finishing record `id` after its body keeps the two states in step.
proof fn lemma_finish_record(recs: DeserializedRecord, wb: SState, rb: PState, id: i32, v: RecordV, rt: u8, start: int, open: Set<i32>)
    requires
        in_layout_step(recs, wb, rb, open.insert(id)),
        !wb.emitted.contains(id),
        recs.records@.contains_key(id),
        record_read_like(recs, v, rb.class_types, recs.records@[id]),
    ensures
        in_layout_step(
            recs,
            SState { emitted: wb.emitted.insert(id), done: wb.done.insert(id), ..wb },
            capture(with_record(rb, id, v), id, rt, start),
            open,
        ),
{
    let w2 = SState { emitted: wb.emitted.insert(id), done: wb.done.insert(id), ..wb };
    let r2 = capture(with_record(rb, id, v), id, rt, start);
    assert(r2.records.dom() =~= w2.emitted);
    assert(r2.class_metadata.dom().subset_of(w2.emitted.union(open)));
    assert forall|x: i32| #[trigger] w2.emitted.contains(x) implies record_read_like(recs, r2.records[x], r2.class_types, recs.records@[x]) by {
        if x != id {
            assert(wb.emitted.contains(x));
        }
    }
}

/// Finishing record `id` keeps each record written in place after its holder.
proof fn lemma_finish_held(recs: DeserializedRecord, done: Set<i32>, id: i32, open: Set<i32>)
    requires
        held_after(recs, done, open.insert(id)),
        forall|p: i32, k: int| #[trigger] written_in(recs, id, p, k) ==> open.contains(p) || done.contains(p),
    ensures
        held_after(recs, done.insert(id), open),
{
}

/// The records finished while writing record `id` are `id` and what lay in it.
proof fn lemma_grown_record(recs: DeserializedRecord, w: SState, wb: SState, id: i32)
    requires
        w.emitted.subset_of(wb.emitted),
        !wb.emitted.contains(id),
        grown_under(recs, wb.emitted.difference(w.emitted), id, wb.emitted),
        forall|c: i32, k: int| #[trigger] written_in(recs, c, id, k) ==> wb.emitted.contains(c),
    ensures
        grown_from(recs, wb.emitted.insert(id).difference(w.emitted), id, wb.emitted.insert(id)),
{
    let nb = wb.emitted.difference(w.emitted);
    let n = wb.emitted.insert(id).difference(w.emitted);
    assert forall|y: i32| #[trigger] n.contains(y) implies y == id || exists|p: i32, k: int| #[trigger] written_in(recs, y, p, k) && n.contains(p) by {
        if y != id {
            assert(nb.contains(y));
            if exists|k: int| #[trigger] written_in(recs, y, id, k) {
                let k = choose|k: int| #[trigger] written_in(recs, y, id, k);
                assert(n.contains(id));
            } else {
                let (p, k) = choose|p: i32, k: int| #[trigger] written_in(recs, y, p, k) && nb.contains(p);
                assert(n.contains(p));
            }
        }
    }
    assert forall|y: i32| #[trigger] n.contains(y) implies span(recs, y) <= span(recs, id) by {
        if y != id {
            assert(nb.contains(y));
        }
    }
    assert forall|c: i32, p: i32, k: int| #[trigger] written_in(recs, c, p, k) && n.contains(p) implies wb.emitted.insert(id).contains(c) by {
        if p != id {
            assert(nb.contains(p));
        }
    }
}

/// Reading a class record's header defines its class type as the next one.
proof fn lemma_header_defines(
    recs: DeserializedRecord,
    w: SState,
    r: PState,
    w1: SState,
    r1: PState,
    id: i32,
    ctid: usize,
    open: Set<i32>,
)
    requires
        in_layout_step(recs, w, r, open),
        !w.emitted.contains(id),
        !open.contains(id),
        w1.emitted == w.emitted,
        r1.records == r.records,
        r1.pos == w1.output.len(),
        r1.class_types.len() <= r1.pos,
        r.class_types.is_prefix_of(r1.class_types),
        r1.class_metadata == r.class_metadata.insert(id, r1.class_metadata[id]),
        w1.class_metadata == w.class_metadata.insert(ctid, id),
        class_defined_like(recs, r1, ctid, id),
    ensures
        in_layout_step(recs, w1, r1, open.insert(id)),
{
    assert forall|k: int| 0 <= k < r.class_types.len() implies r1.class_types[k] == r.class_types[k] by {
        assert(r1.class_types.subrange(0, r.class_types.len() as int)[k] == r1.class_types[k]);
    }
    assert forall|c: usize| #[trigger] w1.class_metadata.contains_key(c) implies class_defined_like(recs, r1, c, w1.class_metadata[c]) by {
        if c != ctid {
            assert(class_defined_like(recs, r, c, w.class_metadata[c]));
            assert(w.class_metadata[c] != id);
        }
    }
    assert forall|x: i32| #[trigger] w1.emitted.contains(x) implies record_read_like(recs, r1.records[x], r1.class_types, recs.records@[x]) by {
        assert(record_read_like(recs, r.records[x], r.class_types, recs.records@[x]));
    }
}

/// The type byte the writer gives record `id` from state `st`.
pub open spec fn type_byte(recs: DeserializedRecord, st: SState, id: i32) -> u8 {
    match recs.records@[id] {
        Record::BinaryLibrary(_) => 12,
        Record::String(_) => 6,
        Record::PrimitiveArray(..) => 15,
        Record::BinaryArray(..) => 7,
        Record::Class(c) => class_record_type(recs, st, id, c, recs.class_types@[c.class_type_id as int]),
    }
}

/// The writer's state after it writes record `id` from state `st`.
pub open spec fn after_write(recs: DeserializedRecord, st: SState, id: i32) -> SState {
    sp_write_record_by_id(recs, st, id)->Ok_0
}

/// Moving both states over the same bytes, which hold no record, keeps them in
/// step, with as many records open or more.
proof fn lemma_step_moved(recs: DeserializedRecord, w: SState, r: PState, open: Set<i32>, bytes: Seq<u8>, open2: Set<i32>)
    requires
        in_layout_step(recs, w, r, open),
        open.subset_of(open2),
    ensures
        in_layout_step(recs, SState { output: w.output + bytes, ..w }, at(r, r.pos + bytes.len()), open2),
{
}

/// Writing the members of class record `parent` from member `i` on, and
/// reading them, keep the two states in step.
#[verifier::rlimit(100)]
proof fn lemma_members_nested(
    recs: DeserializedRecord,
    w: SState,
    parent: i32,
    ms: Seq<Member>,
    ts: Seq<MemberType>,
    i: int,
    r: PState,
    acc: Seq<MemberV>,
    b: Seq<u8>,
    open: Set<i32>,
) -> (r2: PState)
    requires
        graph_reads_back(recs),
        layout_writable(recs),
        recs.records@.contains_key(parent),
        recs.records@[parent] is Class,
        ms == recs.records@[parent]->Class_0.members@,
        ts == recs.class_types@[recs.records@[parent]->Class_0.class_type_id as int].member_types@,
        0 <= i <= ms.len(),
        !w.emitted.contains(parent),
        open.contains(parent),
        forall|a: i32| #[trigger] open.contains(a) && a != parent ==> span(recs, a) > span(recs, parent),
        in_layout_step(recs, w, r, open),
        held_after(recs, w.emitted, open),
        forall|c: i32, k: int| #[trigger] written_in(recs, c, parent, k) && k >= i ==> !w.emitted.contains(c),
        b.len() <= usize::MAX,
        sp_write_members(recs, w, Some(parent), ms, ts, i) is Ok,
        sp_write_members(recs, w, Some(parent), ms, ts, i)->Ok_0.output.is_prefix_of(b),
    ensures
        sp_members_acc(b, r, member_types_view(ts), i, acc) == Ok::<(Seq<MemberV>, PState), Seq<char>>(
            (acc + members_view(ms).subrange(i, ms.len() as int), r2),
        ),
        in_layout_step(recs, sp_write_members(recs, w, Some(parent), ms, ts, i)->Ok_0, r2, open),
        held_after(recs, sp_write_members(recs, w, Some(parent), ms, ts, i)->Ok_0.emitted, open),
        w.emitted.subset_of(sp_write_members(recs, w, Some(parent), ms, ts, i)->Ok_0.emitted),
        !sp_write_members(recs, w, Some(parent), ms, ts, i)->Ok_0.emitted.contains(parent),
        forall|c: i32, k: int| #[trigger]
            written_in(recs, c, parent, k) && k >= i ==> sp_write_members(recs, w, Some(parent), ms, ts, i)->Ok_0.emitted.contains(c),
        grown_under(
            recs,
            sp_write_members(recs, w, Some(parent), ms, ts, i)->Ok_0.emitted.difference(w.emitted),
            parent,
            sp_write_members(recs, w, Some(parent), ms, ts, i)->Ok_0.emitted,
        ),
        r.class_types.is_prefix_of(r2.class_types),
    decreases span(recs, parent), 0nat, (ms.len() - i + 1) as nat,
{
    let mv = members_view(ms);
    let tv = member_types_view(ts);
    let c = recs.records@[parent]->Class_0;
    let ct = recs.class_types@[c.class_type_id as int];
    assert(record_reads_back(recs, recs.records@[parent]));
    if i >= ms.len() {
        lemma_members_done(recs, w, Some(parent), ms, ts, i);
        lemma_members_acc_done(b, r, tv, i, acc);
        assert(mv.subrange(i, ms.len() as int) =~= Seq::<MemberV>::empty());
        assert(acc + Seq::<MemberV>::empty() =~= acc);
        assert(w.emitted.difference(w.emitted) =~= Set::<i32>::empty());
        lemma_prefix_refl(r.class_types);
        r
    } else {
        let m = ms[i];
        let t = ts[i];
        assert(member_of(recs, parent, i, m));
        assert(member_reads_back(m@, ct@.member_types[i]));
        assert(ct@.member_types[i] == t@);
        let inline = m matches Member::Reference(cid) && should_inline(recs, Some(parent), cid);
        let res = sp_write_member(recs, w, Some(parent), m, t);
        if let Err(e) = res {
            lemma_members_err(recs, w, Some(parent), ms, ts, i, e);
            r
        } else {
            let w1 = res->Ok_0;
            lemma_members_step(recs, w, Some(parent), ms, ts, i, w1);
            let fin = sp_write_members(recs, w1, Some(parent), ms, ts, i + 1)->Ok_0;
            lemma_members_extends(recs, w1, Some(parent), ms, ts, i + 1);
            lemma_prefix_trans(w1.output, fin.output, b);
            if inline {
                let cid = m->Reference_0;
                assert(written_in(recs, cid, parent, i));
                lemma_written_in_nested(recs, cid, parent, i);
                assert(!(t is Primitive)) by {
                    reveal(sp_write_member);
                }
                assert(sp_write_member(recs, w, Some(parent), m, t) == sp_write_record_by_id(recs, w, cid)) by {
                    reveal(sp_write_member);
                }
                assert forall|a: i32| #[trigger] open.contains(a) implies span(recs, a) > span(recs, cid) by {
                    if a != parent {
                    }
                }
                assert forall|p: i32, k: int| #[trigger] written_in(recs, cid, p, k) implies open.contains(p)
                    || w.emitted.contains(p) by {
                    assert(p == parent);
                }
                let r1 = lemma_record_nested(recs, w, cid, r, b, open);
                assert(sp_member(b, r, t@) == Ok::<(MemberV, PState), Seq<char>>((m@, r1))) by {
                    reveal(sp_member);
                    reveal(sp_object);
                    reveal(sp_record);
                }
                lemma_members_acc_step(b, r, tv, i, acc, m@, r1);
                let new1 = w1.emitted.difference(w.emitted);
                assert forall|x: i32, k: int| #[trigger]
                    written_in(recs, x, parent, k) && k >= i + 1 implies !w1.emitted.contains(x) by {
                    if w1.emitted.contains(x) {
                        assert(!w.emitted.contains(x));
                        assert(new1.contains(x));
                        if x == cid {
                            assert(written_in(recs, cid, parent, i));
                        } else {
                            let (p, j) = choose|p: i32, j: int| #[trigger] written_in(recs, x, p, j) && new1.contains(p);
                            assert(p == parent);
                            assert(span(recs, parent) <= span(recs, cid));
                        }
                    }
                }
                assert(!w1.emitted.contains(parent)) by {
                    if w1.emitted.contains(parent) {
                        assert(new1.contains(parent));
                    }
                }
                let r2 = lemma_members_nested(recs, w1, parent, ms, ts, i + 1, r1, acc.push(m@), b, open);
                assert(acc.push(m@) + mv.subrange(i + 1, ms.len() as int) =~= acc + mv.subrange(i, ms.len() as int));
                lemma_grown_members(recs, w, w1, fin, parent, cid, i);
                lemma_prefix_trans_ct(r.class_types, r1.class_types, r2.class_types);
                assert forall|x: i32, k: int| #[trigger] written_in(recs, x, parent, k) && k >= i implies fin.emitted.contains(x) by {
                    if k == i {
                        assert(member_of(recs, parent, i, Member::Reference(x)));
                        assert(x == cid);
                    }
                }
                r2
            } else {
                lemma_write_member_flat(recs, w, Some(parent), m, t);
                let e = enc_member(m@, t@);
                assert(w1.output.subrange(w.output.len() as int, w1.output.len() as int) =~= e);
                lemma_prefix_trans(w1.output, fin.output, b);
                lemma_holds_from_prefix(b, w1.output, r.pos, e);
                law_member_readback(b, r, m@, t@);
                let r1 = at(r, r.pos + e.len());
                lemma_members_acc_step(b, r, tv, i, acc, m@, r1);
                lemma_step_moved(recs, w, r, open, e, open);
                assert(in_layout_step(recs, w1, r1, open));
                assert forall|x: i32, k: int| #[trigger] written_in(recs, x, parent, k) && k >= i + 1 implies !w1.emitted.contains(x) by {
                }
                let r2 = lemma_members_nested(recs, w1, parent, ms, ts, i + 1, r1, acc.push(m@), b, open);
                assert(acc.push(m@) + mv.subrange(i + 1, ms.len() as int) =~= acc + mv.subrange(i, ms.len() as int));
                assert(fin.emitted.difference(w.emitted) == fin.emitted.difference(w1.emitted));
                assert forall|x: i32, k: int| #[trigger] written_in(recs, x, parent, k) && k >= i implies fin.emitted.contains(x) by {
                    if k == i {
                        assert(member_of(recs, parent, i, Member::Reference(x)));
                    }
                }
                r2
            }
        }
    }
}

/// Writing the items of array record `parent` from item `i` on, and reading
/// them, keep the two states in step.
#[verifier::rlimit(100)]
proof fn lemma_items_nested(
    recs: DeserializedRecord,
    w: SState,
    parent: i32,
    vals: Seq<Member>,
    t: MemberType,
    i: int,
    r: PState,
    acc: Seq<MemberV>,
    b: Seq<u8>,
    open: Set<i32>,
) -> (r2: PState)
    requires
        graph_reads_back(recs),
        layout_writable(recs),
        recs.records@.contains_key(parent),
        recs.records@[parent] is BinaryArray,
        vals == recs.records@[parent]->BinaryArray_1@,
        t == recs.records@[parent]->BinaryArray_0,
        0 <= i <= vals.len(),
        !w.emitted.contains(parent),
        open.contains(parent),
        forall|a: i32| #[trigger] open.contains(a) && a != parent ==> span(recs, a) > span(recs, parent),
        in_layout_step(recs, w, r, open),
        held_after(recs, w.emitted, open),
        forall|c: i32, k: int| #[trigger] written_in(recs, c, parent, k) && k >= i ==> !w.emitted.contains(c),
        b.len() <= usize::MAX,
        sp_write_items(recs, w, Some(parent), vals, t, i) is Ok,
        sp_write_items(recs, w, Some(parent), vals, t, i)->Ok_0.output.is_prefix_of(b),
    ensures
        sp_items_acc(b, r, t@, (vals.len() - i) as nat, acc) == Ok::<(Seq<MemberV>, PState), Seq<char>>(
            (acc + members_view(vals).subrange(i, vals.len() as int), r2),
        ),
        in_layout_step(recs, sp_write_items(recs, w, Some(parent), vals, t, i)->Ok_0, r2, open),
        held_after(recs, sp_write_items(recs, w, Some(parent), vals, t, i)->Ok_0.emitted, open),
        w.emitted.subset_of(sp_write_items(recs, w, Some(parent), vals, t, i)->Ok_0.emitted),
        !sp_write_items(recs, w, Some(parent), vals, t, i)->Ok_0.emitted.contains(parent),
        forall|c: i32, k: int| #[trigger]
            written_in(recs, c, parent, k) && k >= i ==> sp_write_items(recs, w, Some(parent), vals, t, i)->Ok_0.emitted.contains(c),
        grown_under(
            recs,
            sp_write_items(recs, w, Some(parent), vals, t, i)->Ok_0.emitted.difference(w.emitted),
            parent,
            sp_write_items(recs, w, Some(parent), vals, t, i)->Ok_0.emitted,
        ),
        r.class_types.is_prefix_of(r2.class_types),
    decreases span(recs, parent), 0nat, (vals.len() - i + 1) as nat,
{
    let mv = members_view(vals);
    assert(record_reads_back(recs, recs.records@[parent]));
    if i >= vals.len() {
        lemma_items_done(recs, w, Some(parent), vals, t, i);
        lemma_items_acc_done(b, r, t@, acc);
        assert(mv.subrange(i, vals.len() as int) =~= Seq::<MemberV>::empty());
        assert(acc + Seq::<MemberV>::empty() =~= acc);
        assert(w.emitted.difference(w.emitted) =~= Set::<i32>::empty());
        lemma_prefix_refl(r.class_types);
        r
    } else {
        let m = vals[i];
        assert(member_of(recs, parent, i, m));
        assert(member_reads_back(m@, t@));
        let inline = m matches Member::Reference(cid) && should_inline(recs, Some(parent), cid);
        let res = sp_write_member(recs, w, Some(parent), m, t);
        if let Err(e) = res {
            lemma_items_err(recs, w, Some(parent), vals, t, i, e);
            r
        } else {
            let w1 = res->Ok_0;
            lemma_items_step(recs, w, Some(parent), vals, t, i, w1);
            let fin = sp_write_items(recs, w1, Some(parent), vals, t, i + 1)->Ok_0;
            lemma_items_extends(recs, w1, Some(parent), vals, t, i + 1);
            lemma_prefix_trans(w1.output, fin.output, b);
            if inline {
                let cid = m->Reference_0;
                assert(written_in(recs, cid, parent, i));
                lemma_written_in_nested(recs, cid, parent, i);
                assert(!(t is Primitive)) by {
                    reveal(sp_write_member);
                }
                assert(sp_write_member(recs, w, Some(parent), m, t) == sp_write_record_by_id(recs, w, cid)) by {
                    reveal(sp_write_member);
                }
                assert forall|a: i32| #[trigger] open.contains(a) implies span(recs, a) > span(recs, cid) by {
                    if a != parent {
                    }
                }
                assert forall|p: i32, k: int| #[trigger] written_in(recs, cid, p, k) implies open.contains(p)
                    || w.emitted.contains(p) by {
                    assert(p == parent);
                }
                let r1 = lemma_record_nested(recs, w, cid, r, b, open);
                assert(sp_member(b, r, t@) == Ok::<(MemberV, PState), Seq<char>>((m@, r1))) by {
                    reveal(sp_member);
                    reveal(sp_object);
                    reveal(sp_record);
                }
                lemma_items_acc_step(b, r, t@, (vals.len() - i) as nat, acc, m@, r1);
                let new1 = w1.emitted.difference(w.emitted);
                assert forall|x: i32, k: int| #[trigger]
                    written_in(recs, x, parent, k) && k >= i + 1 implies !w1.emitted.contains(x) by {
                    if w1.emitted.contains(x) {
                        assert(!w.emitted.contains(x));
                        assert(new1.contains(x));
                        if x == cid {
                            assert(written_in(recs, cid, parent, i));
                        } else {
                            let (p, j) = choose|p: i32, j: int| #[trigger] written_in(recs, x, p, j) && new1.contains(p);
                            assert(p == parent);
                            assert(span(recs, parent) <= span(recs, cid));
                        }
                    }
                }
                assert(!w1.emitted.contains(parent)) by {
                    if w1.emitted.contains(parent) {
                        assert(new1.contains(parent));
                    }
                }
                let r2 = lemma_items_nested(recs, w1, parent, vals, t, i + 1, r1, acc.push(m@), b, open);
                assert((vals.len() - i - 1) as nat == (vals.len() - (i + 1)) as nat);
                assert(acc.push(m@) + mv.subrange(i + 1, vals.len() as int) =~= acc + mv.subrange(i, vals.len() as int));
                lemma_grown_members(recs, w, w1, fin, parent, cid, i);
                lemma_prefix_trans_ct(r.class_types, r1.class_types, r2.class_types);
                assert forall|x: i32, k: int| #[trigger] written_in(recs, x, parent, k) && k >= i implies fin.emitted.contains(x) by {
                    if k == i {
                        assert(member_of(recs, parent, i, Member::Reference(x)));
                        assert(x == cid);
                    }
                }
                r2
            } else {
                lemma_write_member_flat(recs, w, Some(parent), m, t);
                let e = enc_member(m@, t@);
                assert(w1.output.subrange(w.output.len() as int, w1.output.len() as int) =~= e);
                lemma_holds_from_prefix(b, w1.output, r.pos, e);
                law_member_readback(b, r, m@, t@);
                let r1 = at(r, r.pos + e.len());
                lemma_items_acc_step(b, r, t@, (vals.len() - i) as nat, acc, m@, r1);
                lemma_step_moved(recs, w, r, open, e, open);
                assert(in_layout_step(recs, w1, r1, open));
                assert forall|x: i32, k: int| #[trigger] written_in(recs, x, parent, k) && k >= i + 1 implies !w1.emitted.contains(x) by {
                }
                let r2 = lemma_items_nested(recs, w1, parent, vals, t, i + 1, r1, acc.push(m@), b, open);
                assert(acc.push(m@) + mv.subrange(i + 1, vals.len() as int) =~= acc + mv.subrange(i, vals.len() as int));
                assert(fin.emitted.difference(w.emitted) == fin.emitted.difference(w1.emitted));
                assert forall|x: i32, k: int| #[trigger] written_in(recs, x, parent, k) && k >= i implies fin.emitted.contains(x) by {
                    if k == i {
                        assert(member_of(recs, parent, i, Member::Reference(x)));
                    }
                }
                r2
            }
        }
    }
}

/// What holds once record `id` is written from `w` and read from `r`, the
/// reader standing at `r2`.
pub open spec fn record_stepped(recs: DeserializedRecord, w: SState, id: i32, r: PState, b: Seq<u8>, open: Set<i32>, r2: PState) -> bool {
    &&& sp_u8(b, r.pos) == Ok::<(u8, int), Seq<char>>((type_byte(recs, w, id), r.pos + 1))
    &&& sp_record(b, at(r, r.pos + 1), type_byte(recs, w, id)) matches Ok((rid, s2)) && rid == id && r2 == capture(
        s2,
        id,
        type_byte(recs, w, id),
        r.pos,
    )
    &&& (!(recs.records@[id] is BinaryLibrary) ==> is_object_code(type_byte(recs, w, id)) && sp_object(
        b,
        at(r, r.pos + 1),
        type_byte(recs, w, id),
    ) == sp_record(b, at(r, r.pos + 1), type_byte(recs, w, id)))
    &&& in_layout_step(recs, after_write(recs, w, id), r2, open)
    &&& held_after(recs, after_write(recs, w, id).emitted, open)
    &&& w.emitted.subset_of(after_write(recs, w, id).emitted)
    &&& after_write(recs, w, id).emitted.contains(id)
    &&& grown_from(recs, after_write(recs, w, id).emitted.difference(w.emitted), id, after_write(recs, w, id).emitted)
    &&& r.class_types.is_prefix_of(r2.class_types)
    &&& r.pos < r2.pos
}

/// Writing record `id`, with the records it holds in place, and reading it,
/// keep the two states in step.
proof fn lemma_record_nested(recs: DeserializedRecord, w: SState, id: i32, r: PState, b: Seq<u8>, open: Set<i32>) -> (r2: PState)
    requires
        graph_reads_back(recs),
        layout_writable(recs),
        recs.records@.contains_key(id),
        !w.emitted.contains(id),
        !open.contains(id),
        forall|a: i32| #[trigger] open.contains(a) ==> span(recs, a) > span(recs, id),
        forall|p: i32, k: int| #[trigger] written_in(recs, id, p, k) ==> open.contains(p) || w.emitted.contains(p),
        in_layout_step(recs, w, r, open),
        held_after(recs, w.emitted, open),
        b.len() <= usize::MAX,
        sp_write_record_by_id(recs, w, id) is Ok,
        after_write(recs, w, id).output.is_prefix_of(b),
    ensures
        record_stepped(recs, w, id, r, b, open, r2),
    decreases span(recs, id), 2nat, 0nat,
{
    lemma_record_by_id_extends(recs, w, id);
    if recs.records@[id] is Class {
        lemma_class_nested(recs, w, id, r, b, open)
    } else if recs.records@[id] is BinaryArray {
        lemma_array_nested(recs, w, id, r, b, open)
    } else {
        lemma_plain_nested(recs, w, id, r, b, open)
    }
}

#[verifier::rlimit(100)]
proof fn lemma_class_nested(recs: DeserializedRecord, w: SState, id: i32, r: PState, b: Seq<u8>, open: Set<i32>) -> (r2: PState)
    requires
        graph_reads_back(recs),
        layout_writable(recs),
        recs.records@.contains_key(id),
        !w.emitted.contains(id),
        !open.contains(id),
        forall|a: i32| #[trigger] open.contains(a) ==> span(recs, a) > span(recs, id),
        forall|p: i32, k: int| #[trigger] written_in(recs, id, p, k) ==> open.contains(p) || w.emitted.contains(p),
        in_layout_step(recs, w, r, open),
        held_after(recs, w.emitted, open),
        b.len() <= usize::MAX,
        sp_write_record_by_id(recs, w, id) is Ok,
        after_write(recs, w, id).output.is_prefix_of(b),
        recs.records@[id] is Class,
        w.output.is_prefix_of(after_write(recs, w, id).output),
    ensures
        record_stepped(recs, w, id, r, b, open, r2),
    decreases span(recs, id), 1nat, 0nat,
{
    reveal(sp_record);
    reveal(sp_object);
    let rec = recs.records@[id];
    assert(sp_write_record(recs, w, id, rec) is Ok);
    let w3 = sp_write_record(recs, w, id, rec)->Ok_0;
    let w2 = after_write(recs, w, id);
    assert(w2 == SState { emitted: w3.emitted.insert(id), done: w3.done.insert(id), ..w3 });
    let pos = r.pos;
    let s = at(r, pos + 1);
    lemma_le_bytes_len((id as u32) as nat, 4);
    assert(record_reads_back(recs, rec));
    assert(held_after(recs, w.emitted, open.insert(id)));
    assert forall|c: i32, k: int| #[trigger] written_in(recs, c, id, k) implies !w.emitted.contains(c) by {
    }
    let c = rec->Class_0;
    let ctid = c.class_type_id;
    let ct = recs.class_types@[ctid as int];
    let ms = c.members@;
    let ts = ct.member_types@;
    let mv = members_view(ms);
    let rt = class_record_type(recs, w, id, c, ct);
    let h = enc_class_header(recs, w, id, c);
    let s1w = if rt == 1 {
        SState { output: w.output + h, ..w }
    } else {
        SState { class_metadata: w.class_metadata.insert(ctid, id), output: w.output + h, ..w }
    };
    assert(rt == 1 || rt == 4 || rt == 5);
    assert(sp_write_record(recs, w, id, rec) == sp_write_members(recs, s1w, Some(id), ms, ts, 0));
    lemma_members_extends(recs, s1w, Some(id), ms, ts, 0);
    lemma_prefix_trans(s1w.output, w3.output, b);
    assert(s1w.output.subrange(w.output.len() as int, s1w.output.len() as int) =~= h);
    lemma_holds_from_prefix(b, s1w.output, pos, h);
    let n = r.class_types.len() as usize;
    assert(r.class_types.len() < b.len());
    if rt == 1 {
        let mid = w.class_metadata[ctid];
        assert(class_defined_like(recs, r, ctid, mid));
        let k = r.class_metadata[mid];
        lemma_le_bytes_len((mid as u32) as nat, 4);
        let rest = enc_i32(id) + enc_i32(mid);
        assert(h =~= seq![1u8] + rest);
        lemma_type_byte(b, pos, 1u8, rest);
        lemma_holds_split(b, pos + 1, enc_i32(id), enc_i32(mid));
        lemma_i32_readback(b, pos + 1, id);
        lemma_i32_readback(b, pos + 5, mid);
        assert(sp_cwid_header(b, s) == Ok::<((i32, usize), int), Seq<char>>(((id, k), pos + 9)));
        let s1r = at(s, pos + 9);
        lemma_step_moved(recs, w, r, open, h, open.insert(id));
        assert(in_layout_step(recs, s1w, s1r, open.insert(id)));
        assert(r.class_types[k as int].member_types == member_types_view(ts));
        let rm = lemma_members_nested(recs, s1w, id, ms, ts, 0, s1r, Seq::empty(), b, open.insert(id));
        assert(Seq::<MemberV>::empty() + mv.subrange(0, ms.len() as int) =~= mv);
        let v = RecordV::Class(ClassV { class_type_id: k, members: mv });
        assert(sp_object(b, s, 1u8) == Ok::<(i32, PState), Seq<char>>((id, with_record(rm, id, v))));
        assert(rm.class_types[k as int] == r.class_types[k as int]) by {
            assert(rm.class_types.subrange(0, r.class_types.len() as int)[k as int] == rm.class_types[k as int]);
        }
        lemma_finish_record(recs, w3, rm, id, v, 1u8, pos, open);
        lemma_finish_held(recs, w3.emitted, id, open);
        lemma_grown_record(recs, w, w3, id);
        capture(with_record(rm, id, v), id, 1u8, pos)
    } else {
        let system = rt == 4;
        let ctv = if system {
            ClassTypeV { system_class: true, library_id: 0, ..ct@ }
        } else {
            ClassTypeV { system_class: false, ..ct@ }
        };
        let rest = if system {
            enc_class_type(id, ct)
        } else {
            enc_class_type(id, ct) + enc_i32(ct.library_id)
        };
        assert(h =~= seq![rt] + rest);
        lemma_type_byte(b, pos, rt, rest);
        if !system {
            lemma_holds_split(b, pos + 1, enc_class_type(id, ct), enc_i32(ct.library_id));
            lemma_i32_readback(b, pos + 1 + enc_class_type(id, ct).len(), ct.library_id);
        }
        law_class_type_readback(b, pos + 1, id, ct);
        let p = pos + 1 + rest.len();
        assert(sp_cmt_header(b, pos + 1, system) == Ok::<((i32, ClassTypeV), int), Seq<char>>(((id, ctv), p)));
        let s1r = PState {
            pos: p,
            class_types: s.class_types.push(ctv),
            class_metadata: s.class_metadata.insert(id, n),
            ..s
        };
        lemma_prefix_push(r.class_types, ctv);
        assert(class_defined_like(recs, s1r, ctid, id));
        lemma_header_defines(recs, w, r, s1w, s1r, id, ctid, open);
        let rm = lemma_members_nested(recs, s1w, id, ms, ts, 0, s1r, Seq::empty(), b, open.insert(id));
        assert(Seq::<MemberV>::empty() + mv.subrange(0, ms.len() as int) =~= mv);
        let v = RecordV::Class(ClassV { class_type_id: n, members: mv });
        assert(sp_object(b, s, rt) == Ok::<(i32, PState), Seq<char>>((id, with_record(rm, id, v))));
        assert(rm.class_types[n as int] == ctv) by {
            assert(rm.class_types.subrange(0, s1r.class_types.len() as int)[n as int] == rm.class_types[n as int]);
        }
        lemma_prefix_trans_ct(r.class_types, s1r.class_types, rm.class_types);
        lemma_finish_record(recs, w3, rm, id, v, rt, pos, open);
        lemma_finish_held(recs, w3.emitted, id, open);
        lemma_grown_record(recs, w, w3, id);
        capture(with_record(rm, id, v), id, rt, pos)
    }

}

#[verifier::rlimit(100)]
proof fn lemma_array_nested(recs: DeserializedRecord, w: SState, id: i32, r: PState, b: Seq<u8>, open: Set<i32>) -> (r2: PState)
    requires
        graph_reads_back(recs),
        layout_writable(recs),
        recs.records@.contains_key(id),
        !w.emitted.contains(id),
        !open.contains(id),
        forall|a: i32| #[trigger] open.contains(a) ==> span(recs, a) > span(recs, id),
        forall|p: i32, k: int| #[trigger] written_in(recs, id, p, k) ==> open.contains(p) || w.emitted.contains(p),
        in_layout_step(recs, w, r, open),
        held_after(recs, w.emitted, open),
        b.len() <= usize::MAX,
        sp_write_record_by_id(recs, w, id) is Ok,
        after_write(recs, w, id).output.is_prefix_of(b),
        recs.records@[id] is BinaryArray,
        w.output.is_prefix_of(after_write(recs, w, id).output),
    ensures
        record_stepped(recs, w, id, r, b, open, r2),
    decreases span(recs, id), 1nat, 0nat,
{
    reveal(sp_record);
    reveal(sp_object);
    let rec = recs.records@[id];
    assert(sp_write_record(recs, w, id, rec) is Ok);
    let w3 = sp_write_record(recs, w, id, rec)->Ok_0;
    let w2 = after_write(recs, w, id);
    assert(w2 == SState { emitted: w3.emitted.insert(id), done: w3.done.insert(id), ..w3 });
    let pos = r.pos;
    let s = at(r, pos + 1);
    lemma_le_bytes_len((id as u32) as nat, 4);
    assert(record_reads_back(recs, rec));
    assert(held_after(recs, w.emitted, open.insert(id)));
    assert forall|c: i32, k: int| #[trigger] written_in(recs, c, id, k) implies !w.emitted.contains(c) by {
    }
    let t = rec->BinaryArray_0;
    let vals = rec->BinaryArray_1;
    let mv = members_view(vals@);
    let h = seq![7u8] + enc_array_header(id, t@, vals@.len());
    let s1w = SState { output: w.output + h, ..w };
    assert(seq![7u8] + enc_i32(id) + seq![0u8] + enc_i32(1) + enc_i32(vals.len() as i32) + seq![
        member_type_code(t@),
    ] + enc_member_type_info(t@) =~= h);
    assert(sp_write_record(recs, w, id, rec) == sp_write_items(recs, s1w, Some(id), vals@, t, 0));
    lemma_items_extends(recs, s1w, Some(id), vals@, t, 0);
    lemma_prefix_trans(s1w.output, w3.output, b);
    assert(s1w.output.subrange(w.output.len() as int, s1w.output.len() as int) =~= h);
    lemma_holds_from_prefix(b, s1w.output, pos, h);
    lemma_type_byte(b, pos, 7u8, enc_array_header(id, t@, vals@.len()));
    lemma_array_header_readback(b, pos + 1, id, t@, vals@.len());
    let s1r = at(s, pos + h.len());
    lemma_step_moved(recs, w, r, open, h, open.insert(id));
    let rm = lemma_items_nested(recs, s1w, id, vals@, t, 0, s1r, Seq::empty(), b, open.insert(id));
    assert(Seq::<MemberV>::empty() + mv.subrange(0, vals.len() as int) =~= mv);
    let v = RecordV::BinaryArray(t@, mv);
    assert(sp_object(b, s, 7u8) == Ok::<(i32, PState), Seq<char>>((id, with_record(rm, id, v))));
    lemma_finish_record(recs, w3, rm, id, v, 7u8, pos, open);
    lemma_finish_held(recs, w3.emitted, id, open);
    lemma_grown_record(recs, w, w3, id);
    capture(with_record(rm, id, v), id, 7u8, pos)

}

/// The bytes and value of a library, string or primitive array record after
/// its type byte, as the writer writes and the reader reads them.
pub open spec fn plain_parts(id: i32, rec: Record) -> (Seq<u8>, RecordV) {
    match rec {
        Record::BinaryLibrary(x) => (enc_i32(id) + enc_string(x@), RecordV::BinaryLibrary(x@)),
        Record::String(x) => (enc_i32(id) + enc_string(x@), RecordV::String(x@)),
        Record::PrimitiveArray(pt, xs) => (
            enc_i32(id) + enc_i32(xs.len() as i32) + seq![primitive_type_code(pt)] + enc_primitives(primitives_view(xs@)),
            RecordV::PrimitiveArray(pt, primitives_view(xs@)),
        ),
        _ => (Seq::empty(), RecordV::String(Seq::empty())),
    }
}

/// The reader reads a library, string or primitive array record's body as written.
proof fn lemma_plain_body(b: Seq<u8>, s: PState, id: i32, rec: Record, rt: u8)
    requires
        !(rec is Class),
        !(rec is BinaryArray),
        rt == (match rec {
            Record::BinaryLibrary(_) => 12u8,
            Record::String(_) => 6u8,
            _ => 15u8,
        }),
        holds_at(b, s.pos, plain_parts(id, rec).0),
        match rec {
            Record::BinaryLibrary(x) => string_fits(x@),
            Record::String(x) => string_fits(x@),
            Record::PrimitiveArray(pt, xs) => xs.len() <= i32::MAX && forall|j: int|
                0 <= j < xs.len() ==> primitive_type_of(#[trigger] xs@[j]@) == pt && primitive_reads_back(xs@[j]@),
            _ => true,
        },
    ensures
        sp_record(b, s, rt) == Ok::<(i32, PState), Seq<char>>(
            (id, with_record(at(s, s.pos + plain_parts(id, rec).0.len()), id, plain_parts(id, rec).1)),
        ),
        rt != 12 ==> sp_object(b, s, rt) == sp_record(b, s, rt),
{
    reveal(sp_record);
    reveal(sp_object);
    lemma_le_bytes_len((id as u32) as nat, 4);
    match rec {
        Record::BinaryLibrary(x) => {
            law_library_record_readback(b, s, id, x@);
        },
        Record::String(x) => {
            law_string_record_readback(b, s, id, x@);
        },
        Record::PrimitiveArray(pt, xs) => {
            let pv = primitives_view(xs@);
            assert(pv.len() as i32 == xs.len() as i32);
            assert forall|j: int| 0 <= j < pv.len() implies primitive_type_of(#[trigger] pv[j]) == pt
                && primitive_reads_back(pv[j]) by {
                assert(pv[j] == xs@[j]@);
            }
            lemma_le_bytes_len((pv.len() as i32 as u32) as nat, 4);
            law_primitive_array_readback(b, s, id, pt, pv);
        },
        _ => {},
    }
}

#[verifier::rlimit(60)]
proof fn lemma_plain_nested(recs: DeserializedRecord, w: SState, id: i32, r: PState, b: Seq<u8>, open: Set<i32>) -> (r2: PState)
    requires
        graph_reads_back(recs),
        layout_writable(recs),
        recs.records@.contains_key(id),
        !w.emitted.contains(id),
        !open.contains(id),
        forall|a: i32| #[trigger] open.contains(a) ==> span(recs, a) > span(recs, id),
        forall|p: i32, k: int| #[trigger] written_in(recs, id, p, k) ==> open.contains(p) || w.emitted.contains(p),
        in_layout_step(recs, w, r, open),
        held_after(recs, w.emitted, open),
        b.len() <= usize::MAX,
        sp_write_record_by_id(recs, w, id) is Ok,
        after_write(recs, w, id).output.is_prefix_of(b),
        !(recs.records@[id] is Class),
        !(recs.records@[id] is BinaryArray),
    ensures
        record_stepped(recs, w, id, r, b, open, r2),
{
    let rec = recs.records@[id];
    assert(sp_write_record(recs, w, id, rec) is Ok);
    let w3 = sp_write_record(recs, w, id, rec)->Ok_0;
    let w2 = after_write(recs, w, id);
    assert(w2 == SState { emitted: w3.emitted.insert(id), done: w3.done.insert(id), ..w3 });
    let pos = r.pos;
    let s = at(r, pos + 1);
    assert(record_reads_back(recs, rec));
    assert(held_after(recs, w.emitted, open.insert(id)));
    let rt = type_byte(recs, w, id);
    let rest = plain_parts(id, rec).0;
    let v = plain_parts(id, rec).1;
    let e = enc_record(recs, w, id, rec);
    assert(e =~= seq![rt] + rest);
    assert(w3.output == w.output + e);
    assert(w3.emitted == w.emitted);
    assert(w3.output.subrange(w.output.len() as int, w3.output.len() as int) =~= e);
    lemma_holds_from_prefix(b, w3.output, pos, e);
    lemma_type_byte(b, pos, rt, rest);
    lemma_plain_body(b, s, id, rec, rt);
    lemma_prefix_refl(r.class_types);
    let rb = at(s, pos + 1 + rest.len());
    lemma_step_moved(recs, w, r, open, e, open.insert(id));
    assert(in_layout_step(recs, w3, rb, open.insert(id)));
    assert(record_read_like(recs, v, rb.class_types, rec));
    lemma_finish_record(recs, w3, rb, id, v, rt, pos, open);
    lemma_finish_held(recs, w3.emitted, id, open);
    assert(w3.emitted.insert(id).difference(w.emitted) =~= set![id]);
    capture(with_record(rb, id, v), id, rt, pos)
}

/// Whether every record written in place is finished.
pub open spec fn inside_done(recs: DeserializedRecord, done: Set<i32>) -> bool {
    forall|c: i32| #[trigger] written_inside(recs, c) ==> done.contains(c)
}

/// How the two states stand between top-level records.
pub open spec fn at_top(recs: DeserializedRecord, w: SState, r: PState) -> bool {
    &&& in_layout_step(recs, w, r, Set::empty())
    &&& held_after(recs, w.emitted, Set::empty())
    &&& holds_done(recs, w.emitted)
}

/// Writing a top-level record, not one written in place unless finished, and
/// reading it, keep the two states in step.
proof fn lemma_top_write(recs: DeserializedRecord, w: SState, id: i32, r: PState, b: Seq<u8>) -> (r2: PState)
    requires
        graph_reads_back(recs),
        layout_writable(recs),
        at_top(recs, w, r),
        w.emitted.contains(id) || !written_inside(recs, id),
        b.len() <= usize::MAX,
        sp_write_record_by_id(recs, w, id) is Ok,
        after_write(recs, w, id).output.is_prefix_of(b),
    ensures
        at_top(recs, after_write(recs, w, id), r2),
        sp_records(b, r) == sp_records(b, r2),
        w.emitted.subset_of(after_write(recs, w, id).emitted),
        after_write(recs, w, id).emitted.contains(id),
{
    let w2 = after_write(recs, w, id);
    if w.emitted.contains(id) {
        r
    } else {
        assert(recs.records@.contains_key(id));
        assert forall|p: i32, k: int| #[trigger] written_in(recs, id, p, k) implies Set::<i32>::empty().contains(p)
            || w.emitted.contains(p) by {
            assert(written_inside(recs, id));
        }
        let r2 = lemma_record_nested(recs, w, id, r, b, Set::empty());
        let rt = type_byte(recs, w, id);
        let (rid, s2) = sp_record(b, at(r, r.pos + 1), rt)->Ok_0;
        assert(rt != 11) by {
            reveal(sp_write_member);
        }
        lemma_records_step(b, r, rt, id, s2);
        let n = w2.emitted.difference(w.emitted);
        assert forall|c: i32, p: i32, k: int| #[trigger] written_in(recs, c, p, k) && w2.emitted.contains(p) implies w2.emitted.contains(c) by {
            if !w.emitted.contains(p) {
                assert(n.contains(p));
            }
        }
        r2
    }
}

/// Writing records `ids[i..]` at the top level, and reading them, keep the two
/// states in step; each of them is then finished.
proof fn lemma_ids_top(recs: DeserializedRecord, w: SState, ids: Seq<i32>, i: int, r: PState, b: Seq<u8>) -> (r2: PState)
    requires
        graph_reads_back(recs),
        layout_writable(recs),
        at_top(recs, w, r),
        (forall|k: int| i <= k < ids.len() ==> !written_inside(recs, #[trigger] ids[k])) || inside_done(recs, w.emitted),
        b.len() <= usize::MAX,
        0 <= i <= ids.len(),
        sp_write_ids(recs, w, ids, i) is Ok,
        sp_write_ids(recs, w, ids, i)->Ok_0.output.is_prefix_of(b),
    ensures
        at_top(recs, sp_write_ids(recs, w, ids, i)->Ok_0, r2),
        sp_records(b, r) == sp_records(b, r2),
        w.emitted.subset_of(sp_write_ids(recs, w, ids, i)->Ok_0.emitted),
        forall|k: int| i <= k < ids.len() ==> sp_write_ids(recs, w, ids, i)->Ok_0.emitted.contains(#[trigger] ids[k]),
    decreases ids.len() - i,
{
    if i >= ids.len() {
        lemma_write_ids_done(recs, w, ids, i);
        r
    } else {
        let res = sp_write_record_by_id(recs, w, ids[i]);
        if let Err(e) = res {
            lemma_write_ids_err(recs, w, ids, i, e);
            r
        } else {
            let w1 = res->Ok_0;
            lemma_write_ids_step(recs, w, ids, i, w1);
            let fin = sp_write_ids(recs, w1, ids, i + 1)->Ok_0;
            lemma_write_ids_extends(recs, w1, ids, i + 1);
            lemma_prefix_trans(w1.output, fin.output, b);
            if !inside_done(recs, w.emitted) {
                assert(!written_inside(recs, ids[i]));
            }
            let r1 = lemma_top_write(recs, w, ids[i], r, b);
            assert(inside_done(recs, w.emitted) ==> inside_done(recs, w1.emitted));
            let r2 = lemma_ids_top(recs, w1, ids, i + 1, r1, b);
            r2
        }
    }
}

/// Draining the writer's queue once every record written in place is finished,
/// and reading on, keep the two states in step.
proof fn lemma_drain_top(recs: DeserializedRecord, w: SState, r: PState, b: Seq<u8>) -> (r2: PState)
    requires
        graph_reads_back(recs),
        layout_writable(recs),
        at_top(recs, w, r),
        inside_done(recs, w.emitted),
        b.len() <= usize::MAX,
        sp_drain(recs, w) is Ok,
        sp_drain(recs, w)->Ok_0.output.is_prefix_of(b),
    ensures
        at_top(recs, sp_drain(recs, w)->Ok_0, r2),
        sp_records(b, r) == sp_records(b, r2),
        w.emitted.subset_of(sp_drain(recs, w)->Ok_0.emitted),
    decreases queue_measure(recs, w).0, queue_measure(recs, w).1,
{
    if w.todo.len() == 0 {
        lemma_drain_done(recs, w);
        r
    } else {
        let id = w.todo[0];
        let w0 = SState { todo: w.todo.drop_first(), ..w };
        let res = sp_write_record_by_id(recs, w0, id);
        if let Err(e) = res {
            lemma_drain_err(recs, w, e);
            r
        } else {
            let w1 = res->Ok_0;
            if key_lt(
                (queue_measure(recs, w1).0 as int, queue_measure(recs, w1).1 as int),
                (queue_measure(recs, w).0 as int, queue_measure(recs, w).1 as int),
            ) {
                lemma_drain_step(recs, w, w1);
                let fin = sp_drain(recs, w1)->Ok_0;
                lemma_drain_extends(recs, w1);
                lemma_prefix_trans(w1.output, fin.output, b);
                let r1 = lemma_top_write(recs, w0, id, r, b);
                let r2 = lemma_drain_top(recs, w1, r1, b);
                r2
            } else {
                assert(sp_drain(recs, w) is Err) by {
                    reveal(sp_drain);
                }
                r
            }
        }
    }
}

/// Each record written in place is finished once the records written first
/// are.
proof fn lemma_inside_done(recs: DeserializedRecord, done: Set<i32>, c: i32)
    requires
        layout_writable(recs),
        holds_done(recs, done),
        forall|t: i32| #[trigger] top_level_order(recs).contains(t) ==> done.contains(t),
        written_inside(recs, c),
    ensures
        done.contains(c),
    decreases 0x4_0000_0000_0000_0000 - span(recs, c),
{
    let (p, k) = choose|p: i32, k: int| #[trigger] written_in(recs, c, p, k);
    lemma_written_in_nested(recs, c, p, k);
    assert(span(recs, p) < 0x4_0000_0000_0000_0000);
    if !top_level_order(recs).contains(p) {
        lemma_inside_done(recs, done, p);
    }
}

/// A record graph, each of whose records reads back as itself and whose
/// layout metadata can be written back, reads back from the bytes the writer
/// writes for it (bytes that fit in memory): the same root and header ids, and
/// every record under its id, read as itself, but that a class record names the
/// class type it was read with, which is its own, marked as a system class or
/// not by the record type it was written with.
pub proof fn law_parse_serialize_layout_roundtrip(recs: DeserializedRecord)
    requires
        graph_reads_back(recs),
        layout_writable(recs),
    ensures
        sp_serialize(recs) matches Ok(bytes) ==> (bytes.len() <= usize::MAX ==> (sp_parse(bytes) matches Ok(d)
            && d.root_id == recs.root_id && d.header_id == recs.header_id && d.records.dom()
            == recs.records@.dom() && forall|id: i32| #[trigger]
            recs.records@.contains_key(id) ==> record_read_like(recs, d.records[id], d.class_types, recs.records@[id]))),
{
    if let Ok(bytes) = sp_serialize(recs) {
        if bytes.len() <= usize::MAX {
            let h = enc_header(recs);
            let st0 = initial_sstate(h);
            law_serialized_output_framed(recs);
            // The header.
            lemma_le_bytes_len((recs.root_id as u32) as nat, 4);
            lemma_le_bytes_len((recs.header_id as u32) as nat, 4);
            lemma_le_bytes_len((1i32 as u32) as nat, 4);
            lemma_le_bytes_len((0i32 as u32) as nat, 4);
            let a = enc_i32(recs.root_id);
            let c = enc_i32(recs.header_id);
            let v1 = enc_i32(1);
            let v0 = enc_i32(0);
            assert(h =~= seq![0u8] + (a + (c + (v1 + v0))));
            assert(holds_at(bytes, 0, h));
            lemma_type_byte(bytes, 0, 0u8, a + (c + (v1 + v0)));
            lemma_holds_split(bytes, 1, a, c + (v1 + v0));
            lemma_holds_split(bytes, 5, c, v1 + v0);
            lemma_holds_split(bytes, 9, v1, v0);
            lemma_i32_readback(bytes, 1, recs.root_id);
            lemma_i32_readback(bytes, 5, recs.header_id);
            lemma_i32_readback(bytes, 9, 1);
            lemma_i32_readback(bytes, 13, 0);
            let r0 = initial_state(17);
            assert(r0.records.dom() =~= st0.emitted);
            assert(at_top(recs, st0, r0));
            // The records written first, or queued.
            let (st1, r1) = if !recs.record_metadata@.is_empty() {
                let tlo = top_level_order(recs);
                let st1 = sp_write_ids(recs, st0, tlo, 0)->Ok_0;
                let s2 = sp_drain(recs, st1)->Ok_0;
                let rest = sorted_ids(recs, recs.records@.dom().difference(s2.emitted));
                let s3 = sp_write_ids(recs, s2, rest, 0)->Ok_0;
                assert(bytes == s3.output.push(11u8));
                lemma_prefix_append(s3.output, seq![11u8]);
                assert(s3.output.push(11u8) =~= s3.output + seq![11u8]);
                lemma_write_ids_extends(recs, s2, rest, 0);
                lemma_drain_extends(recs, st1);
                lemma_prefix_trans(s2.output, s3.output, bytes);
                lemma_prefix_trans(st1.output, s2.output, bytes);
                assert forall|k: int| 0 <= k < tlo.len() implies !written_inside(recs, #[trigger] tlo[k]) by {
                    assert(tlo.contains(tlo[k]));
                    lemma_top_level_not_nested(recs, if recs.record_order@.len() > 0 {
                        recs.record_order@
                    } else {
                        sorted_ids(recs, recs.record_metadata@.dom())
                    }, tlo[k]);
                    if written_inside(recs, tlo[k]) {
                        let (p, j) = choose|p: i32, j: int| #[trigger] written_in(recs, tlo[k], p, j);
                        lemma_written_in_nested(recs, tlo[k], p, j);
                    }
                }
                let r1 = lemma_ids_top(recs, st0, tlo, 0, r0, bytes);
                assert forall|t: i32| #[trigger] tlo.contains(t) implies st1.emitted.contains(t) by {
                    let k = choose|k: int| 0 <= k < tlo.len() && tlo[k] == t;
                    assert(st1.emitted.contains(tlo[k]));
                }
                assert forall|x: i32| #[trigger] written_inside(recs, x) implies st1.emitted.contains(x) by {
                    lemma_inside_done(recs, st1.emitted, x);
                }
                (st1, r1)
            } else {
                let libs = sorted_ids(recs, library_ids(recs));
                let st1 = add_todo(add_todos(st0, libs, 0), recs.root_id);
                lemma_add_todos_keeps(st0, libs, 0);
                assert forall|x: i32| #[trigger] written_inside(recs, x) implies st1.emitted.contains(x) by {
                    let (p, j) = choose|p: i32, j: int| #[trigger] written_in(recs, x, p, j);
                }
                (st1, r0)
            };
            let s2 = sp_drain(recs, st1)->Ok_0;
            let rest = sorted_ids(recs, recs.records@.dom().difference(s2.emitted));
            let s3 = sp_write_ids(recs, s2, rest, 0)->Ok_0;
            assert(bytes == s3.output.push(11u8));
            lemma_prefix_append(s3.output, seq![11u8]);
            assert(s3.output.push(11u8) =~= s3.output + seq![11u8]);
            lemma_write_ids_extends(recs, s2, rest, 0);
            lemma_drain_extends(recs, st1);
            lemma_prefix_trans(s2.output, s3.output, bytes);
            lemma_prefix_trans(st1.output, s2.output, bytes);
            let r2 = lemma_drain_top(recs, st1, r1, bytes);
            let r3 = lemma_ids_top(recs, s2, rest, 0, r2, bytes);
            // The end record.
            assert(bytes[r3.pos] == 11u8);
            assert(sp_records(bytes, r3) == Ok::<PState, Seq<char>>(at(r3, r3.pos + 1)));
            // Every record was written.
            lemma_sorted_ids_exist(recs, recs.records@.dom().difference(s2.emitted));
            assert forall|id: i32| recs.records@.dom().contains(id) implies s3.emitted.contains(id) by {
                if !s2.emitted.contains(id) {
                    assert(rest.to_set().contains(id));
                    let k = choose|k: int| 0 <= k < rest.len() && rest[k] == id;
                    assert(s3.emitted.contains(rest[k]));
                }
            }
            assert(r3.records.dom() =~= recs.records@.dom());
        }
    }
}

} // verus!
