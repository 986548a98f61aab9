//! The reader reads back the class types, members, and class and array records
//! that the writer writes.
use crate::parser::{
    at, lemma_items_acc_done, lemma_items_acc_step, lemma_members_acc_done, lemma_members_acc_step,
    member_type_of_code, sp_additional_info, sp_array_header, sp_class_type, sp_cmt_header, sp_cwid_header,
    sp_infos_acc, sp_items_acc, sp_member, sp_member_type, sp_member_types_acc, sp_members_acc, sp_object,
    sp_strings_acc, with_record, PState,
};
use crate::records::{
    member_types_view, primitive_type_of, strings_view, ClassType, ClassTypeV, ClassV, MemberTypeV, MemberV,
    RecordV,
};
use crate::serializer::encoding::{
    class_type_fits, enc_class_type, enc_i32, enc_items, enc_member, enc_member_type_info, enc_members,
    enc_primitive, enc_string, enc_strings, enc_type_codes, enc_type_infos, member_type_code,
    member_type_fits, primitive_type_code, string_fits,
};
use crate::serializer::readback::{
    holds_at, lemma_holds_prefix, lemma_holds_split, lemma_i32_readback, lemma_primitive_readback,
    lemma_primitive_type_readback, lemma_string_readback, primitive_reads_back,
};
use crate::serializer::{lemma_prefix_append, lemma_prefix_trans};
use vstd::prelude::*;

verus! {

/// What the reader knows of member type `t` from its code alone, before its
/// additional information.
pub open spec fn type_shape(t: MemberTypeV) -> MemberTypeV {
    member_type_of_code(member_type_code(t)).unwrap()
}

proof fn lemma_strings_prefix(s: Seq<Seq<char>>, k: int)
    requires
        0 <= k <= s.len(),
    ensures
        enc_strings(s.take(k)).is_prefix_of(enc_strings(s)),
    decreases s.len() - k,
{
    if k < s.len() {
        assert(s.take(k + 1).drop_last() =~= s.take(k));
        lemma_prefix_append(enc_strings(s.take(k)), enc_string(s[k]));
        lemma_strings_prefix(s, k + 1);
        lemma_prefix_trans(enc_strings(s.take(k)), enc_strings(s.take(k + 1)), enc_strings(s));
    } else {
        assert(s.take(k) =~= s);
        lemma_prefix_append(enc_strings(s), Seq::empty());
        assert(enc_strings(s) + Seq::<u8>::empty() =~= enc_strings(s));
    }
}

proof fn lemma_strings_acc_readback(b: Seq<u8>, pos: int, s: Seq<Seq<char>>, k: int)
    requires
        0 <= k <= s.len(),
        holds_at(b, pos, enc_strings(s)),
        forall|i: int| 0 <= i < s.len() ==> string_fits(#[trigger] s[i]),
    ensures
        sp_strings_acc(b, pos + enc_strings(s.take(k)).len(), (s.len() - k) as nat, s.take(k))
            == Ok::<(Seq<Seq<char>>, int), Seq<char>>((s, pos + enc_strings(s).len())),
    decreases s.len() - k,
{
    if k < s.len() {
        let head = enc_strings(s.take(k));
        let next = enc_strings(s.take(k + 1));
        assert(s.take(k + 1).drop_last() =~= s.take(k));
        assert(next == head + enc_string(s[k]));
        lemma_strings_prefix(s, k + 1);
        lemma_holds_prefix(b, pos, next, enc_strings(s));
        lemma_holds_split(b, pos, head, enc_string(s[k]));
        lemma_string_readback(b, pos + head.len(), s[k]);
        assert(s.take(k).push(s[k]) =~= s.take(k + 1));
        lemma_strings_acc_readback(b, pos, s, k + 1);
    } else {
        assert(s.take(k) =~= s);
    }
}

proof fn lemma_type_codes_index(ts: Seq<MemberTypeV>)
    ensures
        enc_type_codes(ts).len() == ts.len(),
        forall|i: int| 0 <= i < ts.len() ==> enc_type_codes(ts)[i] == member_type_code(#[trigger] ts[i]),
    decreases ts.len(),
{
    if ts.len() > 0 {
        lemma_type_codes_index(ts.drop_last());
        assert forall|i: int| 0 <= i < ts.len() implies enc_type_codes(ts)[i] == member_type_code(#[trigger] ts[i]) by {
            if i < ts.len() - 1 {
                assert(ts.drop_last()[i] == ts[i]);
            }
        }
    }
}

proof fn lemma_member_types_acc_readback(b: Seq<u8>, pos: int, ts: Seq<MemberTypeV>, k: int)
    requires
        0 <= k <= ts.len(),
        holds_at(b, pos, enc_type_codes(ts)),
    ensures
        sp_member_types_acc(b, pos + k, (ts.len() - k) as nat, ts.map_values(|t: MemberTypeV| type_shape(t)).take(k))
            == Ok::<(Seq<MemberTypeV>, int), Seq<char>>(
            (ts.map_values(|t: MemberTypeV| type_shape(t)), pos + ts.len()),
        ),
    decreases ts.len() - k,
{
    let shapes = ts.map_values(|t: MemberTypeV| type_shape(t));
    lemma_type_codes_index(ts);
    if k < ts.len() {
        assert(b[pos + k] == b.subrange(pos, pos + enc_type_codes(ts).len())[k]);
        assert(b[pos + k] == member_type_code(ts[k]));
        assert(shapes.take(k).push(shapes[k]) =~= shapes.take(k + 1));
        lemma_member_types_acc_readback(b, pos, ts, k + 1);
    } else {
        assert(shapes.take(k) =~= shapes);
    }
}

proof fn lemma_additional_info_readback(b: Seq<u8>, pos: int, t: MemberTypeV)
    requires
        member_type_fits(t),
        holds_at(b, pos, enc_member_type_info(t)),
    ensures
        sp_additional_info(b, pos, type_shape(t)) == Ok::<(MemberTypeV, int), Seq<char>>(
            (t, pos + enc_member_type_info(t).len()),
        ),
{
    match t {
        MemberTypeV::Primitive(p) => {
            lemma_primitive_type_readback(b, pos, p);
        },
        MemberTypeV::PrimitiveArray(p) => {
            lemma_primitive_type_readback(b, pos, p);
        },
        MemberTypeV::SystemClass(name) => {
            lemma_string_readback(b, pos, name);
        },
        MemberTypeV::Class(name, lib) => {
            lemma_holds_split(b, pos, enc_string(name), enc_i32(lib));
            lemma_string_readback(b, pos, name);
            lemma_i32_readback(b, pos + enc_string(name).len(), lib);
        },
        _ => {},
    }
}

proof fn lemma_type_infos_prefix(ts: Seq<MemberTypeV>, k: int)
    requires
        0 <= k <= ts.len(),
    ensures
        enc_type_infos(ts.take(k)).is_prefix_of(enc_type_infos(ts)),
    decreases ts.len() - k,
{
    if k < ts.len() {
        assert(ts.take(k + 1).drop_last() =~= ts.take(k));
        lemma_prefix_append(enc_type_infos(ts.take(k)), enc_member_type_info(ts[k]));
        lemma_type_infos_prefix(ts, k + 1);
        lemma_prefix_trans(enc_type_infos(ts.take(k)), enc_type_infos(ts.take(k + 1)), enc_type_infos(ts));
    } else {
        assert(ts.take(k) =~= ts);
        lemma_prefix_append(enc_type_infos(ts), Seq::empty());
        assert(enc_type_infos(ts) + Seq::<u8>::empty() =~= enc_type_infos(ts));
    }
}

proof fn lemma_infos_acc_readback(b: Seq<u8>, pos: int, ts: Seq<MemberTypeV>, k: int)
    requires
        0 <= k <= ts.len(),
        holds_at(b, pos, enc_type_infos(ts)),
        forall|i: int| 0 <= i < ts.len() ==> member_type_fits(#[trigger] ts[i]),
    ensures
        sp_infos_acc(
            b,
            pos + enc_type_infos(ts.take(k)).len(),
            ts.map_values(|t: MemberTypeV| type_shape(t)),
            k,
            ts.take(k),
        ) == Ok::<(Seq<MemberTypeV>, int), Seq<char>>((ts, pos + enc_type_infos(ts).len())),
    decreases ts.len() - k,
{
    let shapes = ts.map_values(|t: MemberTypeV| type_shape(t));
    if k < ts.len() {
        let head = enc_type_infos(ts.take(k));
        let next = enc_type_infos(ts.take(k + 1));
        assert(ts.take(k + 1).drop_last() =~= ts.take(k));
        assert(next == head + enc_member_type_info(ts[k]));
        lemma_type_infos_prefix(ts, k + 1);
        lemma_holds_prefix(b, pos, next, enc_type_infos(ts));
        lemma_holds_split(b, pos, head, enc_member_type_info(ts[k]));
        lemma_additional_info_readback(b, pos + head.len(), ts[k]);
        assert(shapes[k] == type_shape(ts[k]));
        assert(ts.take(k).push(ts[k]) =~= ts.take(k + 1));
        lemma_infos_acc_readback(b, pos, ts, k + 1);
    } else {
        assert(ts.take(k) =~= ts);
    }
}

/// The reader reads back a class type the writer wrote: its record id, name,
/// member names and member types (as no system class, of library 0, which the
/// record's header then settles).
pub proof fn law_class_type_readback(b: Seq<u8>, pos: int, id: i32, ct: ClassType)
    requires
        class_type_fits(ct),
        ct.member_names.len() == ct.member_types.len(),
        ct.member_names.len() <= i32::MAX,
        holds_at(b, pos, enc_class_type(id, ct)),
    ensures
        sp_class_type(b, pos) == Ok::<((i32, ClassTypeV), int), Seq<char>>(
            ((id, ClassTypeV { library_id: 0, system_class: false, ..ct@ }), pos + enc_class_type(id, ct).len()),
        ),
{
    let names = strings_view(ct.member_names@);
    let ts = member_types_view(ct.member_types@);
    let a = enc_i32(id);
    let n = enc_string(ct.name@);
    let c = enc_i32(ct.member_names.len() as i32);
    let s = enc_strings(names);
    let d = enc_type_codes(ts);
    let e = enc_type_infos(ts);
    assert(enc_class_type(id, ct) == a + n + c + s + d + e);
    lemma_holds_split(b, pos, a + n + c + s + d, e);
    lemma_holds_split(b, pos, a + n + c + s, d);
    lemma_holds_split(b, pos, a + n + c, s);
    lemma_holds_split(b, pos, a + n, c);
    lemma_holds_split(b, pos, a, n);
    lemma_i32_readback(b, pos, id);
    lemma_string_readback(b, pos + 4, ct.name@);
    let p2 = pos + 4 + n.len();
    lemma_i32_readback(b, p2, ct.member_names.len() as i32);
    assert(names.len() == ct.member_names.len());
    assert forall|i: int| 0 <= i < names.len() implies string_fits(#[trigger] names[i]) by {
        assert(names[i] == ct.member_names@[i]@);
    }
    lemma_strings_acc_readback(b, p2 + 4, names, 0);
    assert(names.take(0) =~= Seq::<Seq<char>>::empty());
    let p4 = p2 + 4 + s.len();
    lemma_member_types_acc_readback(b, p4, ts, 0);
    let shapes = ts.map_values(|t: MemberTypeV| type_shape(t));
    assert(shapes.take(0) =~= Seq::<MemberTypeV>::empty());
    lemma_type_codes_index(ts);
    let p5 = p4 + ts.len();
    assert forall|i: int| 0 <= i < ts.len() implies member_type_fits(#[trigger] ts[i]) by {
        assert(ts[i] == ct.member_types@[i]@);
    }
    lemma_infos_acc_readback(b, p5, ts, 0);
    assert(ts.take(0) =~= Seq::<MemberTypeV>::empty());
}

/// Whether member `m` reads back as itself when written with declared type
/// `t`: under a primitive type, a primitive of that type; else a primitive, a
/// reference, a null or a positive count of nulls; each primitive reading back.
pub open spec fn member_reads_back(m: MemberV, t: MemberTypeV) -> bool {
    match t {
        MemberTypeV::Primitive(pt) => match m {
            MemberV::Primitive(v) => primitive_type_of(v) == pt && primitive_reads_back(v),
            _ => false,
        },
        _ => match m {
            MemberV::Primitive(v) => primitive_reads_back(v),
            MemberV::NullMultiple(c) => c > 0,
            _ => true,
        },
    }
}

/// The reader reads back a member the writer wrote with its declared type.
#[verifier::rlimit(30)]
pub proof fn law_member_readback(b: Seq<u8>, s: PState, m: MemberV, t: MemberTypeV)
    requires
        member_reads_back(m, t),
        holds_at(b, s.pos, enc_member(m, t)),
    ensures
        sp_member(b, s, t) == Ok::<(MemberV, PState), Seq<char>>((m, at(s, s.pos + enc_member(m, t).len()))),
{
    reveal(sp_member);
    let pos = s.pos;
    let e = enc_member(m, t);
    if t is Primitive {
        let v = m->Primitive_0;
        lemma_primitive_readback(b, pos, v);
    } else {
        assert(b[pos] == e[0]) by {
            assert(b[pos] == b.subrange(pos, pos + e.len())[0]);
        }
        match m {
            MemberV::Primitive(v) => {
                let tc = primitive_type_code(primitive_type_of(v));
                assert(seq![8u8, tc] =~= seq![8u8] + seq![tc]);
                lemma_holds_split(b, pos, seq![8u8, tc], enc_primitive(v));
                lemma_holds_split(b, pos, seq![8u8], seq![tc]);
                lemma_primitive_type_readback(b, pos + 1, primitive_type_of(v));
                lemma_primitive_readback(b, pos + 2, v);
            },
            MemberV::Reference(id) => {
                lemma_holds_split(b, pos, seq![9u8], enc_i32(id));
                lemma_i32_readback(b, pos + 1, id);
            },
            MemberV::Null => {},
            MemberV::NullMultiple(c) => {
                if 0 < c <= 0xFF {
                    assert(b[pos + 1] == e[1]) by {
                        assert(b[pos + 1] == b.subrange(pos, pos + e.len())[1]);
                    }
                    assert(((c as u8) as i32) == c) by (bit_vector)
                        requires
                            0 < c <= 0xFF,
                    ;
                } else {
                    lemma_holds_split(b, pos, seq![14u8], enc_i32(c));
                    lemma_i32_readback(b, pos + 1, c);
                }
            },
        }
    }
}

proof fn lemma_members_prefix(ms: Seq<MemberV>, ts: Seq<MemberTypeV>, k: int)
    requires
        0 <= k <= ms.len(),
    ensures
        enc_members(ms.take(k), ts).is_prefix_of(enc_members(ms, ts)),
    decreases ms.len() - k,
{
    if k < ms.len() {
        assert(ms.take(k + 1).drop_last() =~= ms.take(k));
        lemma_prefix_append(enc_members(ms.take(k), ts), enc_member(ms[k], ts[k]));
        lemma_members_prefix(ms, ts, k + 1);
        lemma_prefix_trans(enc_members(ms.take(k), ts), enc_members(ms.take(k + 1), ts), enc_members(ms, ts));
    } else {
        assert(ms.take(k) =~= ms);
        lemma_prefix_append(enc_members(ms, ts), Seq::empty());
        assert(enc_members(ms, ts) + Seq::<u8>::empty() =~= enc_members(ms, ts));
    }
}

proof fn lemma_members_acc_readback(b: Seq<u8>, s: PState, ms: Seq<MemberV>, ts: Seq<MemberTypeV>, k: int)
    requires
        0 <= k <= ms.len(),
        ms.len() == ts.len(),
        holds_at(b, s.pos, enc_members(ms, ts)),
        forall|i: int| 0 <= i < ms.len() ==> member_reads_back(#[trigger] ms[i], ts[i]),
    ensures
        sp_members_acc(b, at(s, s.pos + enc_members(ms.take(k), ts).len()), ts, k, ms.take(k))
            == Ok::<(Seq<MemberV>, PState), Seq<char>>((ms, at(s, s.pos + enc_members(ms, ts).len()))),
    decreases ms.len() - k,
{
    let here = at(s, s.pos + enc_members(ms.take(k), ts).len());
    if k < ms.len() {
        let head = enc_members(ms.take(k), ts);
        let next = enc_members(ms.take(k + 1), ts);
        assert(ms.take(k + 1).drop_last() =~= ms.take(k));
        assert(next == head + enc_member(ms[k], ts[k]));
        lemma_members_prefix(ms, ts, k + 1);
        lemma_holds_prefix(b, s.pos, next, enc_members(ms, ts));
        lemma_holds_split(b, s.pos, head, enc_member(ms[k], ts[k]));
        law_member_readback(b, here, ms[k], ts[k]);
        assert(at(here, here.pos + enc_member(ms[k], ts[k]).len()) == at(s, s.pos + next.len()));
        lemma_members_acc_step(b, here, ts, k, ms.take(k), ms[k], at(s, s.pos + next.len()));
        assert(ms.take(k).push(ms[k]) =~= ms.take(k + 1));
        lemma_members_acc_readback(b, s, ms, ts, k + 1);
    } else {
        assert(ms.take(k) =~= ms);
        lemma_members_acc_done(b, here, ts, k, ms.take(k));
    }
}

/// The reader reads back the members the writer wrote with their declared types.
pub proof fn law_members_readback(b: Seq<u8>, s: PState, ms: Seq<MemberV>, ts: Seq<MemberTypeV>)
    requires
        ms.len() == ts.len(),
        holds_at(b, s.pos, enc_members(ms, ts)),
        forall|i: int| 0 <= i < ms.len() ==> member_reads_back(#[trigger] ms[i], ts[i]),
    ensures
        sp_members_acc(b, s, ts, 0, Seq::empty())
            == Ok::<(Seq<MemberV>, PState), Seq<char>>((ms, at(s, s.pos + enc_members(ms, ts).len()))),
{
    lemma_members_acc_readback(b, s, ms, ts, 0);
    assert(ms.take(0) =~= Seq::<MemberV>::empty());
    assert(at(s, s.pos + 0) == s);
}

proof fn lemma_items_prefix(vals: Seq<MemberV>, t: MemberTypeV, k: int)
    requires
        0 <= k <= vals.len(),
    ensures
        enc_items(vals.take(k), t).is_prefix_of(enc_items(vals, t)),
    decreases vals.len() - k,
{
    if k < vals.len() {
        assert(vals.take(k + 1).drop_last() =~= vals.take(k));
        lemma_prefix_append(enc_items(vals.take(k), t), enc_member(vals[k], t));
        lemma_items_prefix(vals, t, k + 1);
        lemma_prefix_trans(enc_items(vals.take(k), t), enc_items(vals.take(k + 1), t), enc_items(vals, t));
    } else {
        assert(vals.take(k) =~= vals);
        lemma_prefix_append(enc_items(vals, t), Seq::empty());
        assert(enc_items(vals, t) + Seq::<u8>::empty() =~= enc_items(vals, t));
    }
}

proof fn lemma_items_acc_readback(b: Seq<u8>, s: PState, vals: Seq<MemberV>, t: MemberTypeV, k: int)
    requires
        0 <= k <= vals.len(),
        holds_at(b, s.pos, enc_items(vals, t)),
        forall|i: int| 0 <= i < vals.len() ==> member_reads_back(#[trigger] vals[i], t),
    ensures
        sp_items_acc(b, at(s, s.pos + enc_items(vals.take(k), t).len()), t, (vals.len() - k) as nat, vals.take(k))
            == Ok::<(Seq<MemberV>, PState), Seq<char>>((vals, at(s, s.pos + enc_items(vals, t).len()))),
    decreases vals.len() - k,
{
    let here = at(s, s.pos + enc_items(vals.take(k), t).len());
    if k < vals.len() {
        let head = enc_items(vals.take(k), t);
        let next = enc_items(vals.take(k + 1), t);
        assert(vals.take(k + 1).drop_last() =~= vals.take(k));
        assert(next == head + enc_member(vals[k], t));
        lemma_items_prefix(vals, t, k + 1);
        lemma_holds_prefix(b, s.pos, next, enc_items(vals, t));
        lemma_holds_split(b, s.pos, head, enc_member(vals[k], t));
        law_member_readback(b, here, vals[k], t);
        assert(at(here, here.pos + enc_member(vals[k], t).len()) == at(s, s.pos + next.len()));
        lemma_items_acc_step(b, here, t, (vals.len() - k) as nat, vals.take(k), vals[k], at(s, s.pos + next.len()));
        assert(vals.take(k).push(vals[k]) =~= vals.take(k + 1));
        lemma_items_acc_readback(b, s, vals, t, k + 1);
    } else {
        assert(vals.take(k) =~= vals);
        lemma_items_acc_done(b, here, t, vals.take(k));
    }
}

/// The reader reads back the array items the writer wrote with their declared type.
pub proof fn law_items_readback(b: Seq<u8>, s: PState, vals: Seq<MemberV>, t: MemberTypeV)
    requires
        holds_at(b, s.pos, enc_items(vals, t)),
        forall|i: int| 0 <= i < vals.len() ==> member_reads_back(#[trigger] vals[i], t),
    ensures
        sp_items_acc(b, s, t, vals.len(), Seq::empty())
            == Ok::<(Seq<MemberV>, PState), Seq<char>>((vals, at(s, s.pos + enc_items(vals, t).len()))),
{
    lemma_items_acc_readback(b, s, vals, t, 0);
    assert(vals.take(0) =~= Seq::<MemberV>::empty());
    assert(at(s, s.pos + 0) == s);
}

/// The state with class type `ct` added as the next one, defined by record `id`.
pub open spec fn with_class_type(s: PState, id: i32, ct: ClassTypeV) -> PState {
    PState {
        class_types: s.class_types.push(ct),
        class_metadata: s.class_metadata.insert(id, s.class_types.len() as usize),
        ..s
    }
}

/// The reader reads back a class record that the writer wrote with its own
/// class type and library id (after its type byte): the class type becomes the
/// next one, defined by the record, and the record holds the members.
pub proof fn law_class_record_readback(b: Seq<u8>, s: PState, id: i32, ct: ClassType, ms: Seq<MemberV>)
    requires
        class_type_fits(ct),
        ct.member_names.len() == ct.member_types.len(),
        ct.member_names.len() <= i32::MAX,
        ms.len() == ct.member_types.len(),
        forall|i: int| 0 <= i < ms.len() ==> member_reads_back(#[trigger] ms[i], ct@.member_types[i]),
        holds_at(b, s.pos, enc_class_type(id, ct) + enc_i32(ct.library_id) + enc_members(ms, ct@.member_types)),
    ensures
        sp_object(b, s, 5) == Ok::<(i32, PState), Seq<char>>(
            (
                id,
                with_record(
                    at(
                        with_class_type(s, id, ClassTypeV { system_class: false, ..ct@ }),
                        s.pos + enc_class_type(id, ct).len() + 4 + enc_members(ms, ct@.member_types).len(),
                    ),
                    id,
                    RecordV::Class(ClassV { class_type_id: s.class_types.len() as usize, members: ms }),
                ),
            ),
        ),
{
    reveal(sp_object);
    let h = enc_class_type(id, ct);
    let l = enc_i32(ct.library_id);
    let m = enc_members(ms, ct@.member_types);
    lemma_holds_split(b, s.pos, h + l, m);
    lemma_holds_split(b, s.pos, h, l);
    law_class_type_readback(b, s.pos, id, ct);
    lemma_i32_readback(b, s.pos + h.len(), ct.library_id);
    let ctv = ClassTypeV { system_class: false, ..ct@ };
    assert(sp_cmt_header(b, s.pos, false) == Ok::<((i32, ClassTypeV), int), Seq<char>>(
        ((id, ctv), s.pos + h.len() + 4),
    ));
    let s1 = at(with_class_type(s, id, ctv), s.pos + h.len() + 4);
    law_members_readback(b, s1, ms, ctv.member_types);
}

/// The reader reads back a class record of a system class that the writer
/// wrote with its own class type (after its type byte): the class type, of
/// library 0, becomes the next one, and the record holds the members.
pub proof fn law_system_class_record_readback(b: Seq<u8>, s: PState, id: i32, ct: ClassType, ms: Seq<MemberV>)
    requires
        class_type_fits(ct),
        ct.member_names.len() == ct.member_types.len(),
        ct.member_names.len() <= i32::MAX,
        ms.len() == ct.member_types.len(),
        forall|i: int| 0 <= i < ms.len() ==> member_reads_back(#[trigger] ms[i], ct@.member_types[i]),
        holds_at(b, s.pos, enc_class_type(id, ct) + enc_members(ms, ct@.member_types)),
    ensures
        sp_object(b, s, 4) == Ok::<(i32, PState), Seq<char>>(
            (
                id,
                with_record(
                    at(
                        with_class_type(s, id, ClassTypeV { system_class: true, library_id: 0, ..ct@ }),
                        s.pos + enc_class_type(id, ct).len() + enc_members(ms, ct@.member_types).len(),
                    ),
                    id,
                    RecordV::Class(ClassV { class_type_id: s.class_types.len() as usize, members: ms }),
                ),
            ),
        ),
{
    reveal(sp_object);
    let h = enc_class_type(id, ct);
    let m = enc_members(ms, ct@.member_types);
    lemma_holds_split(b, s.pos, h, m);
    law_class_type_readback(b, s.pos, id, ct);
    let ctv = ClassTypeV { system_class: true, library_id: 0, ..ct@ };
    assert(sp_cmt_header(b, s.pos, true) == Ok::<((i32, ClassTypeV), int), Seq<char>>(((id, ctv), s.pos + h.len())));
    let s1 = at(with_class_type(s, id, ctv), s.pos + h.len());
    law_members_readback(b, s1, ms, ctv.member_types);
}

/// The reader reads back a class record that the writer wrote as reusing the
/// class type that record `mid` defined (after its type byte): the record holds
/// the members, read with that class type.
pub proof fn law_class_with_id_readback(b: Seq<u8>, s: PState, id: i32, mid: i32, ms: Seq<MemberV>)
    requires
        s.class_metadata.contains_key(mid),
        ms.len() == s.class_types[s.class_metadata[mid] as int].member_types.len(),
        forall|i: int|
            0 <= i < ms.len() ==> member_reads_back(
                #[trigger] ms[i],
                s.class_types[s.class_metadata[mid] as int].member_types[i],
            ),
        holds_at(
            b,
            s.pos,
            enc_i32(id) + enc_i32(mid) + enc_members(ms, s.class_types[s.class_metadata[mid] as int].member_types),
        ),
    ensures
        sp_object(b, s, 1) == Ok::<(i32, PState), Seq<char>>(
            (
                id,
                with_record(
                    at(s, s.pos + 8 + enc_members(ms, s.class_types[s.class_metadata[mid] as int].member_types).len()),
                    id,
                    RecordV::Class(ClassV { class_type_id: s.class_metadata[mid], members: ms }),
                ),
            ),
        ),
{
    reveal(sp_object);
    let ts = s.class_types[s.class_metadata[mid] as int].member_types;
    let m = enc_members(ms, ts);
    lemma_holds_split(b, s.pos, enc_i32(id) + enc_i32(mid), m);
    lemma_holds_split(b, s.pos, enc_i32(id), enc_i32(mid));
    lemma_i32_readback(b, s.pos, id);
    lemma_i32_readback(b, s.pos + 4, mid);
    assert(sp_cwid_header(b, s) == Ok::<((i32, usize), int), Seq<char>>(((id, s.class_metadata[mid]), s.pos + 8)));
    law_members_readback(b, at(s, s.pos + 8), ms, ts);
}

/// The header of an array of members as written after its type byte: the
/// record id, a single-dimension array of rank 1, the length, and the item type.
pub open spec fn enc_array_header(id: i32, t: MemberTypeV, n: nat) -> Seq<u8> {
    enc_i32(id) + seq![0u8] + enc_i32(1) + enc_i32(n as i32) + seq![member_type_code(t)] + enc_member_type_info(t)
}

/// The reader reads back an array of members that the writer wrote (after its
/// type byte).
pub proof fn law_binary_array_readback(b: Seq<u8>, s: PState, id: i32, t: MemberTypeV, vals: Seq<MemberV>)
    requires
        member_type_fits(t),
        vals.len() <= i32::MAX,
        forall|i: int| 0 <= i < vals.len() ==> member_reads_back(#[trigger] vals[i], t),
        holds_at(b, s.pos, enc_array_header(id, t, vals.len()) + enc_items(vals, t)),
    ensures
        sp_object(b, s, 7) == Ok::<(i32, PState), Seq<char>>(
            (
                id,
                with_record(
                    at(s, s.pos + enc_array_header(id, t, vals.len()).len() + enc_items(vals, t).len()),
                    id,
                    RecordV::BinaryArray(t, vals),
                ),
            ),
        ),
{
    reveal(sp_object);
    let pos = s.pos;
    let a = enc_i32(id);
    let z = seq![0u8];
    let r = enc_i32(1);
    let n = enc_i32(vals.len() as i32);
    let c = seq![member_type_code(t)];
    let info = enc_member_type_info(t);
    let hdr = enc_array_header(id, t, vals.len());
    assert(hdr == a + z + r + n + c + info);
    lemma_holds_split(b, pos, hdr, enc_items(vals, t));
    lemma_holds_split(b, pos, a + z + r + n + c, info);
    lemma_holds_split(b, pos, a + z + r + n, c);
    lemma_holds_split(b, pos, a + z + r, n);
    lemma_holds_split(b, pos, a + z, r);
    lemma_holds_split(b, pos, a, z);
    lemma_i32_readback(b, pos, id);
    assert(b[pos + 4] == z[0]) by {
        assert(b[pos + 4] == b.subrange(pos + 4, pos + 5)[0]);
    }
    lemma_i32_readback(b, pos + 5, 1);
    lemma_i32_readback(b, pos + 9, vals.len() as i32);
    assert(b[pos + 13] == c[0]) by {
        assert(b[pos + 13] == b.subrange(pos + 13, pos + 14)[0]);
    }
    assert(sp_member_type(b, pos + 13) == Ok::<(MemberTypeV, int), Seq<char>>((type_shape(t), pos + 14)));
    lemma_additional_info_readback(b, pos + 14, t);
    assert(sp_array_header(b, pos) == Ok::<((i32, MemberTypeV, nat), int), Seq<char>>(
        ((id, t, vals.len()), pos + 14 + info.len()),
    ));
    law_items_readback(b, at(s, pos + 14 + info.len()), vals, t);
}

/// The reader reads back the header of an array of members that the writer wrote.
pub proof fn lemma_array_header_readback(b: Seq<u8>, pos: int, id: i32, t: MemberTypeV, n: nat)
    requires
        member_type_fits(t),
        n <= i32::MAX,
        holds_at(b, pos, enc_array_header(id, t, n)),
    ensures
        sp_array_header(b, pos) == Ok::<((i32, MemberTypeV, nat), int), Seq<char>>(
            ((id, t, n), pos + enc_array_header(id, t, n).len()),
        ),
        enc_array_header(id, t, n).len() == 14 + enc_member_type_info(t).len(),
{
    let a = enc_i32(id);
    let z = seq![0u8];
    let r = enc_i32(1);
    let c = enc_i32(n as i32);
    let code = seq![member_type_code(t)];
    let info = enc_member_type_info(t);
    let hdr = enc_array_header(id, t, n);
    assert(hdr == a + z + r + c + code + info);
    lemma_holds_split(b, pos, a + z + r + c + code, info);
    lemma_holds_split(b, pos, a + z + r + c, code);
    lemma_holds_split(b, pos, a + z + r, c);
    lemma_holds_split(b, pos, a + z, r);
    lemma_holds_split(b, pos, a, z);
    lemma_i32_readback(b, pos, id);
    assert(b[pos + 4] == z[0]) by {
        assert(b[pos + 4] == b.subrange(pos + 4, pos + 5)[0]);
    }
    lemma_i32_readback(b, pos + 5, 1);
    lemma_i32_readback(b, pos + 9, n as i32);
    assert(b[pos + 13] == code[0]) by {
        assert(b[pos + 13] == b.subrange(pos + 13, pos + 14)[0]);
    }
    assert(sp_member_type(b, pos + 13) == Ok::<(MemberTypeV, int), Seq<char>>((type_shape(t), pos + 14)));
    lemma_additional_info_readback(b, pos + 14, t);
}

} // verus!
