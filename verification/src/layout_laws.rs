//! The reader notes the layout of every record it reads, and lists each in the
//! order it was read.
use crate::parser::{
    at, capture, initial_state, is_object_code, lemma_array_header_advances, lemma_cmt_header_advances,
    lemma_cwid_header_advances, rem, sp_array_header, sp_cmt_header, sp_cwid_header, sp_items_acc, sp_member,
    sp_members_acc, sp_object, sp_parse, sp_record, sp_records, sp_u8, PState,
};
use crate::records::{MemberTypeV, MemberV};
use vstd::prelude::*;

verus! {

/// Whether the records read are exactly those whose layout is noted, and the
/// reading order lists exactly them.
pub open spec fn layout_noted(s: PState) -> bool {
    &&& s.records.dom() == s.record_metadata.dom()
    &&& s.record_order.to_set() == s.record_metadata.dom()
}

/// Whether every record read but `id` has its layout noted.
pub open spec fn noted_but(s: PState, id: i32) -> bool {
    &&& s.records.dom() == s.record_metadata.dom().insert(id)
    &&& s.record_order.to_set() == s.record_metadata.dom()
}

proof fn lemma_capture_noted(s: PState, id: i32, rt: u8, start: int)
    requires
        noted_but(s, id),
    ensures
        layout_noted(capture(s, id, rt, start)),
{
    let c = capture(s, id, rt, start);
    assert(c.records.dom() =~= c.record_metadata.dom());
    assert forall|x: i32| c.record_order.to_set().contains(x) <==> c.record_metadata.dom().contains(x) by {
        if c.record_order.to_set().contains(x) {
            let k = choose|k: int| 0 <= k < c.record_order.len() && c.record_order[k] == x;
            if k < s.record_order.len() {
                assert(s.record_order[k] == x);
                assert(s.record_order.to_set().contains(x));
            }
        }
        if c.record_metadata.dom().contains(x) {
            if x == id {
                assert(c.record_order[s.record_order.len() as int] == x);
            } else {
                assert(s.record_order.to_set().contains(x));
                let k = choose|k: int| 0 <= k < s.record_order.len() && s.record_order[k] == x;
                assert(c.record_order[k] == x);
            }
        }
    }
    assert(c.record_order.to_set() =~= c.record_metadata.dom());
}

proof fn lemma_object_noted(b: Seq<u8>, s: PState, bt: u8)
    ensures
        sp_object(b, s, bt) matches Ok((id, s2)) ==> (layout_noted(s) ==> noted_but(s2, id)),
    decreases rem(b, s.pos), 1nat, 0nat,
{
    reveal(sp_object);
    if bt == 1 {
        lemma_cwid_header_advances(b, s);
        if let Ok(((id, ctid), p)) = sp_cwid_header(b, s) {
            let ts = s.class_types[ctid as int].member_types;
            lemma_members_noted(b, at(s, p), ts, 0, Seq::empty());
            if let Ok((ms, s2)) = sp_members_acc(b, at(s, p), ts, 0, Seq::empty()) {
                if layout_noted(s) {
                    assert(sp_object(b, s, bt)->Ok_0.1.records.dom() =~= s2.record_metadata.dom().insert(id));
                }
            }
        }
    } else if bt == 4 || bt == 5 {
        lemma_cmt_header_advances(b, s.pos, bt == 4);
        if let Ok(((id, ct), p)) = sp_cmt_header(b, s.pos, bt == 4) {
            let s1 = PState {
                pos: p,
                class_types: s.class_types.push(ct),
                class_metadata: s.class_metadata.insert(id, s.class_types.len() as usize),
                ..s
            };
            lemma_members_noted(b, s1, ct.member_types, 0, Seq::empty());
            if let Ok((ms, s2)) = sp_members_acc(b, s1, ct.member_types, 0, Seq::empty()) {
                if layout_noted(s) {
                    assert(sp_object(b, s, bt)->Ok_0.1.records.dom() =~= s2.record_metadata.dom().insert(id));
                }
            }
        }
    } else if bt == 7 {
        lemma_array_header_advances(b, s.pos);
        if let Ok(((id, t, n), p)) = sp_array_header(b, s.pos) {
            lemma_items_noted(b, at(s, p), t, n, Seq::empty());
            if let Ok((vals, s2)) = sp_items_acc(b, at(s, p), t, n, Seq::empty()) {
                if layout_noted(s) {
                    assert(sp_object(b, s, bt)->Ok_0.1.records.dom() =~= s2.record_metadata.dom().insert(id));
                }
            }
        }
    } else if let Ok((id, s2)) = sp_object(b, s, bt) {
        if layout_noted(s) {
            assert(s2.records.dom() =~= s.record_metadata.dom().insert(id));
        }
    }
}

#[verifier::rlimit(50)]
proof fn lemma_member_noted(b: Seq<u8>, s: PState, t: MemberTypeV)
    ensures
        sp_member(b, s, t) matches Ok((m, s2)) ==> (layout_noted(s) ==> layout_noted(s2)),
    decreases rem(b, s.pos), 0nat, 0nat,
{
    reveal(sp_member);
    reveal(sp_object);
    if !(t is Primitive) && 0 <= s.pos < b.len() {
        let bt = b[s.pos];
        let p1 = s.pos + 1;
        if is_object_code(bt) {
            lemma_object_noted(b, at(s, p1), bt);
            if let Ok((id, s3)) = sp_object(b, at(s, p1), bt) {
                if layout_noted(s) {
                    assert(layout_noted(at(s, p1)));
                    lemma_capture_noted(s3, id, bt, s.pos);
                }
            }
        }
    }
}

proof fn lemma_members_noted(b: Seq<u8>, s: PState, types: Seq<MemberTypeV>, i: int, acc: Seq<MemberV>)
    ensures
        sp_members_acc(b, s, types, i, acc) matches Ok((ms, s2)) ==> (layout_noted(s) ==> layout_noted(s2)),
    decreases rem(b, s.pos), 0nat, (if 0 <= i <= types.len() { types.len() - i + 1 } else { 0 }) as nat,
{
    reveal(sp_member);
    if 0 <= i < types.len() {
        lemma_member_noted(b, s, types[i]);
        if let Ok((m, s2)) = sp_member(b, s, types[i]) {
            if s2.pos >= s.pos {
                lemma_members_noted(b, s2, types, i + 1, acc.push(m));
            }
        }
    }
}

proof fn lemma_items_noted(b: Seq<u8>, s: PState, t: MemberTypeV, n: nat, acc: Seq<MemberV>)
    ensures
        sp_items_acc(b, s, t, n, acc) matches Ok((vals, s2)) ==> (layout_noted(s) ==> layout_noted(s2)),
    decreases rem(b, s.pos), 0nat, n + 1,
{
    reveal(sp_member);
    if n > 0 {
        lemma_member_noted(b, s, t);
        if let Ok((m, s2)) = sp_member(b, s, t) {
            if s2.pos >= s.pos {
                lemma_items_noted(b, s2, t, (n - 1) as nat, acc.push(m));
            }
        }
    }
}

proof fn lemma_records_noted(b: Seq<u8>, s: PState)
    ensures
        sp_records(b, s) matches Ok(s2) ==> (layout_noted(s) ==> layout_noted(s2)),
    decreases rem(b, s.pos),
{
    reveal(sp_record);
    if let Ok((rt, p1)) = sp_u8(b, s.pos) {
        if rt != 11 {
            if is_object_code(rt) {
                lemma_object_noted(b, at(s, p1), rt);
            }
            if let Ok((id, s2)) = sp_record(b, at(s, p1), rt) {
                if layout_noted(s) {
                    if !is_object_code(rt) {
                        assert(s2.records.dom() =~= s.record_metadata.dom().insert(id));
                    }
                    lemma_capture_noted(s2, id, rt, s.pos);
                }
                let s3 = capture(s2, id, rt, s.pos);
                if s3.pos >= p1 {
                    lemma_records_noted(b, s3);
                }
            }
        }
    }
}

/// Every record that the reader returns has its layout noted, and the reading
/// order lists each of them.
pub proof fn law_parse_notes_every_record(b: Seq<u8>)
    ensures
        sp_parse(b) matches Ok(d) ==> d.records.dom() == d.record_metadata.dom() && d.record_order.to_set()
            == d.record_metadata.dom(),
{
    let s0 = initial_state(17);
    assert(s0.records.dom() =~= s0.record_metadata.dom());
    assert(s0.record_order.to_set() =~= s0.record_metadata.dom());
    lemma_records_noted(b, s0);
}

} // verus!
