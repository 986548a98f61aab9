//! The order records are written in when no recorded order applies.
use crate::records::DeserializedRecord;
use vstd::prelude::*;

verus! {

broadcast use vstd::std_specs::hash::group_hash_axioms;

/// The key records are ordered by when no other order is known: where the
/// record began in the original bytes (records without metadata last), then its id.
pub open spec fn order_key(recs: DeserializedRecord, id: i32) -> (int, int) {
    if recs.record_metadata@.contains_key(id) {
        (recs.record_metadata@[id].start_offset as int, id as int)
    } else {
        (usize::MAX as int, id as int)
    }
}

/// Lexicographic order on keys.
pub open spec fn key_lt(a: (int, int), b: (int, int)) -> bool {
    a.0 < b.0 || (a.0 == b.0 && a.1 < b.1)
}

/// `s` holds the ids of `ids`, each once, in increasing order of `order_key`.
pub open spec fn sorted_ids_of(recs: DeserializedRecord, ids: Set<i32>, s: Seq<i32>) -> bool {
    &&& s.to_set() == ids
    &&& forall|i: int, j: int|
        0 <= i < j < s.len() ==> key_lt(order_key(recs, #[trigger] s[i]), order_key(recs, #[trigger] s[j]))
}

/// The ids of `ids` in increasing order of `order_key`.
pub open spec fn sorted_ids(recs: DeserializedRecord, ids: Set<i32>) -> Seq<i32> {
    choose|s: Seq<i32>| sorted_ids_of(recs, ids, s)
}

/// At most one sequence lists a set in increasing order of `order_key`.
pub proof fn lemma_sorted_unique(recs: DeserializedRecord, ids: Set<i32>, s1: Seq<i32>, s2: Seq<i32>)
    requires
        sorted_ids_of(recs, ids, s1),
        sorted_ids_of(recs, ids, s2),
    ensures
        s1 == s2,
    decreases s1.len(),
{
    if s1.len() == 0 {
        if s2.len() > 0 {
            assert(s2.to_set().contains(s2[0]));
            assert(!s1.to_set().contains(s2[0]));
        }
        assert(s1 =~= s2);
    } else {
        assert(s1.to_set().contains(s1[0]));
        assert(s2.to_set().contains(s1[0]));
        let j = choose|j: int| 0 <= j < s2.len() && s2[j] == s1[0];
        assert(s2.to_set().contains(s2[0]));
        assert(s1.to_set().contains(s2[0]));
        let k = choose|k: int| 0 <= k < s1.len() && s1[k] == s2[0];
        if j > 0 {
            assert(key_lt(order_key(recs, s2[0]), order_key(recs, s2[j])));
            if k > 0 {
                assert(key_lt(order_key(recs, s1[0]), order_key(recs, s1[k])));
            }
        }
        assert(s1[0] == s2[0]);
        let x = s1[0];
        let t1 = s1.drop_first();
        let t2 = s2.drop_first();
        let rest = ids.remove(x);
        assert forall|y: i32| t1.to_set().contains(y) <==> rest.contains(y) by {
            if t1.to_set().contains(y) {
                let a = choose|a: int| 0 <= a < t1.len() && t1[a] == y;
                assert(s1[a + 1] == y);
                assert(key_lt(order_key(recs, s1[0]), order_key(recs, s1[a + 1])));
                assert(s1.to_set().contains(y));
            }
            if rest.contains(y) {
                assert(s1.to_set().contains(y));
                let a = choose|a: int| 0 <= a < s1.len() && s1[a] == y;
                assert(a != 0);
                assert(t1[a - 1] == y);
            }
        }
        assert forall|y: i32| t2.to_set().contains(y) <==> rest.contains(y) by {
            if t2.to_set().contains(y) {
                let a = choose|a: int| 0 <= a < t2.len() && t2[a] == y;
                assert(s2[a + 1] == y);
                assert(key_lt(order_key(recs, s2[0]), order_key(recs, s2[a + 1])));
                assert(s2.to_set().contains(y));
            }
            if rest.contains(y) {
                assert(s2.to_set().contains(y));
                let a = choose|a: int| 0 <= a < s2.len() && s2[a] == y;
                assert(a != 0);
                assert(t2[a - 1] == y);
            }
        }
        assert(t1.to_set() =~= rest);
        assert(t2.to_set() =~= rest);
        assert forall|a: int, b: int| 0 <= a < b < t1.len() implies key_lt(
            order_key(recs, #[trigger] t1[a]),
            order_key(recs, #[trigger] t1[b]),
        ) by {
            assert(t1[a] == s1[a + 1] && t1[b] == s1[b + 1]);
        }
        assert forall|a: int, b: int| 0 <= a < b < t2.len() implies key_lt(
            order_key(recs, #[trigger] t2[a]),
            order_key(recs, #[trigger] t2[b]),
        ) by {
            assert(t2[a] == s2[a + 1] && t2[b] == s2[b + 1]);
        }
        lemma_sorted_unique(recs, rest, t1, t2);
        assert(s1.len() == s2.len());
        assert forall|k: int| 0 <= k < s1.len() implies s1[k] == s2[k] by {
            if k > 0 {
                assert(s1[k] == t1[k - 1] && s2[k] == t2[k - 1]);
            }
        }
        assert(s1 =~= s2);
    }
}

/// A sequence that lists a set in order is the one `sorted_ids` names.
pub proof fn lemma_sorted_ids(recs: DeserializedRecord, ids: Set<i32>, s: Seq<i32>)
    requires
        sorted_ids_of(recs, ids, s),
    ensures
        sorted_ids(recs, ids) == s,
{
    let t = sorted_ids(recs, ids);
    assert(sorted_ids_of(recs, ids, t));
    lemma_sorted_unique(recs, ids, s, t);
}

proof fn lemma_insert_sorted(recs: DeserializedRecord, ids: Set<i32>, s: Seq<i32>, p: int, x: i32)
    requires
        sorted_ids_of(recs, ids, s),
        0 <= p <= s.len(),
        forall|q: int| 0 <= q < p ==> key_lt(order_key(recs, #[trigger] s[q]), order_key(recs, x)),
        p < s.len() ==> key_lt(order_key(recs, x), order_key(recs, s[p])),
    ensures
        sorted_ids_of(recs, ids.insert(x), s.insert(p, x)),
{
    let t = s.insert(p, x);
    assert forall|k: int| 0 <= k < t.len() implies t[k] == (if k < p { s[k] } else if k == p { x } else { s[k - 1] }) by {}
    assert forall|a: int, b: int| 0 <= a < b < t.len() implies key_lt(
        order_key(recs, #[trigger] t[a]),
        order_key(recs, #[trigger] t[b]),
    ) by {
        if a < p && b < p {
            assert(t[a] == s[a] && t[b] == s[b]);
        } else if a < p && b == p {
        } else if a < p {
            assert(t[b] == s[b - 1]);
            assert(key_lt(order_key(recs, s[a]), order_key(recs, x)));
            if p < s.len() {
                if b - 1 > p {
                    assert(key_lt(order_key(recs, s[p]), order_key(recs, s[b - 1])));
                }
            }
        } else if a == p {
            assert(t[b] == s[b - 1]);
            if b - 1 > p {
                assert(key_lt(order_key(recs, s[p]), order_key(recs, s[b - 1])));
            }
        } else {
            assert(t[a] == s[a - 1] && t[b] == s[b - 1]);
        }
    }
    assert forall|y: i32| t.to_set().contains(y) <==> ids.insert(x).contains(y) by {
        if t.to_set().contains(y) {
            let a = choose|a: int| 0 <= a < t.len() && t[a] == y;
            if a < p {
                assert(s[a] == y);
                assert(s.to_set().contains(y));
            } else if a > p {
                assert(s[a - 1] == y);
                assert(s.to_set().contains(y));
            }
        }
        if ids.insert(x).contains(y) {
            if y == x {
                assert(t[p] == x);
            } else {
                assert(s.to_set().contains(y));
                let a = choose|a: int| 0 <= a < s.len() && s[a] == y;
                if a < p {
                    assert(t[a] == y);
                } else {
                    assert(t[a + 1] == y);
                }
            }
        }
    }
    assert(t.to_set() =~= ids.insert(x));
}

pub proof fn lemma_take_to_set(s: Seq<i32>, i: int)
    requires
        0 <= i < s.len(),
    ensures
        s.take(i + 1).to_set() == s.take(i).to_set().insert(s[i]),
{
    let longer = s.take(i + 1);
    let shorter = s.take(i);
    assert forall|y: i32| longer.to_set().contains(y) <==> shorter.to_set().insert(s[i]).contains(y) by {
        if longer.to_set().contains(y) {
            let a = choose|a: int| 0 <= a < longer.len() && longer[a] == y;
            if a < i {
                assert(shorter[a] == y);
            }
        }
        if shorter.to_set().contains(y) {
            let a = choose|a: int| 0 <= a < shorter.len() && shorter[a] == y;
            assert(longer[a] == y);
        }
        if y == s[i] {
            assert(longer[i] == y);
        }
    }
    assert(longer.to_set() =~= shorter.to_set().insert(s[i]));
}

/// The key of record `id` (`usize::MAX` stands for "no metadata").
pub fn order_key_of(recs: &DeserializedRecord, id: i32) -> (k: (usize, i32))
    ensures
        (k.0 as int, k.1 as int) == order_key(*recs, id),
{
    match recs.record_metadata(id) {
        Some(m) => (m.start_offset, id),
        None => (usize::MAX, id),
    }
}

fn key_less(a: (usize, i32), b: (usize, i32)) -> (r: bool)
    ensures
        r == key_lt((a.0 as int, a.1 as int), (b.0 as int, b.1 as int)),
{
    a.0 < b.0 || (a.0 == b.0 && a.1 < b.1)
}

/// The ids of `ids`, each once, in increasing order of `order_key`.
pub fn sort_ids(recs: &DeserializedRecord, ids: &Vec<i32>) -> (r: Vec<i32>)
    ensures
        sorted_ids_of(*recs, ids@.to_set(), r@),
        r@ == sorted_ids(*recs, ids@.to_set()),
{
    let mut out: Vec<i32> = Vec::new();
    let mut i: usize = 0;
    assert(ids@.take(0).to_set() =~= Set::<i32>::empty());
    assert(out@.to_set() =~= Set::<i32>::empty());
    while i < ids.len()
        invariant
            i <= ids@.len(),
            sorted_ids_of(*recs, ids@.take(i as int).to_set(), out@),
        decreases ids@.len() - i,
    {
        let x = ids[i];
        let kx = order_key_of(recs, x);
        let mut p: usize = 0;
        while p < out.len() && key_less(order_key_of(recs, out[p]), kx)
            invariant
                p <= out@.len(),
                (kx.0 as int, kx.1 as int) == order_key(*recs, x),
                forall|q: int| 0 <= q < p ==> key_lt(order_key(*recs, #[trigger] out@[q]), order_key(*recs, x)),
            decreases out@.len() - p,
        {
            p = p + 1;
        }
        proof {
            lemma_take_to_set(ids@, i as int);
        }
        if p < out.len() && out[p] == x {
            assert(out@.to_set().contains(x));
            assert(ids@.take(i as int).to_set().insert(x) =~= ids@.take(i as int).to_set());
        } else {
            proof {
                lemma_insert_sorted(*recs, ids@.take(i as int).to_set(), out@, p as int, x);
            }
            out.insert(p, x);
        }
        i = i + 1;
    }
    assert(ids@.take(i as int) =~= ids@);
    proof {
        lemma_sorted_ids(*recs, ids@.to_set(), out@);
    }
    out
}

proof fn lemma_insert_position(recs: DeserializedRecord, s: Seq<i32>, x: i32) -> (p: int)
    requires
        forall|i: int, j: int|
            0 <= i < j < s.len() ==> key_lt(order_key(recs, #[trigger] s[i]), order_key(recs, #[trigger] s[j])),
        !s.contains(x),
    ensures
        0 <= p <= s.len(),
        forall|q: int| 0 <= q < p ==> key_lt(order_key(recs, #[trigger] s[q]), order_key(recs, x)),
        p < s.len() ==> key_lt(order_key(recs, x), order_key(recs, s[p])),
    decreases s.len(),
{
    if s.len() == 0 {
        0
    } else {
        let n = s.len() - 1;
        let last = s[n];
        assert(last != x);
        if key_lt(order_key(recs, last), order_key(recs, x)) {
            assert forall|q: int| 0 <= q < s.len() implies key_lt(order_key(recs, #[trigger] s[q]), order_key(recs, x)) by {
                if q < n {
                    assert(key_lt(order_key(recs, s[q]), order_key(recs, s[n])));
                }
            }
            s.len() as int
        } else {
            let t = s.drop_last();
            assert forall|i: int, j: int| 0 <= i < j < t.len() implies key_lt(
                order_key(recs, #[trigger] t[i]),
                order_key(recs, #[trigger] t[j]),
            ) by {
                assert(t[i] == s[i] && t[j] == s[j]);
            }
            assert(!t.contains(x)) by {
                if t.contains(x) {
                    let a = choose|a: int| 0 <= a < t.len() && t[a] == x;
                    assert(s[a] == x);
                }
            }
            let p = lemma_insert_position(recs, t, x);
            assert forall|q: int| 0 <= q < p implies key_lt(order_key(recs, #[trigger] s[q]), order_key(recs, x)) by {
                assert(t[q] == s[q]);
            }
            if p < t.len() {
                assert(t[p] == s[p]);
            }
            p
        }
    }
}

proof fn lemma_sorted_witness(recs: DeserializedRecord, ids: Set<i32>) -> (s: Seq<i32>)
    requires
        ids.finite(),
    ensures
        sorted_ids_of(recs, ids, s),
    decreases ids.len(),
{
    if ids.len() == 0 {
        assert(ids =~= Set::<i32>::empty());
        assert(Seq::<i32>::empty().to_set() =~= Set::<i32>::empty());
        Seq::empty()
    } else {
        let x = ids.choose();
        let rest = ids.remove(x);
        let t = lemma_sorted_witness(recs, rest);
        assert(!t.contains(x)) by {
            if t.contains(x) {
                assert(t.to_set().contains(x));
            }
        }
        let p = lemma_insert_position(recs, t, x);
        lemma_insert_sorted(recs, rest, t, p, x);
        assert(rest.insert(x) =~= ids);
        t.insert(p, x)
    }
}

/// A finite set of ids can be listed in increasing order of `order_key`.
pub proof fn lemma_sorted_ids_exist(recs: DeserializedRecord, ids: Set<i32>)
    requires
        ids.finite(),
    ensures
        sorted_ids_of(recs, ids, sorted_ids(recs, ids)),
{
    let s = lemma_sorted_witness(recs, ids);
    lemma_sorted_ids(recs, ids, s);
}

} // verus!
