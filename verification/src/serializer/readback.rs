//! The reader reads back each piece the writer writes: lengths, numbers,
//! strings and primitive values.
use crate::bytes::{encode_7bit, le_bytes, le_nat, lemma_le_roundtrip, lemma_pow256_values, pow128, pow256};
use crate::parser::{
    at, sp_7bit, sp_7bit_from, sp_array_single_primitive, sp_binary_library, sp_binary_object_string, sp_i32,
    sp_le, sp_primitive, sp_primitive_type, sp_primitives_acc, sp_string, with_record, PState,
};
use crate::records::{primitive_type_of, PrimitiveType, PrimitiveV, RecordV};
use crate::serializer::encoding::{enc_i32, enc_primitive, enc_string, primitive_fits, primitive_type_code, string_fits};
use crate::serializer::{enc_primitives, lemma_prefix_append, lemma_prefix_trans};
use crate::serializer::sizes::lemma_7bit_len;
use vstd::prelude::*;
use vstd::utf8::{encode_utf8, encode_utf8_decode_utf8, encode_utf8_valid_utf8};

verus! {

/// `b` holds `piece` at `pos`.
pub open spec fn holds_at(b: Seq<u8>, pos: int, piece: Seq<u8>) -> bool {
    &&& 0 <= pos
    &&& pos + piece.len() <= b.len()
    &&& b.subrange(pos, pos + piece.len()) == piece
}

pub proof fn lemma_holds_split(b: Seq<u8>, pos: int, x: Seq<u8>, y: Seq<u8>)
    requires
        holds_at(b, pos, x + y),
    ensures
        holds_at(b, pos, x),
        holds_at(b, pos + x.len(), y),
{
    let whole = b.subrange(pos, pos + x.len() + y.len());
    assert(whole == x + y);
    assert(b.subrange(pos, pos + x.len()) =~= whole.subrange(0, x.len() as int));
    assert(whole.subrange(0, x.len() as int) =~= x);
    assert(b.subrange(pos + x.len(), pos + x.len() + y.len()) =~= whole.subrange(x.len() as int, whole.len() as int));
    assert(whole.subrange(x.len() as int, whole.len() as int) =~= y);
}

proof fn lemma_7bit_from(b: Seq<u8>, pos: int, i: nat, acc: nat, m: nat)
    requires
        i + encode_7bit(m).len() <= 5,
        holds_at(b, pos + i, encode_7bit(m)),
    ensures
        sp_7bit_from(b, pos, i, acc) == Ok::<(nat, int), Seq<char>>((acc + m * pow128(i), pos + i + encode_7bit(m).len())),
    decreases m,
{
    let e = encode_7bit(m);
    assert(b[pos + i] == b.subrange(pos + i, pos + i + e.len())[0]);
    if m < 128 {
        assert(e == seq![m as u8]);
    } else {
        let rest = encode_7bit(m / 128);
        assert(e == seq![(m % 128 + 128) as u8] + rest);
        lemma_holds_split(b, pos + i, seq![(m % 128 + 128) as u8], rest);
        lemma_7bit_from(b, pos, i + 1, acc + (m % 128) * pow128(i), m / 128);
        assert(pow128(i + 1) == 128 * pow128(i));
        assert(acc + (m % 128) * pow128(i) + (m / 128) * (128 * pow128(i)) == acc + m * pow128(i)) by (nonlinear_arith)
            requires
                m == 128 * (m / 128) + m % 128,
        ;
    }
}

/// The reader reads back a length prefix the writer wrote.
pub proof fn lemma_7bit_readback(b: Seq<u8>, pos: int, n: nat)
    requires
        n <= 0x7FFF_FFFF,
        holds_at(b, pos, encode_7bit(n)),
    ensures
        sp_7bit(b, pos) == Ok::<(nat, int), Seq<char>>((n, pos + encode_7bit(n).len())),
{
    lemma_7bit_len(n);
    lemma_7bit_from(b, pos, 0, 0, n);
    assert(pow128(0) == 1);
}

/// The reader reads back a string the writer wrote.
pub proof fn lemma_string_readback(b: Seq<u8>, pos: int, s: Seq<char>)
    requires
        string_fits(s),
        holds_at(b, pos, enc_string(s)),
    ensures
        sp_string(b, pos) == Ok::<(Seq<char>, int), Seq<char>>((s, pos + enc_string(s).len())),
{
    let bytes = encode_utf8(s);
    lemma_holds_split(b, pos, encode_7bit(bytes.len()), bytes);
    lemma_7bit_readback(b, pos, bytes.len());
    encode_utf8_valid_utf8(s);
    encode_utf8_decode_utf8(s);
}

/// The reader reads back `n` little-endian bytes the writer wrote.
pub proof fn lemma_le_readback(b: Seq<u8>, pos: int, v: nat, n: nat, what: Seq<char>)
    requires
        v < pow256(n),
        holds_at(b, pos, le_bytes(v, n)),
    ensures
        sp_le(b, pos, n as int, what) == Ok::<(nat, int), Seq<char>>((v, pos + n)),
        le_bytes(v, n).len() == n,
{
    lemma_le_roundtrip(v, n);
}

/// A primitive reads back as itself: its strings can be written and a `Char`
/// fits one UTF-16 code unit (a wider one is written as `?`).
pub open spec fn primitive_reads_back(p: PrimitiveV) -> bool {
    &&& primitive_fits(p)
    &&& (p matches PrimitiveV::Char(c) ==> (c as u32) <= 0xFFFF)
}

/// The reader reads back a primitive value the writer wrote.
#[verifier::rlimit(50)]
pub proof fn lemma_primitive_readback(b: Seq<u8>, pos: int, p: PrimitiveV)
    requires
        primitive_reads_back(p),
        holds_at(b, pos, enc_primitive(p)),
    ensures
        sp_primitive(b, pos, primitive_type_of(p)) == Ok::<(PrimitiveV, int), Seq<char>>(
            (p, pos + enc_primitive(p).len()),
        ),
{
    lemma_pow256_values();
    match p {
        PrimitiveV::Boolean(v) => {
            assert(b[pos] == b.subrange(pos, pos + 1)[0]);
            assert(b[pos] == enc_primitive(p)[0]);
            assert(sp_primitive(b, pos, primitive_type_of(p)) == Ok::<(PrimitiveV, int), Seq<char>>((p, pos + enc_primitive(p).len())));
        },
        PrimitiveV::Byte(v) => {
            assert(b[pos] == b.subrange(pos, pos + 1)[0]);
            assert(b[pos] == enc_primitive(p)[0]);
            assert(sp_primitive(b, pos, primitive_type_of(p)) == Ok::<(PrimitiveV, int), Seq<char>>((p, pos + enc_primitive(p).len())));
        },
        PrimitiveV::Int8(v) => {
            assert(b[pos] == b.subrange(pos, pos + 1)[0]);
            assert(b[pos] == enc_primitive(p)[0]);
            assert(le_nat(b.subrange(pos, pos + 1)) == b[pos] as nat) by {
                reveal_with_fuel(le_nat, 2);
                assert(b.subrange(pos, pos + 1).drop_first() =~= Seq::<u8>::empty());
            }
            assert(((v as u8) as i8) == v) by (bit_vector);
            assert(sp_primitive(b, pos, primitive_type_of(p)) == Ok::<(PrimitiveV, int), Seq<char>>((p, pos + enc_primitive(p).len())));
        },
        PrimitiveV::Char(c) => {
            lemma_le_readback(b, pos, (c as u32) as nat, 2, "u16"@);
            assert(((c as u32) as nat) as u32 == c as u32);
            assert((((c as u32) as nat) as u32) as char == c);
            assert(sp_primitive(b, pos, primitive_type_of(p)) == Ok::<(PrimitiveV, int), Seq<char>>((p, pos + enc_primitive(p).len())));
        },
        PrimitiveV::Decimal(s) => {
            lemma_string_readback(b, pos, s);
            assert(sp_primitive(b, pos, primitive_type_of(p)) == Ok::<(PrimitiveV, int), Seq<char>>((p, pos + enc_primitive(p).len())));
        },
        PrimitiveV::String(s) => {
            lemma_string_readback(b, pos, s);
            assert(sp_primitive(b, pos, primitive_type_of(p)) == Ok::<(PrimitiveV, int), Seq<char>>((p, pos + enc_primitive(p).len())));
        },
        PrimitiveV::Double(v) => {
            lemma_le_readback(b, pos, v as nat, 8, "f64"@);
            assert(sp_primitive(b, pos, primitive_type_of(p)) == Ok::<(PrimitiveV, int), Seq<char>>((p, pos + enc_primitive(p).len())));
        },
        PrimitiveV::Single(v) => {
            lemma_le_readback(b, pos, v as nat, 4, "f32"@);
            assert(sp_primitive(b, pos, primitive_type_of(p)) == Ok::<(PrimitiveV, int), Seq<char>>((p, pos + enc_primitive(p).len())));
        },
        PrimitiveV::Int16(v) => {
            lemma_le_readback(b, pos, (v as u16) as nat, 2, "i16"@);
            assert(((v as u16) as i16) == v) by (bit_vector);
            assert(sp_primitive(b, pos, primitive_type_of(p)) == Ok::<(PrimitiveV, int), Seq<char>>((p, pos + enc_primitive(p).len())));
        },
        PrimitiveV::Int32(v) => {
            lemma_le_readback(b, pos, (v as u32) as nat, 4, "i32"@);
            assert(((v as u32) as i32) == v) by (bit_vector);
            assert(sp_primitive(b, pos, primitive_type_of(p)) == Ok::<(PrimitiveV, int), Seq<char>>((p, pos + enc_primitive(p).len())));
        },
        PrimitiveV::Int64(v) => {
            lemma_le_readback(b, pos, (v as u64) as nat, 8, "i64"@);
            assert(((v as u64) as i64) == v) by (bit_vector);
            assert(sp_primitive(b, pos, primitive_type_of(p)) == Ok::<(PrimitiveV, int), Seq<char>>((p, pos + enc_primitive(p).len())));
        },
        PrimitiveV::TimeSpan(v) => {
            lemma_le_readback(b, pos, (v as u64) as nat, 8, "i64"@);
            assert(((v as u64) as i64) == v) by (bit_vector);
            assert(sp_primitive(b, pos, primitive_type_of(p)) == Ok::<(PrimitiveV, int), Seq<char>>((p, pos + enc_primitive(p).len())));
        },
        PrimitiveV::DateTime(v) => {
            lemma_le_readback(b, pos, (v as u64) as nat, 8, "i64"@);
            assert(((v as u64) as i64) == v) by (bit_vector);
            assert(sp_primitive(b, pos, primitive_type_of(p)) == Ok::<(PrimitiveV, int), Seq<char>>((p, pos + enc_primitive(p).len())));
        },
        PrimitiveV::UInt16(v) => {
            lemma_le_readback(b, pos, v as nat, 2, "u16"@);
            assert(sp_primitive(b, pos, primitive_type_of(p)) == Ok::<(PrimitiveV, int), Seq<char>>((p, pos + enc_primitive(p).len())));
        },
        PrimitiveV::UInt32(v) => {
            lemma_le_readback(b, pos, v as nat, 4, "u32"@);
            assert(sp_primitive(b, pos, primitive_type_of(p)) == Ok::<(PrimitiveV, int), Seq<char>>((p, pos + enc_primitive(p).len())));
        },
        PrimitiveV::UInt64(v) => {
            lemma_le_readback(b, pos, v as nat, 8, "u64"@);
            assert(sp_primitive(b, pos, primitive_type_of(p)) == Ok::<(PrimitiveV, int), Seq<char>>((p, pos + enc_primitive(p).len())));
        },
        PrimitiveV::Null => {
            assert(sp_primitive(b, pos, primitive_type_of(p)) == Ok::<(PrimitiveV, int), Seq<char>>((p, pos + enc_primitive(p).len())));
        },
    }
}

pub proof fn lemma_holds_prefix(b: Seq<u8>, pos: int, x: Seq<u8>, y: Seq<u8>)
    requires
        holds_at(b, pos, y),
        x.is_prefix_of(y),
    ensures
        holds_at(b, pos, x),
{
    assert(b.subrange(pos, pos + x.len()) =~= y.subrange(0, x.len() as int));
}

/// The reader reads back an `i32` the writer wrote.
pub proof fn lemma_i32_readback(b: Seq<u8>, pos: int, v: i32)
    requires
        holds_at(b, pos, enc_i32(v)),
    ensures
        sp_i32(b, pos) == Ok::<(i32, int), Seq<char>>((v, pos + 4)),
        enc_i32(v).len() == 4,
{
    lemma_pow256_values();
    lemma_le_readback(b, pos, (v as u32) as nat, 4, "i32"@);
    assert(((v as u32) as i32) == v) by (bit_vector);
}

/// The reader reads back a primitive type code the writer wrote.
pub proof fn lemma_primitive_type_readback(b: Seq<u8>, pos: int, t: PrimitiveType)
    requires
        holds_at(b, pos, seq![primitive_type_code(t)]),
    ensures
        sp_primitive_type(b, pos) == Ok::<(PrimitiveType, int), Seq<char>>((t, pos + 1)),
{
    assert(b[pos] == b.subrange(pos, pos + 1)[0]);
}

proof fn lemma_enc_primitives_prefix(vals: Seq<PrimitiveV>, k: int)
    requires
        0 <= k <= vals.len(),
    ensures
        enc_primitives(vals.take(k)).is_prefix_of(enc_primitives(vals)),
    decreases vals.len() - k,
{
    if k < vals.len() {
        assert(vals.take(k + 1).drop_last() =~= vals.take(k));
        lemma_prefix_append(enc_primitives(vals.take(k)), enc_primitive(vals[k]));
        lemma_enc_primitives_prefix(vals, k + 1);
        lemma_prefix_trans(enc_primitives(vals.take(k)), enc_primitives(vals.take(k + 1)), enc_primitives(vals));
    } else {
        assert(vals.take(k) =~= vals);
        lemma_prefix_append(enc_primitives(vals), Seq::empty());
        assert(enc_primitives(vals) + Seq::<u8>::empty() =~= enc_primitives(vals));
    }
}

proof fn lemma_primitives_acc_readback(b: Seq<u8>, pos: int, t: PrimitiveType, vals: Seq<PrimitiveV>, k: int)
    requires
        0 <= k <= vals.len(),
        holds_at(b, pos, enc_primitives(vals)),
        forall|i: int| 0 <= i < vals.len() ==> primitive_type_of(#[trigger] vals[i]) == t && primitive_reads_back(vals[i]),
    ensures
        sp_primitives_acc(b, pos + enc_primitives(vals.take(k)).len(), t, (vals.len() - k) as nat, vals.take(k))
            == Ok::<(Seq<PrimitiveV>, int), Seq<char>>((vals, pos + enc_primitives(vals).len())),
    decreases vals.len() - k,
{
    if k < vals.len() {
        let head = enc_primitives(vals.take(k));
        let next = enc_primitives(vals.take(k + 1));
        assert(vals.take(k + 1).drop_last() =~= vals.take(k));
        assert(next == head + enc_primitive(vals[k]));
        lemma_enc_primitives_prefix(vals, k + 1);
        lemma_holds_prefix(b, pos, next, enc_primitives(vals));
        lemma_holds_split(b, pos, head, enc_primitive(vals[k]));
        lemma_primitive_readback(b, pos + head.len(), vals[k]);
        assert(vals.take(k).push(vals[k]) =~= vals.take(k + 1));
        lemma_primitives_acc_readback(b, pos, t, vals, k + 1);
    } else {
        assert(vals.take(k) =~= vals);
    }
}

/// The reader reads back a string record the writer wrote (after its type byte).
pub proof fn law_string_record_readback(b: Seq<u8>, s: PState, id: i32, v: Seq<char>)
    requires
        string_fits(v),
        holds_at(b, s.pos, enc_i32(id) + enc_string(v)),
    ensures
        sp_binary_object_string(b, s) == Ok::<(i32, PState), Seq<char>>(
            (id, with_record(at(s, s.pos + 4 + enc_string(v).len()), id, RecordV::String(v))),
        ),
{
    lemma_holds_split(b, s.pos, enc_i32(id), enc_string(v));
    lemma_i32_readback(b, s.pos, id);
    lemma_string_readback(b, s.pos + 4, v);
}

/// The reader reads back a library record the writer wrote (after its type byte).
pub proof fn law_library_record_readback(b: Seq<u8>, s: PState, id: i32, v: Seq<char>)
    requires
        string_fits(v),
        holds_at(b, s.pos, enc_i32(id) + enc_string(v)),
    ensures
        sp_binary_library(b, s) == Ok::<(i32, PState), Seq<char>>(
            (id, with_record(at(s, s.pos + 4 + enc_string(v).len()), id, RecordV::BinaryLibrary(v))),
        ),
{
    lemma_holds_split(b, s.pos, enc_i32(id), enc_string(v));
    lemma_i32_readback(b, s.pos, id);
    lemma_string_readback(b, s.pos + 4, v);
}

/// The reader reads back a primitive array record the writer wrote (after its
/// type byte), when its items are of its type and each reads back.
pub proof fn law_primitive_array_readback(b: Seq<u8>, s: PState, id: i32, t: PrimitiveType, vals: Seq<PrimitiveV>)
    requires
        vals.len() <= i32::MAX,
        forall|i: int| 0 <= i < vals.len() ==> primitive_type_of(#[trigger] vals[i]) == t && primitive_reads_back(vals[i]),
        holds_at(b, s.pos, enc_i32(id) + enc_i32(vals.len() as i32) + seq![primitive_type_code(t)] + enc_primitives(vals)),
    ensures
        sp_array_single_primitive(b, s) == Ok::<(i32, PState), Seq<char>>(
            (
                id,
                with_record(at(s, s.pos + 9 + enc_primitives(vals).len()), id, RecordV::PrimitiveArray(t, vals)),
            ),
        ),
{
    let a = enc_i32(id);
    let c = enc_i32(vals.len() as i32);
    let d = seq![primitive_type_code(t)];
    let e = enc_primitives(vals);
    assert(a + c + d + e =~= a + (c + (d + e)));
    lemma_holds_split(b, s.pos, a, c + (d + e));
    lemma_i32_readback(b, s.pos, id);
    lemma_holds_split(b, s.pos + 4, c, d + e);
    lemma_i32_readback(b, s.pos + 4, vals.len() as i32);
    lemma_holds_split(b, s.pos + 8, d, e);
    lemma_primitive_type_readback(b, s.pos + 8, t);
    lemma_primitives_acc_readback(b, s.pos + 9, t, vals, 0);
    assert(vals.take(0) =~= Seq::<PrimitiveV>::empty());
}

} // verus!
