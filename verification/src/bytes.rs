//! Little-endian integers and 7-bit encoded lengths, as the binary format
//! stores them; the byte-order work itself is `byteorder`'s.
use byteorder::{ByteOrder, LittleEndian, WriteBytesExt};
use vstd::prelude::*;

verus! {

/// `256` to the power `n`.
pub open spec fn pow256(n: nat) -> nat
    decreases n,
{
    if n == 0 {
        1
    } else {
        256 * pow256((n - 1) as nat)
    }
}

/// The unsigned value of bytes read in little-endian order.
pub open spec fn le_nat(b: Seq<u8>) -> nat
    decreases b.len(),
{
    if b.len() == 0 {
        0
    } else {
        b[0] as nat + 256 * le_nat(b.drop_first())
    }
}

/// The `n` low bytes of `v`, least significant first.
pub open spec fn le_bytes(v: nat, n: nat) -> Seq<u8>
    decreases n,
{
    if n == 0 {
        seq![]
    } else {
        seq![(v % 256) as u8] + le_bytes(v / 256, (n - 1) as nat)
    }
}

pub proof fn lemma_le_bytes_len(v: nat, n: nat)
    ensures
        #[trigger] le_bytes(v, n).len() == n,
    decreases n,
{
    if n > 0 {
        lemma_le_bytes_len(v / 256, (n - 1) as nat);
    }
}

/// Reading back `n` written bytes gives the value, when it fits in them.
pub proof fn lemma_le_roundtrip(v: nat, n: nat)
    requires
        v < pow256(n),
    ensures
        le_nat(le_bytes(v, n)) == v,
        le_bytes(v, n).len() == n,
    decreases n,
{
    lemma_le_bytes_len(v, n);
    if n > 0 {
        let p = pow256((n - 1) as nat);
        assert(v / 256 < p) by (nonlinear_arith)
            requires
                v < 256 * p,
        ;
        lemma_le_roundtrip(v / 256, (n - 1) as nat);
        assert(le_bytes(v, n).drop_first() =~= le_bytes(v / 256, (n - 1) as nat));
        assert(v == v % 256 + 256 * (v / 256)) by (nonlinear_arith);
    }
}

/// The little-endian value of bytes is below `256` to the power of their count.
pub proof fn lemma_le_nat_bound(b: Seq<u8>)
    ensures
        le_nat(b) < pow256(b.len()),
    decreases b.len(),
{
    if b.len() > 0 {
        lemma_le_nat_bound(b.drop_first());
        let p = pow256((b.len() - 1) as nat);
        let r = le_nat(b.drop_first());
        let x = b[0] as nat;
        assert(x + 256 * r < 256 * p) by (nonlinear_arith)
            requires
                r < p,
                x < 256,
        ;
    }
}

pub proof fn lemma_pow256_values()
    ensures
        pow256(1) == 0x100,
        pow256(2) == 0x1_0000,
        pow256(4) == 0x1_0000_0000,
        pow256(8) == 0x1_0000_0000_0000_0000,
{
    reveal_with_fuel(pow256, 9);
}

/// `LittleEndian::read_u16` on the two bytes at `pos`.
#[verifier::external_body]
pub(crate) fn read_u16_le(bytes: &[u8], pos: usize) -> (r: u16)
    requires
        pos + 2 <= bytes@.len(),
    ensures
        r as nat == le_nat(bytes@.subrange(pos as int, pos + 2)),
{
    LittleEndian::read_u16(&bytes[pos..])
}

/// `LittleEndian::read_u32` on the four bytes at `pos`.
#[verifier::external_body]
pub(crate) fn read_u32_le(bytes: &[u8], pos: usize) -> (r: u32)
    requires
        pos + 4 <= bytes@.len(),
    ensures
        r as nat == le_nat(bytes@.subrange(pos as int, pos + 4)),
{
    LittleEndian::read_u32(&bytes[pos..])
}

/// `LittleEndian::read_i32` on the four bytes at `pos`: their unsigned value as a
/// two's complement `i32`.
#[verifier::external_body]
pub(crate) fn read_i32_le(bytes: &[u8], pos: usize) -> (r: i32)
    requires
        pos + 4 <= bytes@.len(),
    ensures
        r == (le_nat(bytes@.subrange(pos as int, pos + 4)) as u32) as i32,
{
    LittleEndian::read_i32(&bytes[pos..])
}

/// `LittleEndian::read_u64` on the eight bytes at `pos`.
#[verifier::external_body]
pub(crate) fn read_u64_le(bytes: &[u8], pos: usize) -> (r: u64)
    requires
        pos + 8 <= bytes@.len(),
    ensures
        r as nat == le_nat(bytes@.subrange(pos as int, pos + 8)),
{
    LittleEndian::read_u64(&bytes[pos..])
}

/// `WriteBytesExt::write_u8` on a `Vec<u8>`: appends the byte (writing to a
/// vector does not fail).
#[verifier::external_body]
pub(crate) fn write_u8(out: &mut Vec<u8>, n: u8)
    ensures
        final(out)@ == old(out)@.push(n),
{
    out.write_u8(n).unwrap()
}

/// `WriteBytesExt::write_i8` on a `Vec<u8>`: appends the byte of `n`.
#[verifier::external_body]
pub(crate) fn write_i8(out: &mut Vec<u8>, n: i8)
    ensures
        final(out)@ == old(out)@.push(n as u8),
{
    out.write_i8(n).unwrap()
}

/// `WriteBytesExt::write_u16::<LittleEndian>` on a `Vec<u8>`.
#[verifier::external_body]
pub(crate) fn write_u16_le(out: &mut Vec<u8>, n: u16)
    ensures
        final(out)@ == old(out)@ + le_bytes(n as nat, 2),
{
    out.write_u16::<LittleEndian>(n).unwrap()
}

/// `WriteBytesExt::write_i16::<LittleEndian>` on a `Vec<u8>`: the bytes of the
/// two's complement of `n`.
#[verifier::external_body]
pub(crate) fn write_i16_le(out: &mut Vec<u8>, n: i16)
    ensures
        final(out)@ == old(out)@ + le_bytes((n as u16) as nat, 2),
{
    out.write_i16::<LittleEndian>(n).unwrap()
}

/// `WriteBytesExt::write_u32::<LittleEndian>` on a `Vec<u8>`.
#[verifier::external_body]
pub(crate) fn write_u32_le(out: &mut Vec<u8>, n: u32)
    ensures
        final(out)@ == old(out)@ + le_bytes(n as nat, 4),
{
    out.write_u32::<LittleEndian>(n).unwrap()
}

/// `WriteBytesExt::write_i32::<LittleEndian>` on a `Vec<u8>`: the bytes of the
/// two's complement of `n`.
#[verifier::external_body]
pub(crate) fn write_i32_le(out: &mut Vec<u8>, n: i32)
    ensures
        final(out)@ == old(out)@ + le_bytes((n as u32) as nat, 4),
{
    out.write_i32::<LittleEndian>(n).unwrap()
}

/// `WriteBytesExt::write_u64::<LittleEndian>` on a `Vec<u8>`.
#[verifier::external_body]
pub(crate) fn write_u64_le(out: &mut Vec<u8>, n: u64)
    ensures
        final(out)@ == old(out)@ + le_bytes(n as nat, 8),
{
    out.write_u64::<LittleEndian>(n).unwrap()
}

/// `WriteBytesExt::write_i64::<LittleEndian>` on a `Vec<u8>`: the bytes of the
/// two's complement of `n`.
#[verifier::external_body]
pub(crate) fn write_i64_le(out: &mut Vec<u8>, n: i64)
    ensures
        final(out)@ == old(out)@ + le_bytes((n as u64) as nat, 8),
{
    out.write_i64::<LittleEndian>(n).unwrap()
}

/// `128` to the power `n`.
pub open spec fn pow128(n: nat) -> nat
    decreases n,
{
    if n == 0 {
        1
    } else {
        128 * pow128((n - 1) as nat)
    }
}

/// The 7-bit encoding of a length: seven bits per byte, least significant
/// group first, the high bit set on every byte but the last.
pub open spec fn encode_7bit(n: nat) -> Seq<u8>
    decreases n,
{
    if n < 128 {
        seq![n as u8]
    } else {
        seq![(n % 128 + 128) as u8] + encode_7bit(n / 128)
    }
}

} // verus!
