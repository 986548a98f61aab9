//! How many bytes each piece of a record takes once written.
use crate::bytes::{encode_7bit, lemma_le_bytes_len};
use crate::records::{MemberTypeV, MemberV, PrimitiveV};
use crate::serializer::encoding::{enc_primitive, enc_string, primitive_fits, string_fits};
use crate::serializer::string_patcher::{length_prefix_size, string_record_size};
use crate::text::int_text;
use vstd::prelude::*;
use vstd::utf8::encode_utf8;

verus! {

/// The size of a primitive written without its type.
pub open spec fn primitive_size(p: PrimitiveV) -> nat {
    match p {
        PrimitiveV::Boolean(_) | PrimitiveV::Byte(_) | PrimitiveV::Int8(_) => 1,
        PrimitiveV::Char(_) | PrimitiveV::Int16(_) | PrimitiveV::UInt16(_) => 2,
        PrimitiveV::Int32(_) | PrimitiveV::UInt32(_) | PrimitiveV::Single(_) => 4,
        PrimitiveV::Int64(_) | PrimitiveV::UInt64(_) | PrimitiveV::Double(_) | PrimitiveV::TimeSpan(_)
        | PrimitiveV::DateTime(_) => 8,
        PrimitiveV::Decimal(s) | PrimitiveV::String(s) => string_record_size(s),
        PrimitiveV::Null => 0,
    }
}

/// The size of a member of declared type `t` written as a reference or inline
/// value, or the refusal the writer gives for it.
pub open spec fn member_size(m: MemberV, t: MemberTypeV) -> Result<nat, Seq<char>> {
    if t is Primitive {
        match m {
            MemberV::Primitive(p) => Ok(primitive_size(p)),
            _ => Err("Non primitive member for primitive field"@),
        }
    } else {
        match m {
            MemberV::Primitive(p) => Ok(2 + primitive_size(p)),
            MemberV::Reference(_) => Ok(5),
            MemberV::Null => Ok(1),
            MemberV::NullMultiple(c) => if c <= 0 {
                Err("NullMultiple count must be positive, got "@ + int_text(c as int))
            } else if c <= 0xFF {
                Ok(2)
            } else {
                Ok(5)
            },
        }
    }
}

/// The length prefix of a string that can be written has the size `length_prefix_size` gives.
pub proof fn lemma_7bit_len(n: nat)
    requires
        n <= 0x7FFF_FFFF,
    ensures
        encode_7bit(n).len() == length_prefix_size(n),
{
    reveal_with_fuel(encode_7bit, 5);
    if n >= 128 {
        assert(n / 128 < 0x100_0000);
        if n / 128 >= 128 {
            assert(n / 128 / 128 < 0x2_0000);
            if n / 128 / 128 >= 128 {
                assert(n / 128 / 128 / 128 < 0x400);
                if n / 128 / 128 / 128 >= 128 {
                    assert(n / 128 / 128 / 128 / 128 < 8);
                }
            }
        }
    }
}

/// The size a string is counted at is the length of its encoding.
pub proof fn lemma_string_size_is_encoding_len(s: Seq<char>)
    requires
        string_fits(s),
    ensures
        enc_string(s).len() == string_record_size(s),
{
    lemma_7bit_len(encode_utf8(s).len());
}

/// The size a primitive is counted at is the length of its encoding.
pub proof fn lemma_primitive_size_is_encoding_len(p: PrimitiveV)
    requires
        primitive_fits(p),
    ensures
        enc_primitive(p).len() == primitive_size(p),
{
    match p {
        PrimitiveV::Decimal(s) => lemma_string_size_is_encoding_len(s),
        PrimitiveV::String(s) => lemma_string_size_is_encoding_len(s),
        PrimitiveV::Char(c) => {
            lemma_le_bytes_len(63, 2);
            lemma_le_bytes_len((c as u32) as nat, 2);
        },
        PrimitiveV::Double(b) => lemma_le_bytes_len(b as nat, 8),
        PrimitiveV::Int16(v) => lemma_le_bytes_len((v as u16) as nat, 2),
        PrimitiveV::Int32(v) => lemma_le_bytes_len((v as u32) as nat, 4),
        PrimitiveV::Int64(v) => lemma_le_bytes_len((v as u64) as nat, 8),
        PrimitiveV::Single(b) => lemma_le_bytes_len(b as nat, 4),
        PrimitiveV::TimeSpan(v) => lemma_le_bytes_len((v as u64) as nat, 8),
        PrimitiveV::DateTime(v) => lemma_le_bytes_len((v as u64) as nat, 8),
        PrimitiveV::UInt16(v) => lemma_le_bytes_len(v as nat, 2),
        PrimitiveV::UInt32(v) => lemma_le_bytes_len(v as nat, 4),
        PrimitiveV::UInt64(v) => lemma_le_bytes_len(v as nat, 8),
        _ => {},
    }
}

} // verus!
