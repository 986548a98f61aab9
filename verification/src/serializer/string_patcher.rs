//! How replacing a string changes the size of the record that holds it.
use crate::text::{int_text, push_int, push_str, str_eq, text_with_int};
use vstd::prelude::*;
use vstd::string::*;
use vstd::utf8::encode_utf8;

verus! {

/// How a string changed.
#[derive(Debug, Clone, Copy, PartialEq, Eq, Structural)]
pub enum StringChangeType {
    /// Its record got shorter.
    Shortened,
    /// Its record got longer.
    Lengthened,
    /// The text changed, the record's size did not.
    Modified,
    /// Nothing changed.
    Unchanged,
}

/// A planned replacement of the string in one record.
#[derive(Debug, Clone)]
pub struct StringPatchInfo {
    pub record_id: i32,
    pub old_value: String,
    pub new_value: String,
    pub change_type: StringChangeType,
    /// New record size minus old record size, in bytes.
    pub size_delta: isize,
}

/// Number of bytes of the 7-bit encoded length prefix for a string of `len` bytes.
pub open spec fn length_prefix_size(len: nat) -> nat {
    if len <= 0x7F {
        1
    } else if len <= 0x3FFF {
        2
    } else if len <= 0x1F_FFFF {
        3
    } else if len <= 0x0FFF_FFFF {
        4
    } else {
        5
    }
}

/// Size of a string as stored in a record: its length prefix and its UTF-8 bytes.
pub open spec fn string_record_size(s: Seq<char>) -> nat {
    length_prefix_size(encode_utf8(s).len()) + encode_utf8(s).len()
}

/// Whether the record size of `s` fits an `isize`.
pub open spec fn size_fits(s: Seq<char>) -> bool {
    string_record_size(s) <= isize::MAX
}

/// New record size minus old record size.
pub open spec fn size_delta_of(old: Seq<char>, new: Seq<char>) -> int {
    string_record_size(new) - string_record_size(old)
}

/// How replacing `old` by `new` changes the record.
pub open spec fn change_type_of(old: Seq<char>, new: Seq<char>) -> StringChangeType {
    if old == new {
        StringChangeType::Unchanged
    } else if string_record_size(new) < string_record_size(old) {
        StringChangeType::Shortened
    } else if string_record_size(new) > string_record_size(old) {
        StringChangeType::Lengthened
    } else {
        StringChangeType::Modified
    }
}

/// The line that describes a patch.
pub open spec fn diagnostic_text(id: i32, old: Seq<char>, new: Seq<char>, t: StringChangeType, delta: isize) -> Seq<char> {
    let old_size = string_record_size(old) as int;
    let new_size = string_record_size(new) as int;
    let head = "  • Record "@ + int_text(id as int);
    match t {
        StringChangeType::Unchanged => head + ": No change ('"@ + old + "', "@ + int_text(old_size) + " bytes)"@,
        StringChangeType::Shortened => head + ": Shortened '"@ + old + "' ("@ + int_text(old_size) + " bytes) → '"@
            + new + "' ("@ + int_text(new_size) + " bytes), Δ="@ + int_text(delta as int) + " bytes"@,
        StringChangeType::Lengthened => head + ": Lengthened '"@ + old + "' ("@ + int_text(old_size)
            + " bytes) → '"@ + new + "' ("@ + int_text(new_size) + " bytes), Δ=+"@ + int_text(
            if delta < 0 { -delta } else { delta as int },
        ) + " bytes"@,
        StringChangeType::Modified => if delta == 0 {
            head + ": Modified '"@ + old + "' → '"@ + new + "' (same size, "@ + int_text(new_size) + " bytes)"@
        } else {
            head + ": Modified '"@ + old + "' ("@ + int_text(old_size) + " bytes) → '"@ + new + "' ("@
                + int_text(new_size) + " bytes), Δ="@ + int_text(delta as int) + " bytes"@
        },
    }
}

/// The change type agrees with the sign of the size delta: a changed string is
/// shortened, lengthened or modified as its record shrinks, grows or keeps its size,
/// and an unchanged one keeps its size.
pub proof fn law_change_type_matches_delta(old: Seq<char>, new: Seq<char>)
    ensures
        change_type_of(old, new) == StringChangeType::Unchanged <==> old == new,
        old == new ==> size_delta_of(old, new) == 0,
        change_type_of(old, new) == StringChangeType::Shortened <==> (old != new && size_delta_of(old, new) < 0),
        change_type_of(old, new) == StringChangeType::Lengthened <==> (old != new && size_delta_of(old, new) > 0),
        change_type_of(old, new) == StringChangeType::Modified <==> (old != new && size_delta_of(old, new) == 0),
{
}

/// The size of a string stored in a record.
pub fn calculate_string_record_size(string_value: &str) -> (size: usize)
    requires
        encode_utf8(string_value@).len() + 5 <= usize::MAX,
    ensures
        size == string_record_size(string_value@),
{
    let length = string_value.len();
    let prefix_len: usize = if length <= 0x7F {
        1
    } else if length <= 0x3FFF {
        2
    } else if length <= 0x1F_FFFF {
        3
    } else if length <= 0x0FFF_FFFF {
        4
    } else {
        5
    };
    prefix_len + length
}

/// New record size minus old record size.
pub fn calculate_size_delta(old_str: &str, new_str: &str) -> (delta: isize)
    requires
        size_fits(old_str@),
        size_fits(new_str@),
    ensures
        delta == size_delta_of(old_str@, new_str@),
{
    let old_size = calculate_string_record_size(old_str);
    let new_size = calculate_string_record_size(new_str);
    new_size as isize - old_size as isize
}

/// How replacing `old_str` by `new_str` changes the record.
pub fn detect_change_type(old_str: &str, new_str: &str) -> (t: StringChangeType)
    requires
        size_fits(old_str@),
        size_fits(new_str@),
    ensures
        t == change_type_of(old_str@, new_str@),
{
    if str_eq(old_str, new_str) {
        StringChangeType::Unchanged
    } else {
        let old_size = calculate_string_record_size(old_str);
        let new_size = calculate_string_record_size(new_str);
        if new_size < old_size {
            StringChangeType::Shortened
        } else if new_size > old_size {
            StringChangeType::Lengthened
        } else {
            StringChangeType::Modified
        }
    }
}

impl StringPatchInfo {
    /// A patch replacing `old_value` by `new_value` in record `record_id`.
    pub fn new(record_id: i32, old_value: String, new_value: String) -> (p: Self)
        requires
            size_fits(old_value@),
            size_fits(new_value@),
        ensures
            p.record_id == record_id,
            p.old_value@ == old_value@,
            p.new_value@ == new_value@,
            p.change_type == change_type_of(old_value@, new_value@),
            p.size_delta == size_delta_of(old_value@, new_value@),
    {
        let size_delta = calculate_size_delta(old_value.as_str(), new_value.as_str());
        let change_type = detect_change_type(old_value.as_str(), new_value.as_str());
        StringPatchInfo { record_id, old_value, new_value, change_type, size_delta }
    }

    /// The line that describes this patch.
    pub fn diagnostic_message(&self) -> (s: String)
        requires
            size_fits(self.old_value@),
            size_fits(self.new_value@),
            self.size_delta > isize::MIN,
        ensures
            s@ == diagnostic_text(
                self.record_id,
                self.old_value@,
                self.new_value@,
                self.change_type,
                self.size_delta,
            ),
    {
        let old_size = calculate_string_record_size(self.old_value.as_str());
        let new_size = calculate_string_record_size(self.new_value.as_str());
        let mut s = text_with_int("  • Record ", self.record_id as i128);
        match self.change_type {
            StringChangeType::Unchanged => {
                push_str(&mut s, ": No change ('");
                push_str(&mut s, self.old_value.as_str());
                push_str(&mut s, "', ");
                push_int(&mut s, old_size as i128);
                push_str(&mut s, " bytes)");
            },
            StringChangeType::Shortened => {
                push_str(&mut s, ": Shortened '");
                push_str(&mut s, self.old_value.as_str());
                push_str(&mut s, "' (");
                push_int(&mut s, old_size as i128);
                push_str(&mut s, " bytes) → '");
                push_str(&mut s, self.new_value.as_str());
                push_str(&mut s, "' (");
                push_int(&mut s, new_size as i128);
                push_str(&mut s, " bytes), Δ=");
                push_int(&mut s, self.size_delta as i128);
                push_str(&mut s, " bytes");
            },
            StringChangeType::Lengthened => {
                push_str(&mut s, ": Lengthened '");
                push_str(&mut s, self.old_value.as_str());
                push_str(&mut s, "' (");
                push_int(&mut s, old_size as i128);
                push_str(&mut s, " bytes) → '");
                push_str(&mut s, self.new_value.as_str());
                push_str(&mut s, "' (");
                push_int(&mut s, new_size as i128);
                push_str(&mut s, " bytes), Δ=+");
                let magnitude: isize = if self.size_delta < 0 { -self.size_delta } else { self.size_delta };
                push_int(&mut s, magnitude as i128);
                push_str(&mut s, " bytes");
            },
            StringChangeType::Modified => {
                if self.size_delta == 0 {
                    push_str(&mut s, ": Modified '");
                    push_str(&mut s, self.old_value.as_str());
                    push_str(&mut s, "' → '");
                    push_str(&mut s, self.new_value.as_str());
                    push_str(&mut s, "' (same size, ");
                    push_int(&mut s, new_size as i128);
                    push_str(&mut s, " bytes)");
                } else {
                    push_str(&mut s, ": Modified '");
                    push_str(&mut s, self.old_value.as_str());
                    push_str(&mut s, "' (");
                    push_int(&mut s, old_size as i128);
                    push_str(&mut s, " bytes) → '");
                    push_str(&mut s, self.new_value.as_str());
                    push_str(&mut s, "' (");
                    push_int(&mut s, new_size as i128);
                    push_str(&mut s, " bytes), Δ=");
                    push_int(&mut s, self.size_delta as i128);
                    push_str(&mut s, " bytes");
                }
            },
        }
        s
    }
}

} // verus!
