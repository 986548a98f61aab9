//! Where the converter writes its output when no path is given: the input path
//! with its extension replaced (`save.dat` gives `save.json`, `save.json` gives
//! `save.dat`).
use crate::text::{chars_of, push_str, string_of, to_owned_string};
use vstd::prelude::*;
use vstd::string::*;

verus! {

/// Where the extension of the last path component begins among the first `i`
/// characters of `p`, scanning back from `i`: the last `.` of the file name,
/// unless it is the name's first character.
pub open spec fn extension_dot(p: Seq<char>, i: int) -> Option<int>
    decreases i,
{
    if i <= 0 || i > p.len() {
        None
    } else if p[i - 1] == '/' {
        None
    } else if p[i - 1] == '.' {
        if i - 1 >= 1 && p[i - 2] != '/' {
            Some(i - 1)
        } else {
            None
        }
    } else {
        extension_dot(p, i - 1)
    }
}

/// The path with its extension replaced by `ext` (which holds its dot), or
/// with `ext` appended when it has none.
pub open spec fn with_extension(p: Seq<char>, ext: Seq<char>) -> Seq<char> {
    match extension_dot(p, p.len() as int) {
        Some(k) => p.take(k) + ext,
        None => p + ext,
    }
}

/// The JSON output for an input path: its extension replaced by `.json`.
pub open spec fn json_output_of(input: Seq<char>) -> Seq<char> {
    with_extension(input, ".json"@)
}

/// The binary output for an input path: its extension replaced by `.dat`.
pub open spec fn binary_output_of(input: Seq<char>) -> Seq<char> {
    with_extension(input, ".dat"@)
}

/// Where the extension of `chars` begins, if it has one.
fn find_extension(chars: &Vec<char>) -> (r: Option<usize>)
    ensures
        r matches Some(k) ==> k < chars@.len() && extension_dot(chars@, chars@.len() as int) == Some(k as int),
        r is None ==> extension_dot(chars@, chars@.len() as int) is None,
{
    let n = chars.len();
    let mut i: usize = n;
    while i > 0 && chars[i - 1] != '/' && chars[i - 1] != '.'
        invariant
            i <= n,
            n == chars@.len(),
            extension_dot(chars@, n as int) == extension_dot(chars@, i as int),
        decreases i,
    {
        i = i - 1;
    }
    if i == 0 || chars[i - 1] == '/' {
        None
    } else if i >= 2 && chars[i - 2] != '/' {
        Some(i - 1)
    } else {
        None
    }
}

/// The path with its extension replaced by `ext`.
fn replace_extension(input: &str, ext: &str) -> (out: String)
    ensures
        out@ == with_extension(input@, ext@),
{
    let chars = chars_of(input);
    match find_extension(&chars) {
        Some(k) => {
            let mut out = string_of(&chars, 0, k);
            push_str(&mut out, ext);
            assert(input@.take(k as int) =~= chars@.subrange(0, k as int));
            out
        },
        None => {
            let mut out = to_owned_string(input);
            push_str(&mut out, ext);
            out
        },
    }
}

/// The JSON output for an input path.
pub fn default_json_output(input: &str) -> (out: String)
    ensures
        out@ == json_output_of(input@),
{
    replace_extension(input, ".json")
}

/// The binary output for an input path.
pub fn default_binary_output(input: &str) -> (out: String)
    ensures
        out@ == binary_output_of(input@),
{
    replace_extension(input, ".dat")
}

} // verus!
