//! The guard on the size of tool-call parameters.
use vstd::prelude::*;

use crate::render::{decimal, decimal_string};
use crate::text::push_str;

verus! {

/// Fallback maximum byte length of a tool-call parameter.
pub const MAX_PARAM_LEN: usize = 8192;

/// The error for an oversized parameter.
pub open spec fn too_long_message(key: Seq<char>, max_len: nat) -> Seq<char> {
    "parameter '"@ + key + "' exceeds maximum length of "@ + decimal(max_len) + " bytes"@
}

/// A tool-call parameter value, as far as its size goes: a string, a nested
/// object or array held as its compact JSON text (what `serde_json::to_string`
/// writes for it), or any other value (number, boolean, null).
#[derive(Debug)]
pub enum ParamValue {
    Text(String),
    Nested(String),
    Other,
}

/// The size of a parameter in bytes: the UTF-8 length of a string or of a
/// nested value's JSON text, 0 for other values.
pub open spec fn param_size(v: ParamValue) -> int {
    match v {
        ParamValue::Text(s) => (vstd::utf8::encode_utf8(s@).len() as usize) as int,
        ParamValue::Nested(j) => (vstd::utf8::encode_utf8(j@).len() as usize) as int,
        ParamValue::Other => 0,
    }
}

/// The size of a parameter in bytes (see `param_size`).
pub fn param_size_of(v: &ParamValue) -> (r: usize)
    ensures
        r == param_size(*v),
{
    match v {
        ParamValue::Text(s) => s.as_str().len(),
        ParamValue::Nested(j) => j.as_str().len(),
        ParamValue::Other => 0,
    }
}

/// The first parameter at or after `i` whose size exceeds `max_len`.
pub open spec fn first_too_long(args: Seq<(String, ParamValue)>, max_len: usize, i: int) -> Option<int>
    decreases args.len() - i,
{
    if i < 0 || i >= args.len() {
        None
    } else if param_size(args[i].1) > max_len {
        Some(i)
    } else {
        first_too_long(args, max_len, i + 1)
    }
}

/// Reject a call when one of its parameters is larger than `max_len` bytes:
/// a string by its length in bytes, a nested object or array by the length
/// of its JSON text; other values are never too large. The error names the
/// first oversized parameter.
pub fn check_param_lengths(args: &Vec<(String, ParamValue)>, max_len: usize) -> (r: Result<(), String>)
    ensures
        match first_too_long(args@, max_len, 0) {
            None => r is Ok,
            Some(i) => r matches Err(m) && m@ == too_long_message(args@[i].0@, max_len as nat),
        },
{
    let mut i: usize = 0;
    while i < args.len()
        invariant
            i <= args@.len(),
            first_too_long(args@, max_len, 0) == first_too_long(args@, max_len, i as int),
        decreases args@.len() - i,
    {
        if param_size_of(&args[i].1) > max_len {
            let mut m = "parameter '".to_string();
            push_str(&mut m, args[i].0.as_str());
            push_str(&mut m, "' exceeds maximum length of ");
            push_str(&mut m, decimal_string(max_len).as_str());
            push_str(&mut m, " bytes");
            return Err(m);
        }
        i += 1;
    }
    Ok(())
}

/// A call is refused exactly when some parameter is larger than `max_len`,
/// and the error then names the first such parameter: every parameter before
/// it fits.
pub proof fn law_param_check_first_oversized(args: Seq<(String, ParamValue)>, max_len: usize, i: int)
    requires
        0 <= i,
    ensures
        first_too_long(args, max_len, i) is None <==> forall|k: int|
            i <= k < args.len() ==> param_size(#[trigger] args[k].1) <= max_len,
        first_too_long(args, max_len, i) matches Some(k) ==> i <= k < args.len() && param_size(
            args[k].1,
        ) > max_len && forall|j: int| i <= j < k ==> param_size(#[trigger] args[j].1) <= max_len,
    decreases args.len() - i,
{
    if i < args.len() {
        law_param_check_first_oversized(args, max_len, i + 1);
    }
}

} // verus!
