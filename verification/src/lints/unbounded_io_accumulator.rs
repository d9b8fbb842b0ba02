//! Deny unbounded async-IO read accumulators without an explicit byte cap.
use vstd::prelude::*;

use crate::text::{bytes_match_at, chars_of, has_infix, is_lit, occurs_at};
use vstd::string::StringSliceAdditionalSpecFns;

verus! {

/// Returns true if the current compile target should be linted: only test
/// harness builds are.
pub fn should_lint_target_source(is_test_crate: bool) -> (r: bool)
    ensures
        r == is_test_crate,
{
    is_test_crate
}

/// The reader methods that accumulate without a bound.
pub open spec fn flagged_method_list() -> Seq<&'static str> {
    seq!["read_until", "read_to_end", "read_to_string"]
}

/// The reader methods that accumulate without a bound.
pub fn flagged_methods() -> (r: Vec<&'static str>)
    ensures
        r@ == flagged_method_list(),
{
    let r = vec!["read_until", "read_to_end", "read_to_string"];
    assert(r@ =~= flagged_method_list());
    r
}

/// Returns true if `method_name` is one of the flagged reader methods.
pub fn is_flagged_method(method_name: &str) -> (r: bool)
    ensures
        r == (method_name@ == "read_until"@ || method_name@ == "read_to_end"@ || method_name@
            == "read_to_string"@),
{
    let c = chars_of(method_name);
    is_lit(c.as_slice(), "read_until") || is_lit(c.as_slice(), "read_to_end") || is_lit(
        c.as_slice(),
        "read_to_string",
    )
}

/// The bytes of `.take(`.
pub open spec fn take_call_bytes() -> Seq<u8> {
    seq![0x2eu8, 0x74u8, 0x61u8, 0x6bu8, 0x65u8, 0x28u8]
}

/// Returns true if the source text contains a `.take(` call.
pub fn snippet_contains_take_call(source: &str) -> (r: bool)
    ensures
        r == has_infix(source.spec_bytes(), take_call_bytes()),
{
    let bytes = source.as_bytes();
    let pattern: Vec<u8> = vec![0x2eu8, 0x74u8, 0x61u8, 0x6bu8, 0x65u8, 0x28u8];
    assert(pattern@ =~= take_call_bytes());
    let mut i: usize = 0;
    while i < bytes.len()
        invariant
            pattern@ == take_call_bytes(),
            bytes@ == source.spec_bytes(),
            forall|j: int| 0 <= j < i ==> !#[trigger] occurs_at(bytes@, take_call_bytes(), j),
        decreases bytes@.len() - i,
    {
        if bytes_match_at(bytes, i, pattern.as_slice()) {
            assert(occurs_at(bytes@, take_call_bytes(), i as int));
            return true;
        }
        i = i + 1;
    }
    assert forall|j: int| !#[trigger] occurs_at(bytes@, take_call_bytes(), j) by {
        if j >= bytes@.len() {
            assert(!occurs_at(bytes@, take_call_bytes(), j));
        }
    }
    false
}

/// The reader is capped: a `.take(..)` call as the receiver, or `.take(`
/// in the receiver's own (unexpanded) source text.
pub open spec fn take_capped(
    receiver_method: Option<Seq<char>>,
    from_expansion: bool,
    receiver_snippet: Option<Seq<u8>>,
) -> bool {
    ||| receiver_method == Some("take"@)
    ||| (!from_expansion && (receiver_snippet matches Some(bytes) && has_infix(
        bytes,
        take_call_bytes(),
    )))
}

/// Returns true if the receiver is wrapped in a `.take(MAX + 1)` cap.
pub fn receiver_is_take_capped(
    receiver_method: Option<&str>,
    from_expansion: bool,
    receiver_snippet: Option<&str>,
) -> (r: bool)
    ensures
        r == take_capped(
            match receiver_method {
                Some(m) => Some(m@),
                None => None,
            },
            from_expansion,
            match receiver_snippet {
                Some(s) => Some(s.spec_bytes()),
                None => None,
            },
        ),
{
    if let Some(m) = receiver_method {
        let c = chars_of(m);
        if is_lit(c.as_slice(), "take") {
            return true;
        }
    }
    if from_expansion {
        return false;
    }
    match receiver_snippet {
        Some(s) => snippet_contains_take_call(s),
        None => false,
    }
}

/// The decision of the `unbounded_io_accumulator` pass for one method call.
pub fn read_call_is_flagged(
    method_name: &str,
    receiver_method: Option<&str>,
    from_expansion: bool,
    receiver_snippet: Option<&str>,
) -> (r: bool)
    ensures
        r == ((method_name@ == "read_until"@ || method_name@ == "read_to_end"@ || method_name@
            == "read_to_string"@) && !take_capped(
            match receiver_method {
                Some(m) => Some(m@),
                None => None,
            },
            from_expansion,
            match receiver_snippet {
                Some(s) => Some(s.spec_bytes()),
                None => None,
            },
        )),
{
    is_flagged_method(method_name) && !receiver_is_take_capped(
        receiver_method,
        from_expansion,
        receiver_snippet,
    )
}

} // verus!
