//! Deny ambient environment reads outside harness startup.
use vstd::prelude::*;

use crate::paths::{ends_with_components, path_ends_with};
use crate::text::{chars_of, is_lit};

verus! {

/// Returns true if the current compile target should be linted: only test
/// harness builds are.
pub fn should_lint_target_source(is_test_crate: bool) -> (r: bool)
    ensures
        r == is_test_crate,
{
    is_test_crate
}

/// The path segments of a called function, as text.
pub open spec fn segment_texts(segments: Seq<&str>) -> Seq<Seq<char>> {
    segments.map_values(|s: &str| s@)
}

/// `env::var` / `std::env::var` with one argument, or `env::vars` /
/// `std::env::vars` with none.
pub open spec fn env_read_segments(segments: Seq<Seq<char>>, arg_count: int) -> bool {
    ||| ((segments == seq!["env"@, "var"@] || segments == seq!["std"@, "env"@, "var"@])
        && arg_count == 1)
    ||| ((segments == seq!["env"@, "vars"@] || segments == seq!["std"@, "env"@, "vars"@])
        && arg_count == 0)
}

/// Whether `segments` are exactly the texts `a`, `b` (and `c` when given).
fn segments_are(segments: &[&str], a: &str, b: &str, c: Option<&str>) -> (r: bool)
    ensures
        r == (match c {
            Some(c) => segment_texts(segments@) == seq![a@, b@, c@],
            None => segment_texts(segments@) == seq![a@, b@],
        }),
{
    let want: usize = if c.is_some() {
        3
    } else {
        2
    };
    if segments.len() != want {
        assert(segment_texts(segments@).len() == segments@.len());
        return false;
    }
    let s0 = chars_of(segments[0]);
    let s1 = chars_of(segments[1]);
    let first = is_lit(s0.as_slice(), a) && is_lit(s1.as_slice(), b);
    let r = match c {
        Some(c) => {
            let s2 = chars_of(segments[2]);
            first && is_lit(s2.as_slice(), c)
        },
        None => first,
    };
    proof {
        let st = segment_texts(segments@);
        match c {
            Some(c) => {
                if r {
                    assert(st =~= seq![a@, b@, c@]);
                }
                if st == seq![a@, b@, c@] {
                    assert(st[0] == a@ && st[1] == b@ && st[2] == c@);
                }
            },
            None => {
                if r {
                    assert(st =~= seq![a@, b@]);
                }
                if st == seq![a@, b@] {
                    assert(st[0] == a@ && st[1] == b@);
                }
            },
        }
    }
    r
}

/// Returns true if the call path and argument count read the environment.
pub fn is_env_read_segments(segments: &[&str], arg_count: usize) -> (r: bool)
    ensures
        r == env_read_segments(segment_texts(segments@), arg_count as int),
{
    (segments_are(segments, "env", "var", None) || segments_are(segments, "std", "env", Some("var")))
        && arg_count == 1 || (segments_are(segments, "env", "vars", None) || segments_are(
        segments,
        "std",
        "env",
        Some("vars"),
    )) && arg_count == 0
}

/// Returns true if the path is the harness entrypoint.
pub fn is_harness_entrypoint_path(path: &str) -> (r: bool)
    ensures
        r == path_ends_with(path@, "crates/symbiote-harness/src/main.rs"@),
{
    ends_with_components(path, "crates/symbiote-harness/src/main.rs")
}

/// Returns true if the module name marks the harness startup boundary.
pub fn is_harness_startup_module_name(name: &str) -> (r: bool)
    ensures
        r == (name@ == "startup"@),
{
    let c = chars_of(name);
    is_lit(c.as_slice(), "startup")
}

/// Returns true if the module name marks an in-file test module.
pub fn is_harness_test_module_name(name: &str) -> (r: bool)
    ensures
        r == (name@ == "tests"@),
{
    let c = chars_of(name);
    is_lit(c.as_slice(), "tests")
}

/// The enclosing modules (innermost first) put the expression inside the
/// `startup` module and inside no `tests` module.
pub open spec fn inside_startup_module(module_names: Seq<Seq<char>>) -> bool {
    &&& forall|i: int| 0 <= i < module_names.len() ==> #[trigger] module_names[i] != "tests"@
    &&& exists|i: int| 0 <= i < module_names.len() && #[trigger] module_names[i] == "startup"@
}

/// Returns true if the enclosing module names (innermost first) place the
/// expression inside the harness `startup` module and not in a `tests`
/// module.
pub fn is_inside_harness_startup_module(module_names: &[&str]) -> (r: bool)
    ensures
        r == inside_startup_module(segment_texts(module_names@)),
{
    let ghost names = segment_texts(module_names@);
    let mut is_inside_startup_module = false;
    let mut k: usize = 0;
    while k < module_names.len()
        invariant
            k <= module_names@.len(),
            names == segment_texts(module_names@),
            forall|i: int| 0 <= i < k ==> #[trigger] names[i] != "tests"@,
            is_inside_startup_module == exists|i: int|
                0 <= i < k && #[trigger] names[i] == "startup"@,
        decreases module_names@.len() - k,
    {
        assert(names[k as int] == module_names@[k as int]@);
        if is_harness_test_module_name(module_names[k]) {
            return false;
        }
        if is_harness_startup_module_name(module_names[k]) {
            is_inside_startup_module = true;
        }
        k = k + 1;
    }
    is_inside_startup_module
}

/// The decision of the `env_var` pass for one call: an environment read,
/// unless it is in the harness entrypoint's startup module.
pub fn env_read_is_flagged(
    segments: &[&str],
    arg_count: usize,
    path: &str,
    module_names: &[&str],
) -> (r: bool)
    ensures
        r == (env_read_segments(segment_texts(segments@), arg_count as int) && !(path_ends_with(
            path@,
            "crates/symbiote-harness/src/main.rs"@,
        ) && inside_startup_module(segment_texts(module_names@)))),
{
    is_env_read_segments(segments, arg_count) && !(is_harness_entrypoint_path(path)
        && is_inside_harness_startup_module(module_names))
}

} // verus!
