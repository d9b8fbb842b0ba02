//! Deny direct tag-only `assert!(value.is_ok())` style observations.
use vstd::prelude::*;

use crate::macro_args::{direct_target_macro_argument, is_direct_target_macro_argument_at};
use crate::scan::{directly_inside_target_macro, is_direct_target_macro_condition_at, target_bytes};
use crate::text::{chars_of, copy_range, find_chars, has_infix, is_lit, occurs_at, string_of,
    trim, trim_chars};
use crate::waivers::{AssertionHit, WaiverStatus, hit_matches, status_of, waiver_status};
use vstd::string::StringSliceAdditionalSpecFns;

pub use crate::waivers::{stale_waivers, tag_only_assertion_waivers};

verus! {

/// An assertion the lint met.
pub type TagOnlyAssertionHit = AssertionHit;

/// Returns true if the current compile target should be linted: only test
/// harness builds are.
pub fn should_lint_target_source(is_test_crate: bool) -> (r: bool)
    ensures
        r == is_test_crate,
{
    is_test_crate
}

/// A payload-blind predicate called with no argument.
pub open spec fn tag_only_method_shape(method_name: Seq<char>, argument_count: int) -> bool {
    argument_count == 0 && (method_name == "is_ok"@ || method_name == "is_err"@ || method_name
        == "is_some"@ || method_name == "is_none"@ || method_name == "alive"@ || method_name
        == "termination_requested"@)
}

/// Returns true if the method only observes a variant tag.
pub fn is_tag_only_method_shape(method_name: &str, argument_count: usize) -> (r: bool)
    ensures
        r == tag_only_method_shape(method_name@, argument_count as int),
{
    let c = chars_of(method_name);
    let t = c.as_slice();
    argument_count == 0 && (is_lit(t, "is_ok") || is_lit(t, "is_err") || is_lit(t, "is_some")
        || is_lit(t, "is_none") || is_lit(t, "alive") || is_lit(t, "termination_requested"))
}

/// Returns true if `byte_index` is directly the condition of a
/// `target!(...)` invocation: only whitespace separates it from the opener.
pub fn is_inside_target_macro_invocation_at(source: &str, byte_index: usize, target: &str) -> (r:
    bool)
    ensures
        r == directly_inside_target_macro(
            source.spec_bytes(),
            byte_index as int,
            seq![target.spec_bytes()],
            false,
        ),
{
    let targets = vec![target];
    assert(target_bytes(targets@) =~= seq![target.spec_bytes()]);
    is_direct_target_macro_condition_at(source, byte_index, targets.as_slice(), false)
}

/// The comparison assertions whose arguments are checked for bare boolean
/// literals.
pub open spec fn bool_comparison_macro_list() -> Seq<&'static str> {
    seq![
        "assert_eq",
        "assert_ne",
        "prop_assert_eq",
        "prop_assert_ne",
        "debug_assert_eq",
        "debug_assert_ne",
    ]
}

/// The comparison assertions whose arguments are checked for bare boolean
/// literals.
pub fn bool_comparison_macros() -> (r: Vec<&'static str>)
    ensures
        r@ == bool_comparison_macro_list(),
{
    let r = vec![
        "assert_eq",
        "assert_ne",
        "prop_assert_eq",
        "prop_assert_ne",
        "debug_assert_eq",
        "debug_assert_ne",
    ];
    assert(r@ =~= bool_comparison_macro_list());
    r
}

/// Returns true if the boolean literal at `byte_index` is a whole argument
/// of an equality assertion.
pub fn is_direct_bool_literal_assertion_macro_argument_at(source: &str, byte_index: usize) -> (r:
    bool)
    ensures
        r == direct_target_macro_argument(
            source.spec_bytes(),
            byte_index as int,
            target_bytes(bool_comparison_macro_list()),
        ),
{
    let targets = bool_comparison_macros();
    is_direct_target_macro_argument_at(source, byte_index, targets.as_slice())
}

/// The path from the first `/crates/` on, made relative to the repository.
pub open spec fn relative_path(path: Seq<char>) -> Seq<char> {
    match first_occurrence(path, "/crates/"@) {
        Some(i) => "crates/"@ + path.subrange(i + 8, path.len() as int),
        None => path,
    }
}

/// The first position where `p` occurs in `s`.
pub open spec fn first_occurrence(s: Seq<char>, p: Seq<char>) -> Option<int> {
    if exists|i: int| occurs_at(s, p, i) {
        Some(choose|i: int| occurs_at(s, p, i) && forall|j: int| j < i ==> !occurs_at(s, p, j))
    } else {
        None
    }
}

/// Rewrites an absolute source path to start at `crates/`.
pub fn repository_relative_path(path: &str) -> (r: String)
    ensures
        r@ == relative_path(path@),
{
    proof {
        reveal_strlit("/crates/");
        reveal_strlit("crates/");
    }
    let c = chars_of(path);
    let sep = chars_of("/crates/");
    match find_chars(c.as_slice(), sep.as_slice()) {
        Some(i) => {
            proof {
                assert(occurs_at(path@, "/crates/"@, i as int));
                let k = choose|k: int|
                    occurs_at(path@, "/crates/"@, k) && forall|j: int|
                        j < k ==> !occurs_at(path@, "/crates/"@, j);
                assert(forall|j: int| j < i ==> !occurs_at(path@, "/crates/"@, j)) by {
                    assert forall|j: int| j < i implies !occurs_at(path@, "/crates/"@, j) by {
                        if j >= 0 {
                            assert(!occurs_at(c@, sep@, j));
                        }
                    }
                }
                if k < i {
                    assert(!occurs_at(path@, "/crates/"@, k));
                }
                if i < k {
                    assert(!occurs_at(path@, "/crates/"@, i as int));
                }
                assert(k == i);
            }
            let mut out = chars_of("crates/");
            let n = c.len();
            assert(i + 8 <= n);
            let rest = copy_range(c.as_slice(), i + 8, n);
            let mut k: usize = 0;
            while k < rest.len()
                invariant
                    k <= rest@.len(),
                    out@ == "crates/"@ + rest@.subrange(0, k as int),
                decreases rest@.len() - k,
            {
                out.push(rest[k]);
                proof {
                    assert(("crates/"@ + rest@.subrange(0, k as int)).push(rest@[k as int])
                        =~= "crates/"@ + rest@.subrange(0, k + 1));
                }
                k = k + 1;
            }
            assert(rest@.subrange(0, rest@.len() as int) =~= rest@);
            string_of(out.as_slice())
        },
        None => {
            assert(!exists|i: int| occurs_at(path@, "/crates/"@, i));
            string_of(c.as_slice())
        },
    }
}

/// The snippet with surrounding whitespace removed.
pub fn normalized_snippet(snippet: &str) -> (r: String)
    ensures
        r@ == trim(snippet@),
{
    let c = chars_of(snippet);
    let t = trim_chars(c.as_slice());
    string_of(t.as_slice())
}

/// Builds the hit for a tag-only call from its compiler-reported source
/// path, line, receiver text and call text.
pub fn tag_only_assertion_hit(
    source_path: &str,
    line: usize,
    receiver_snippet: &str,
    method: &str,
    snippet: &str,
) -> (r: TagOnlyAssertionHit)
    ensures
        r.path@ == relative_path(source_path@),
        r.line == line,
        r.receiver@ == trim(receiver_snippet@),
        r.method@ == method@,
        r.snippet@ == trim(snippet@),
{
    let path = repository_relative_path(source_path);
    let receiver = normalized_snippet(receiver_snippet);
    let text = normalized_snippet(snippet);
    AssertionHit::new(path.as_str(), line, receiver.as_str(), method, text.as_str())
}

/// What the lint does with one tag-only call.
#[derive(Debug, PartialEq, Eq)]
pub enum TagOnlyVerdict {
    /// Not a tag-only assertion.
    Ignore,
    /// Report the call.
    Report,
    /// A waiver covers it; record it as seen.
    Waived(TagOnlyAssertionHit),
}

/// The decision of the `tag_only_assertion` pass for one method call: a
/// tag-only predicate directly inside `assert!` is reported, unless it has a
/// recorded source location that a waiver covers.
pub fn method_call_verdict(
    method_name: &str,
    argument_count: usize,
    inside_assert: bool,
    hit: Option<TagOnlyAssertionHit>,
) -> (r: TagOnlyVerdict)
    ensures
        !(tag_only_method_shape(method_name@, argument_count as int) && inside_assert) ==> r
            == TagOnlyVerdict::Ignore,
        (tag_only_method_shape(method_name@, argument_count as int) && inside_assert) ==> match hit {
            Some(h) => if status_of(h) == WaiverStatus::Suppressed {
                r == TagOnlyVerdict::Waived(h)
            } else {
                r == TagOnlyVerdict::Report
            },
            None => r == TagOnlyVerdict::Report,
        },
{
    if !(is_tag_only_method_shape(method_name, argument_count) && inside_assert) {
        return TagOnlyVerdict::Ignore;
    }
    match hit {
        Some(h) => {
            match waiver_status(&h) {
                WaiverStatus::Suppressed => TagOnlyVerdict::Waived(h),
                WaiverStatus::Unwaived => TagOnlyVerdict::Report,
            }
        },
        None => TagOnlyVerdict::Report,
    }
}

} // verus!
