//! Deny `#[inline]` attributes on private functions.
use vstd::prelude::*;

use crate::text::{chars_of, has_prefix, starts_with_lit, trim_start, trim_start_chars};

verus! {

/// Returns true if the current compile target should be linted: this lint
/// covers every target, test harness or not.
pub fn should_lint_target_source(is_test_crate: bool) -> (r: bool)
    ensures
        r == true,
{
    true
}

/// The inline hint the compiler recorded for a function.
#[derive(Clone, Copy, Debug, PartialEq, Eq)]
pub enum InlineAttr {
    /// No inline attribute.
    Absent,
    /// `#[inline]`.
    Hint,
    /// `#[inline(always)]`.
    Always,
    /// `#[inline(never)]`.
    Never,
    /// A forced inline.
    Force,
}

/// Returns true if the function carries any inline attribute.
pub fn is_inline_attr(inline_attr: InlineAttr) -> (r: bool)
    ensures
        r == !(inline_attr is Absent),
{
    match inline_attr {
        InlineAttr::Absent => false,
        _ => true,
    }
}

/// Visibility text that does not start with `pub`.
pub open spec fn no_pub_prefix(snippet: Seq<char>) -> bool {
    !has_prefix(trim_start(snippet), "pub"@)
}

/// Returns true if the visibility snippet has no explicit `pub`.
pub fn has_no_explicit_pub_prefix(visibility_snippet: &str) -> (r: bool)
    ensures
        r == no_pub_prefix(visibility_snippet@),
{
    let c = chars_of(visibility_snippet);
    let t = trim_start_chars(c.as_slice());
    !starts_with_lit(t.as_slice(), "pub")
}

/// Returns true if a visibility is written without `pub`; a visibility whose
/// source text is unavailable is not.
pub fn has_no_explicit_visibility(visibility_snippet: Option<&str>) -> (r: bool)
    ensures
        r == (visibility_snippet matches Some(s) && no_pub_prefix(s@)),
{
    match visibility_snippet {
        Some(s) => has_no_explicit_pub_prefix(s),
        None => false,
    }
}

/// The decision of the `inline_attr` pass for a free function: private
/// (no `pub` written) and carrying an inline attribute.
pub fn function_is_flagged(visibility_snippet: Option<&str>, inline_attr: InlineAttr) -> (r: bool)
    ensures
        r == ((visibility_snippet matches Some(s) && no_pub_prefix(s@)) && !(inline_attr is Absent)),
{
    has_no_explicit_visibility(visibility_snippet) && is_inline_attr(inline_attr)
}

/// The decision of the `inline_attr` pass for an inherent method: the
/// method and its self type are private (no `pub` written, the type local)
/// and the method carries an inline attribute.
pub fn method_is_flagged(
    method_visibility: Option<&str>,
    self_type_visibility: Option<&str>,
    inline_attr: InlineAttr,
) -> (r: bool)
    ensures
        r == ((method_visibility matches Some(s) && no_pub_prefix(s@)) && (self_type_visibility matches Some(
            t,
        ) && no_pub_prefix(t@)) && !(inline_attr is Absent)),
{
    has_no_explicit_visibility(method_visibility) && has_no_explicit_visibility(self_type_visibility)
        && is_inline_attr(inline_attr)
}

} // verus!
