//! Deny payload-blind assertions and partial `matches!(..)` assertions in
//! the review scope.
use vstd::prelude::*;

use crate::scan::{byte_at, directly_inside_target_macro, ignored_end, is_direct_target_macro_condition_at,
    opens_any_target_macro, skip_ignored_source, target_bytes, bare_condition_prefix,
    is_bare_condition_prefix, is_any_target_macro_delimiter_open};
use crate::text::{chars_of, has_prefix, is_ascii_whitespace_byte, is_ascii_ws_byte, is_lit,
    starts_with_lit, trim_start, trim_start_chars};
use crate::waivers::AssertionHit;
use vstd::string::StringSliceAdditionalSpecFns;

pub use crate::waivers::{WaiverStatus, stale_waivers, waiver_status};

verus! {

/// An assertion the lint met.
pub type FuzzyMatcherAssertionHit = AssertionHit;

/// Assertion macros whose arguments are observations.
pub open spec fn assertion_macro_list() -> Seq<&'static str> {
    seq![
        "assert",
        "assert_eq",
        "assert_ne",
        "debug_assert",
        "debug_assert_eq",
        "debug_assert_ne",
        "prop_assert",
        "prop_assert_eq",
        "prop_assert_ne",
    ]
}

/// Assertion macros whose arguments are observations.
pub fn assertion_macros() -> (r: Vec<&'static str>)
    ensures
        r@ == assertion_macro_list(),
{
    let r = vec![
        "assert",
        "assert_eq",
        "assert_ne",
        "debug_assert",
        "debug_assert_eq",
        "debug_assert_ne",
        "prop_assert",
        "prop_assert_eq",
        "prop_assert_ne",
    ];
    assert(r@ =~= assertion_macro_list());
    r
}

/// Returns true if the current compile target should be linted: only test
/// harness builds are.
pub fn should_lint_target_source(is_test_crate: bool) -> (r: bool)
    ensures
        r == is_test_crate,
{
    is_test_crate
}

/// A payload-blind `Result`/`Option` predicate called with no argument.
pub fn payload_blind_method_is_linted(method_name: &str, argument_count: usize) -> (r: bool)
    ensures
        r == (argument_count == 0 && (method_name@ == "is_ok"@ || method_name@ == "is_err"@
            || method_name@ == "is_some"@ || method_name@ == "is_none"@)),
{
    let c = chars_of(method_name);
    let t = c.as_slice();
    argument_count == 0 && (is_lit(t, "is_ok") || is_lit(t, "is_err") || is_lit(t, "is_some")
        || is_lit(t, "is_none"))
}

/// The last non-whitespace byte before `k`.
pub open spec fn previous_non_ws(b: Seq<u8>, k: int) -> Option<u8>
    decreases k,
{
    if k <= 0 || k > b.len() {
        None
    } else if !is_ascii_ws_byte(b[k - 1]) {
        Some(b[k - 1])
    } else {
        previous_non_ws(b, k - 1)
    }
}

/// The first non-whitespace byte at or after `k`.
pub open spec fn next_non_ws(b: Seq<u8>, k: int) -> Option<u8>
    decreases b.len() - k,
{
    if k < 0 || k >= b.len() {
        None
    } else if !is_ascii_ws_byte(b[k]) {
        Some(b[k])
    } else {
        next_non_ws(b, k + 1)
    }
}

/// Returns the last non-whitespace byte before `index`.
pub fn previous_non_ws_byte(bytes: &[u8], index: usize) -> (r: Option<u8>)
    requires
        index <= bytes@.len(),
    ensures
        r == previous_non_ws(bytes@, index as int),
{
    let mut k = index;
    while k > 0
        invariant
            k <= index <= bytes@.len(),
            previous_non_ws(bytes@, k as int) == previous_non_ws(bytes@, index as int),
        decreases k,
    {
        k = k - 1;
        if !is_ascii_whitespace_byte(bytes[k]) {
            return Some(bytes[k]);
        }
    }
    None
}

/// Returns the first non-whitespace byte at or after `index`.
pub fn next_non_ws_byte(bytes: &[u8], index: usize) -> (r: Option<u8>)
    ensures
        r == next_non_ws(bytes@, index as int),
{
    let mut k = index;
    while k < bytes.len()
        invariant
            index <= k,
            next_non_ws(bytes@, k as int) == next_non_ws(bytes@, index as int),
        decreases bytes@.len() - k,
    {
        if !is_ascii_whitespace_byte(bytes[k]) {
            return Some(bytes[k]);
        }
        k = k + 1;
    }
    None
}

/// A byte that can come right before a `..` rest pattern.
pub open spec fn rest_pattern_opener(b: Option<u8>) -> bool {
    b == Some(0x7bu8) || b == Some(0x28u8) || b == Some(0x5bu8) || b == Some(0x2cu8) || b == Some(
        0x7cu8,
    )
}

/// A byte that can come right after a `..` rest pattern.
pub open spec fn rest_pattern_closer(b: Option<u8>) -> bool {
    b == Some(0x7du8) || b == Some(0x29u8) || b == Some(0x5du8) || b == Some(0x2cu8) || b == Some(
        0x7cu8,
    )
}

/// The `..` at `dot` stands alone between a delimiter or separator before
/// it and one after it: a rest pattern, not a range.
pub open spec fn partial_pattern_context(b: Seq<u8>, dot: int) -> bool {
    rest_pattern_opener(previous_non_ws(b, dot)) && rest_pattern_closer(next_non_ws(b, dot + 2))
}

/// Returns true if the `..` at `dot_index` is a rest pattern.
pub fn token_context_is_partial_pattern(bytes: &[u8], dot_index: usize) -> (r: bool)
    requires
        dot_index <= bytes@.len(),
    ensures
        r == partial_pattern_context(bytes@, dot_index as int),
{
    let previous = previous_non_ws_byte(bytes, dot_index);
    let n = bytes.len();
    let after = if n - dot_index >= 2 {
        dot_index + 2
    } else {
        n
    };
    assert(next_non_ws(bytes@, after as int) == next_non_ws(bytes@, dot_index + 2));
    let next = next_non_ws_byte(bytes, after);
    let opener = match previous {
        Some(b) => b == 0x7bu8 || b == 0x28u8 || b == 0x5bu8 || b == 0x2cu8 || b == 0x7cu8,
        None => false,
    };
    let closer = match next {
        Some(b) => b == 0x7du8 || b == 0x29u8 || b == 0x5du8 || b == 0x2cu8 || b == 0x7cu8,
        None => false,
    };
    opener && closer
}

/// Scanning from `k` (comments, strings and character literals skipped as
/// tokens), some `..` is a rest pattern.
pub open spec fn partial_pattern_from(b: Seq<u8>, k: int) -> bool
    decreases b.len() - k,
{
    if k < 0 || k >= b.len() {
        false
    } else {
        match ignored_end(b, k) {
            Some(n) => if k < n <= b.len() {
                partial_pattern_from(b, n)
            } else {
                false
            },
            None => (b[k] == 0x2eu8 && byte_at(b, k + 1) == Some(0x2eu8) && partial_pattern_context(
                b,
                k,
            )) || partial_pattern_from(b, k + 1),
        }
    }
}

/// Returns true if the source contains a `..` rest pattern outside
/// comments and literals.
pub fn source_contains_partial_pattern(source: &str) -> (r: bool)
    ensures
        r == partial_pattern_from(source.spec_bytes(), 0),
{
    let bytes = source.as_bytes();
    let mut index: usize = 0;
    while index < bytes.len()
        invariant
            bytes@ == source.spec_bytes(),
            partial_pattern_from(bytes@, index as int) == partial_pattern_from(bytes@, 0),
        decreases bytes@.len() - index,
    {
        if let Some(next) = skip_ignored_source(bytes, index) {
            index = next;
            continue;
        }
        if bytes[index] == 0x2eu8 && index + 1 < bytes.len() && bytes[index + 1] == 0x2eu8
            && token_context_is_partial_pattern(bytes, index) {
            return true;
        }
        index = index + 1;
    }
    false
}

/// A `matches!(..)` source text whose pattern has a rest placeholder.
pub open spec fn partial_matches_source(source: Seq<char>, bytes: Seq<u8>) -> bool {
    has_prefix(trim_start(source), "matches!("@) && partial_pattern_from(bytes, 0)
}

/// Returns true if the snippet is a partial `matches!` observation.
pub fn partial_matches_source_is_linted(source: &str) -> (r: bool)
    ensures
        r == partial_matches_source(source@, source.spec_bytes()),
{
    let c = chars_of(source);
    let t = trim_start_chars(c.as_slice());
    starts_with_lit(t.as_slice(), "matches!(") && source_contains_partial_pattern(source)
}

/// Returns true if the text before the observation inside the assertion is
/// empty or a single `!` once trimmed.
pub fn assertion_condition_prefix_is_linted(prefix: &str) -> (r: bool)
    ensures
        r == bare_condition_prefix(prefix@, true),
{
    let c = chars_of(prefix);
    is_bare_condition_prefix(c.as_slice(), true)
}

/// Returns true if the delimiter at `open_index` opens one of `targets`.
pub fn is_target_macro_delimiter_open(bytes: &[u8], open_index: usize, targets: &[&str]) -> (r:
    bool)
    requires
        open_index <= bytes@.len(),
    ensures
        r == opens_any_target_macro(bytes@, open_index as int, target_bytes(targets@)),
{
    is_any_target_macro_delimiter_open(bytes, open_index, targets)
}

/// Returns true if `byte_index` is directly the condition of one of the
/// `targets` invocations (optionally negated).
pub fn is_inside_any_target_macro_invocation_at(source: &str, byte_index: usize, targets: &[&str]) -> (r:
    bool)
    ensures
        r == directly_inside_target_macro(
            source.spec_bytes(),
            byte_index as int,
            target_bytes(targets@),
            true,
        ),
{
    is_direct_target_macro_condition_at(source, byte_index, targets, true)
}

/// The decision of the `fuzzy_matcher_assertion` pass for one expression:
/// its source text is a partial `matches!` and it is directly an
/// assertion's condition.
pub fn expression_is_flagged(snippet: Option<&str>, inside_assertion: bool) -> (r: bool)
    ensures
        r == ((snippet matches Some(s) && partial_matches_source(s@, s.spec_bytes()))
            && inside_assertion),
{
    let partial = match snippet {
        Some(s) => partial_matches_source_is_linted(s),
        None => false,
    };
    partial && inside_assertion
}

/// The last non-whitespace byte before `dot` is the one at `p` when only
/// whitespace lies between them.
proof fn lemma_previous_non_ws_at(b: Seq<u8>, dot: int, p: int)
    requires
        0 <= p < dot <= b.len(),
        !is_ascii_ws_byte(b[p]),
        forall|j: int| p < j < dot ==> is_ascii_ws_byte(#[trigger] b[j]),
    ensures
        previous_non_ws(b, dot) == Some(b[p]),
    decreases dot - p,
{
    if dot - 1 > p {
        lemma_previous_non_ws_at(b, dot - 1, p);
    }
}

/// The first non-whitespace byte at or after `k` is the one at `q` when
/// only whitespace lies between them.
proof fn lemma_next_non_ws_at(b: Seq<u8>, k: int, q: int)
    requires
        0 <= k <= q < b.len(),
        !is_ascii_ws_byte(b[q]),
        forall|j: int| k <= j < q ==> is_ascii_ws_byte(#[trigger] b[j]),
    ensures
        next_non_ws(b, k) == Some(b[q]),
    decreases q - k,
{
    if k < q {
        lemma_next_non_ws_at(b, k + 1, q);
    }
}

/// A `..` between a delimiter or separator and another is a rest
/// pattern: when the last non-whitespace byte before it is `{`, `(`, `[`,
/// `,` or `|` and the first after it is `}`, `)`, `]`, `,` or `|`, its
/// context is that of a partial pattern.
pub proof fn dots_between_separators_are_a_rest_pattern(b: Seq<u8>, dot: int, p: int, q: int)
    requires
        0 <= p < dot,
        dot + 2 <= q < b.len(),
        b[p] == 0x7bu8 || b[p] == 0x28u8 || b[p] == 0x5bu8 || b[p] == 0x2cu8 || b[p] == 0x7cu8,
        b[q] == 0x7du8 || b[q] == 0x29u8 || b[q] == 0x5du8 || b[q] == 0x2cu8 || b[q] == 0x7cu8,
        forall|j: int| p < j < dot ==> is_ascii_ws_byte(#[trigger] b[j]),
        forall|j: int| dot + 2 <= j < q ==> is_ascii_ws_byte(#[trigger] b[j]),
    ensures
        partial_pattern_context(b, dot),
{
    lemma_previous_non_ws_at(b, dot, p);
    lemma_next_non_ws_at(b, dot + 2, q);
}

/// Scanning from `k` finds a rest pattern at `dot` when no comment, string
/// or character literal starts between them.
proof fn lemma_scan_reaches(b: Seq<u8>, k: int, dot: int)
    requires
        0 <= k <= dot,
        dot + 1 < b.len(),
        forall|j: int| k <= j <= dot ==> #[trigger] ignored_end(b, j) is None,
        b[dot] == 0x2eu8 && b[dot + 1] == 0x2eu8,
        partial_pattern_context(b, dot),
    ensures
        partial_pattern_from(b, k),
    decreases dot - k,
{
    assert(ignored_end(b, k) is None);
    if k < dot {
        lemma_scan_reaches(b, k + 1, dot);
    }
}

/// A source text that starts (past leading whitespace) with `matches!(`
/// and holds a `..` rest pattern, with no comment, string or character
/// literal starting before it, is a partial `matches!`: as an assertion's
/// condition it is flagged. So `matches!(result, Err(..))` and every
/// `matches!(x, P(..))` written plainly are reported.
pub proof fn plain_rest_pattern_in_matches_is_flagged(source: &str, dot: int, p: int, q: int)
    requires
        has_prefix(trim_start(source@), "matches!("@),
        0 <= p < dot,
        dot + 2 <= q < source.spec_bytes().len(),
        source.spec_bytes()[dot] == 0x2eu8 && source.spec_bytes()[dot + 1] == 0x2eu8,
        ({
            let b = source.spec_bytes();
            &&& b[p] == 0x7bu8 || b[p] == 0x28u8 || b[p] == 0x5bu8 || b[p] == 0x2cu8 || b[p] == 0x7cu8
            &&& b[q] == 0x7du8 || b[q] == 0x29u8 || b[q] == 0x5du8 || b[q] == 0x2cu8 || b[q] == 0x7cu8
            &&& forall|j: int| p < j < dot ==> is_ascii_ws_byte(#[trigger] b[j])
            &&& forall|j: int| dot + 2 <= j < q ==> is_ascii_ws_byte(#[trigger] b[j])
            &&& forall|j: int| 0 <= j <= dot ==> #[trigger] ignored_end(b, j) is None
        }),
    ensures
        partial_matches_source(source@, source.spec_bytes()),
{
    let b = source.spec_bytes();
    dots_between_separators_are_a_rest_pattern(b, dot, p, q);
    lemma_scan_reaches(b, 0, dot);
}

} // verus!
