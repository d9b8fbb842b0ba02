//! Deny `Result<_, String>` function error channels.
use vstd::prelude::*;

use crate::text::{chars_of, chars_match_at, copy_range, has_suffix, is_lit, is_whitespace, is_ws,
    occurs_at, string_of};

verus! {

/// Returns true if the current compile target should be linted: only test
/// harness builds are.
pub fn should_lint_target_source(is_test_crate: bool) -> (r: bool)
    ensures
        r == is_test_crate,
{
    is_test_crate
}

/// `s` with every whitespace character removed.
pub open spec fn without_ws(s: Seq<char>) -> Seq<char>
    decreases s.len(),
{
    if s.len() == 0 {
        s
    } else if is_ws(s.last()) {
        without_ws(s.drop_last())
    } else {
        without_ws(s.drop_last()).push(s.last())
    }
}

/// Removes all whitespace from type text.
pub fn normalize_type_text(source: &str) -> (r: String)
    ensures
        r@ == without_ws(source@),
{
    let c = chars_of(source);
    let mut out: Vec<char> = Vec::new();
    let mut i: usize = 0;
    while i < c.len()
        invariant
            i <= c@.len(),
            c@ == source@,
            out@ == without_ws(c@.subrange(0, i as int)),
        decreases c@.len() - i,
    {
        assert(c@.subrange(0, i + 1).drop_last() =~= c@.subrange(0, i as int));
        if !is_whitespace(c[i]) {
            out.push(c[i]);
        }
        i = i + 1;
    }
    assert(c@.subrange(0, c@.len() as int) =~= c@);
    string_of(out.as_slice())
}

/// Position of the `>` that closes an angle bracket open at depth `depth`
/// when scanning from `k`.
pub open spec fn angle_close(s: Seq<char>, k: int, depth: nat) -> Option<int>
    decreases s.len() - k,
{
    if k < 0 || k >= s.len() {
        None
    } else if s[k] == '<' {
        angle_close(s, k + 1, depth + 1)
    } else if s[k] == '>' {
        if depth <= 1 {
            Some(k)
        } else {
            angle_close(s, k + 1, (depth - 1) as nat)
        }
    } else {
        angle_close(s, k + 1, depth)
    }
}

/// A matching `>` lies inside the text, at or after the scan start.
pub proof fn lemma_angle_close(s: Seq<char>, k: int, depth: nat)
    requires
        0 <= k,
    ensures
        angle_close(s, k, depth) matches Some(e) ==> k <= e < s.len(),
    decreases s.len() - k,
{
    if k < s.len() {
        if s[k] == '<' {
            lemma_angle_close(s, k + 1, depth + 1);
        } else if s[k] == '>' {
            if depth > 1 {
                lemma_angle_close(s, k + 1, (depth - 1) as nat);
            }
        } else {
            lemma_angle_close(s, k + 1, depth);
        }
    }
}

/// Finds the `>` matching an already open `<`, scanning from `args_start`.
pub fn matching_angle_bracket(source: &[char], args_start: usize) -> (r: Option<usize>)
    ensures
        r is Some == angle_close(source@, args_start as int, 1) is Some,
        r matches Some(e) ==> angle_close(source@, args_start as int, 1) == Some(e as int),
{
    let mut depth: u128 = 1;
    let mut k = args_start;
    while k < source.len()
        invariant
            args_start <= k,
            1 <= depth <= k - args_start + 1,
            angle_close(source@, k as int, depth as nat) == angle_close(
                source@,
                args_start as int,
                1,
            ),
        decreases source@.len() - k,
    {
        if source[k] == '<' {
            depth = depth + 1;
        } else if source[k] == '>' {
            if depth <= 1 {
                return Some(k);
            }
            depth = depth - 1;
        }
        k = k + 1;
    }
    None
}

/// `Result<` occurs at `k` and starts the text or follows `::`.
pub open spec fn result_at_boundary(t: Seq<char>, k: int) -> bool {
    occurs_at(t, "Result<"@, k) && (k == 0 || has_suffix(t.subrange(0, k), "::"@))
}

/// The first position at or after `k` where `Result<` occurs at a path
/// boundary.
pub open spec fn boundary_result_from(t: Seq<char>, k: int) -> Option<int>
    decreases t.len() - k,
{
    if k < 0 || k >= t.len() {
        None
    } else if result_at_boundary(t, k) {
        Some(k)
    } else {
        boundary_result_from(t, k + 1)
    }
}

/// The generic arguments of the outermost `Result<...>` in normalized type
/// text: the first `Result` that starts the text or follows `::`, up to its
/// matching `>`.
pub open spec fn result_arguments(t: Seq<char>) -> Option<Seq<char>> {
    match boundary_result_from(t, 0) {
        Some(start) => match angle_close(t, start + 7, 1) {
            Some(end) => Some(t.subrange(start + 7, end)),
            None => None,
        },
        None => None,
    }
}

/// Whether the `Result` at `result_start` is a path start.
pub fn is_result_path_boundary(return_type: &[char], result_start: usize) -> (r: bool)
    ensures
        r == (result_start == 0 || (result_start <= return_type@.len() && has_suffix(
            return_type@.subrange(0, result_start as int),
            "::"@,
        ))),
{
    if result_start == 0 {
        return true;
    }
    if result_start > return_type.len() {
        return false;
    }
    let prefix = copy_range(return_type, 0, result_start);
    crate::text::ends_with_lit(prefix.as_slice(), "::")
}

/// The generic arguments of the outermost `Result<...>`.
pub fn result_generic_arguments(return_type: &[char]) -> (r: Option<Vec<char>>)
    ensures
        r is Some == result_arguments(return_type@) is Some,
        r matches Some(a) ==> result_arguments(return_type@) == Some(a@),
{
    proof {
        reveal_strlit("Result<");
    }
    let pattern = chars_of("Result<");
    assert(pattern@.len() == 7);
    let n = return_type.len();
    let mut k: usize = 0;
    let mut found: Option<usize> = None;
    while found.is_none() && k < n
        invariant
            n == return_type@.len(),
            pattern@ == "Result<"@,
            k <= n,
            match found {
                None => boundary_result_from(return_type@, k as int) == boundary_result_from(
                    return_type@,
                    0,
                ),
                Some(i) => boundary_result_from(return_type@, 0) == Some(i as int)
                    && result_at_boundary(return_type@, i as int),
            },
        decreases n - k + (if found is None {
            1int
        } else {
            0int
        }),
    {
        if chars_match_at(return_type, k, pattern.as_slice()) && is_result_path_boundary(
            return_type,
            k,
        ) {
            assert(boundary_result_from(return_type@, k as int) == Some(k as int));
            found = Some(k);
        } else {
            assert(boundary_result_from(return_type@, k as int) == boundary_result_from(
                return_type@,
                k + 1,
            ));
            k = k + 1;
        }
    }
    let result_start = match found {
        Some(i) => i,
        None => {
            assert(boundary_result_from(return_type@, n as int) is None);
            return None;
        },
    };
    assert(result_start + 7 <= n);
    let args_start = result_start + 7;
    proof {
        lemma_angle_close(return_type@, args_start as int, 1);
    }
    match matching_angle_bracket(return_type, args_start) {
        Some(args_end) => Some(copy_range(return_type, args_start, args_end)),
        None => None,
    }
}

/// Position of the first comma outside angle brackets, scanning from `k`
/// at bracket depth `depth` (a `>` never takes the depth below zero).
pub open spec fn top_level_comma(s: Seq<char>, k: int, depth: nat) -> Option<int>
    decreases s.len() - k,
{
    if k < 0 || k >= s.len() {
        None
    } else if s[k] == '<' {
        top_level_comma(s, k + 1, depth + 1)
    } else if s[k] == '>' {
        top_level_comma(
            s,
            k + 1,
            if depth == 0 {
                0
            } else {
                (depth - 1) as nat
            },
        )
    } else if s[k] == ',' && depth == 0 {
        Some(k)
    } else {
        top_level_comma(s, k + 1, depth)
    }
}

/// A top-level comma lies inside the text, at or after the scan start.
pub proof fn lemma_top_level_comma(s: Seq<char>, k: int, depth: nat)
    requires
        0 <= k,
    ensures
        top_level_comma(s, k, depth) matches Some(e) ==> k <= e < s.len(),
    decreases s.len() - k,
{
    if k < s.len() {
        if s[k] == '<' {
            lemma_top_level_comma(s, k + 1, depth + 1);
        } else if s[k] == '>' {
            lemma_top_level_comma(
                s,
                k + 1,
                if depth == 0 {
                    0
                } else {
                    (depth - 1) as nat
                },
            );
        } else if !(s[k] == ',' && depth == 0) {
            lemma_top_level_comma(s, k + 1, depth);
        }
    }
}

/// The ok and error types of `Result` arguments, split at the first
/// top-level comma; neither may be empty.
pub open spec fn result_argument_pair(a: Seq<char>) -> Option<(Seq<char>, Seq<char>)> {
    match top_level_comma(a, 0, 0) {
        Some(i) => if i > 0 && i + 1 < a.len() {
            Some((a.subrange(0, i), a.subrange(i + 1, a.len() as int)))
        } else {
            None
        },
        None => None,
    }
}

/// Splits `Result` arguments into the ok type and the error type.
pub fn split_result_arguments(arguments: &[char]) -> (r: Option<(Vec<char>, Vec<char>)>)
    ensures
        r is Some == result_argument_pair(arguments@) is Some,
        r matches Some((ok, err)) ==> result_argument_pair(arguments@) == Some((ok@, err@)),
{
    let mut depth: usize = 0;
    let mut k: usize = 0;
    proof {
        lemma_top_level_comma(arguments@, 0, 0);
    }
    while k < arguments.len()
        invariant
            depth <= k,
            top_level_comma(arguments@, k as int, depth as nat) == top_level_comma(
                arguments@,
                0,
                0,
            ),
        decreases arguments@.len() - k,
    {
        let c = arguments[k];
        if c == '<' {
            depth = depth + 1;
        } else if c == '>' {
            if depth > 0 {
                depth = depth - 1;
            }
        } else if c == ',' && depth == 0 {
            if k == 0 || k + 1 >= arguments.len() {
                return None;
            }
            return Some((copy_range(arguments, 0, k), copy_range(arguments, k + 1, arguments.len())));
        }
        k = k + 1;
    }
    None
}

/// The standard `String` type, spelled bare or by its full path.
pub open spec fn string_type(t: Seq<char>) -> bool {
    t == "String"@ || t == "std::string::String"@ || t == "alloc::string::String"@
}

/// Returns true if the error type text names `String`.
pub fn is_string_type(error_type: &[char]) -> (r: bool)
    ensures
        r == string_type(error_type@),
{
    is_lit(error_type, "String") || is_lit(error_type, "std::string::String") || is_lit(
        error_type,
        "alloc::string::String",
    )
}

/// Return type text whose outermost `Result` carries a `String`
/// error.
pub open spec fn result_string_return_type(return_type: Seq<char>) -> bool {
    match result_arguments(without_ws(return_type)) {
        Some(args) => match result_argument_pair(args) {
            Some((_ok, err)) => string_type(err),
            None => false,
        },
        None => false,
    }
}

/// Returns true if the return type is `Result<_, String>`.
pub fn is_result_string_return_type(return_type: &str) -> (r: bool)
    ensures
        r == result_string_return_type(return_type@),
{
    let normalized = normalize_type_text(return_type);
    let n = chars_of(normalized.as_str());
    let arguments = match result_generic_arguments(n.as_slice()) {
        Some(a) => a,
        None => {
            return false;
        },
    };
    match split_result_arguments(arguments.as_slice()) {
        Some((_ok_type, error_type)) => is_string_type(error_type.as_slice()),
        None => false,
    }
}

} // verus!
