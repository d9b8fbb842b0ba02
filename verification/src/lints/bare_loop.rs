//! Deny literal `loop` blocks without an explicit bound.
use vstd::prelude::*;

use crate::text::{chars_of, copy_range, first_index_of, has_prefix, lemma_first_index_of,
    starts_with_lit, trim_start, trim_start_chars};
use crate::unicode::{alphanumeric, is_alphanumeric};

verus! {

/// Returns true if the current compile target should be linted: only test
/// harness builds are.
pub fn should_lint_target_source(is_test_crate: bool) -> (r: bool)
    ensures
        r == is_test_crate,
{
    is_test_crate
}

/// A character that continues an identifier: `_` or alphanumeric.
pub open spec fn identifier_continue(c: char) -> bool {
    c == '_' || alphanumeric(c)
}

/// Returns true if `character` is a Rust identifier continuation.
pub fn is_identifier_continue(character: char) -> (r: bool)
    ensures
        r == identifier_continue(character),
{
    character == '_' || is_alphanumeric(character)
}

/// Text that starts with the `loop` keyword followed by a character that
/// ends it.
pub open spec fn loop_keyword_start(s: Seq<char>) -> bool {
    has_prefix(s, "loop"@) && s.len() > 4 && !identifier_continue(s[4])
}

/// Returns true if `source` starts with the keyword `loop`.
pub fn starts_with_loop_keyword(source: &[char]) -> (r: bool)
    ensures
        r == loop_keyword_start(source@),
{
    proof {
        reveal_strlit("loop");
    }
    if !starts_with_lit(source, "loop") {
        return false;
    }
    source.len() > 4 && !is_identifier_continue(source[4])
}

/// The body after a loop label: for `'label: rest`, `rest` with leading
/// whitespace trimmed.
pub open spec fn label_body(s: Seq<char>) -> Option<Seq<char>> {
    if s.len() > 0 && s[0] == '\'' {
        let rest = s.drop_first();
        match first_index_of(rest, ':') {
            Some(c) => Some(trim_start(rest.subrange(c + 1, rest.len() as int))),
            None => None,
        }
    } else {
        None
    }
}

/// Returns the text after a `'label:` prefix, trimmed.
pub fn labelled_loop_body(source: &[char]) -> (r: Option<Vec<char>>)
    ensures
        r is Some == label_body(source@) is Some,
        r matches Some(body) ==> label_body(source@) == Some(body@),
{
    if source.len() == 0 || source[0] != '\'' {
        return None;
    }
    let ghost rest = source@.drop_first();
    let mut j: usize = 1;
    while j < source.len() && source[j] != ':'
        invariant
            1 <= j <= source@.len(),
            rest == source@.drop_first(),
            forall|k: int| 1 <= k < j ==> source@[k] != ':',
        decreases source@.len() - j,
    {
        j = j + 1;
    }
    proof {
        lemma_first_index_of(rest, ':');
    }
    if j == source.len() {
        proof {
            assert forall|k: int| 0 <= k < rest.len() implies rest[k] != ':' by {
                assert(rest[k] == source@[k + 1]);
            }
            if let Some(c) = first_index_of(rest, ':') {
                assert(rest[c] == ':');
            }
        }
        return None;
    }
    proof {
        crate::text::lemma_first_index_of_unique(rest, ':', (j - 1) as int);
        assert(rest.subrange(j as int, rest.len() as int) =~= source@.subrange(j + 1, source@.len() as int));
    }
    let after = copy_range(source, j + 1, source.len());
    Some(trim_start_chars(after.as_slice()))
}

/// Source text that begins a literal `loop`, optionally labelled.
pub open spec fn literal_loop_text(s: Seq<char>) -> bool {
    let t = trim_start(s);
    loop_keyword_start(t) || (label_body(t) matches Some(body) && loop_keyword_start(body))
}

/// Returns true if the expression's source text is a literal `loop`.
pub fn is_literal_loop_text(source: &str) -> (r: bool)
    ensures
        r == literal_loop_text(source@),
{
    let c = chars_of(source);
    let trimmed = trim_start_chars(c.as_slice());
    if starts_with_loop_keyword(trimmed.as_slice()) {
        return true;
    }
    match labelled_loop_body(trimmed.as_slice()) {
        Some(body) => starts_with_loop_keyword(body.as_slice()),
        None => false,
    }
}

/// The decision of the `bare_loop` pass for one `loop` expression: written
/// literally in the user's source (not produced by a macro) and without a
/// `return` in its body. `snippet` is the expression's source text when the
/// compiler has it.
pub fn loop_expression_is_flagged(from_expansion: bool, snippet: Option<&str>, body_has_return: bool) -> (r:
    bool)
    ensures
        r == (!from_expansion && (snippet matches Some(text) && literal_loop_text(text@))
            && !body_has_return),
{
    if from_expansion {
        return false;
    }
    let literal = match snippet {
        Some(text) => is_literal_loop_text(text),
        None => false,
    };
    literal && !body_has_return
}

} // verus!
