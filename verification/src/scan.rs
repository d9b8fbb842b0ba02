//! Byte-level scanning of Rust source text: skipping comments, string and
//! character literals, and recognising the `name!` that opens a macro
//! invocation.
use vstd::prelude::*;

use crate::text::{is_ascii_ws_byte, is_ascii_whitespace_byte, is_ws, lemma_trim_keeps_non_ws, trim,
    trim_bounds};
use vstd::string::StringSliceAdditionalSpecFns;
use vstd::utf8::{decode_utf8, is_char_boundary, valid_utf8};

verus! {

/// The byte `\n`.
pub open spec fn b_newline() -> u8 { 0x0au8 }
/// The byte `/`.
pub open spec fn b_slash() -> u8 { 0x2fu8 }
/// The byte `*`.
pub open spec fn b_star() -> u8 { 0x2au8 }
/// The byte `"`.
pub open spec fn b_dquote() -> u8 { 0x22u8 }
/// The byte `'`.
pub open spec fn b_squote() -> u8 { 0x27u8 }
/// The byte `\\`.
pub open spec fn b_backslash() -> u8 { 0x5cu8 }
/// The byte `#`.
pub open spec fn b_hash() -> u8 { 0x23u8 }
/// The byte `r`.
pub open spec fn b_r() -> u8 { 0x72u8 }
/// The byte `!`.
pub open spec fn b_bang() -> u8 { 0x21u8 }

/// The byte at `k`, if `k` is inside `b`.
pub open spec fn byte_at(b: Seq<u8>, k: int) -> Option<u8> {
    if 0 <= k < b.len() {
        Some(b[k])
    } else {
        None
    }
}

/// A byte that may continue a Rust identifier: ASCII letters, digits, `_`.
pub open spec fn is_ident_byte(byte: u8) -> bool {
    (0x41u8 <= byte && byte <= 0x5au8) || (0x61u8 <= byte && byte <= 0x7au8) || (0x30u8 <= byte
        && byte <= 0x39u8) || byte == 0x5fu8
}

/// First position at or after `k` that holds a newline, or the end of `b`.
pub open spec fn line_comment_end(b: Seq<u8>, k: int) -> int
    decreases b.len() - k,
{
    if k >= b.len() || b[k] == b_newline() {
        k
    } else {
        line_comment_end(b, k + 1)
    }
}

/// End of a `"..."` literal whose body starts at `k`: one past the closing
/// quote, where a backslash makes the following byte part of the body; the
/// end of `b` when no closing quote follows.
pub open spec fn quoted_end(b: Seq<u8>, k: int) -> int
    decreases b.len() - k,
{
    if k >= b.len() {
        b.len() as int
    } else if b[k] == b_backslash() {
        if k + 2 >= b.len() {
            b.len() as int
        } else {
            quoted_end(b, k + 2)
        }
    } else if b[k] == b_dquote() {
        k + 1
    } else {
        quoted_end(b, k + 1)
    }
}

/// End of a block comment scanned from `k` with `depth` comments open:
/// `/*` opens one more, `*/` closes one, and the scan stops once a close
/// leaves none open. The end of `b` when that never happens.
pub open spec fn block_comment_end(b: Seq<u8>, k: int, depth: nat) -> int
    decreases b.len() - k,
{
    if k < 0 || k + 1 >= b.len() {
        b.len() as int
    } else if b[k] == b_slash() && b[k + 1] == b_star() {
        block_comment_end(b, k + 2, depth + 1)
    } else if b[k] == b_star() && b[k + 1] == b_slash() {
        if depth <= 1 {
            k + 2
        } else {
            block_comment_end(b, k + 2, (depth - 1) as nat)
        }
    } else {
        block_comment_end(b, k + 1, depth)
    }
}

/// First position at or after `k` that is not `#`.
pub open spec fn hash_run_end(b: Seq<u8>, k: int) -> int
    decreases b.len() - k,
{
    if 0 <= k < b.len() && b[k] == b_hash() {
        hash_run_end(b, k + 1)
    } else {
        k
    }
}

/// The byte `o + 1` places after `c` is `#`.
pub open spec fn hash_after(b: Seq<u8>, c: int, o: int) -> bool {
    b[c + 1 + o] == b_hash()
}

/// A `"` at `c` followed by `hashes` `#` bytes closes a raw string.
pub open spec fn closes_raw(b: Seq<u8>, c: int, hashes: int) -> bool {
    &&& 0 <= c < b.len()
    &&& b[c] == b_dquote()
    &&& c + 1 + hashes <= b.len()
    &&& forall|o: int| 0 <= o < hashes ==> #[trigger] hash_after(b, c, o)
}

/// One past the first raw-string closer at or after `c`, or the end of `b`.
pub open spec fn raw_close_end(b: Seq<u8>, c: int, hashes: int) -> int
    decreases b.len() - c,
{
    if c < 0 || c >= b.len() {
        b.len() as int
    } else if closes_raw(b, c, hashes) {
        c + 1 + hashes
    } else {
        raw_close_end(b, c + 1, hashes)
    }
}

/// End of a raw string literal `r#"..."#` whose `r` is at `k`, or `None`
/// when the bytes after `r` do not open one.
pub open spec fn raw_string_end(b: Seq<u8>, k: int) -> Option<int> {
    let opener = hash_run_end(b, k + 1);
    if 0 <= k && k + 1 <= b.len() && byte_at(b, opener) == Some(b_dquote()) {
        Some(raw_close_end(b, opener + 1, opener - k - 1))
    } else {
        None
    }
}

/// End of a character literal body scanned from `k`: one past the closing
/// `'`, with backslash escapes; `None` when a newline or the end comes first.
pub open spec fn char_literal_close(b: Seq<u8>, k: int) -> Option<int>
    decreases b.len() - k,
{
    if k < 0 || k >= b.len() || b[k] == b_newline() {
        None
    } else if b[k] == b_backslash() {
        if k + 2 >= b.len() {
            None
        } else {
            char_literal_close(b, k + 2)
        }
    } else if b[k] == b_squote() {
        Some(k + 1)
    } else {
        char_literal_close(b, k + 1)
    }
}

/// End of a character literal whose `'` is at `k`; `None` when fewer than
/// three bytes remain or the literal does not close on its line.
pub open spec fn char_literal_end(b: Seq<u8>, k: int) -> Option<int> {
    if k + 2 >= b.len() {
        None
    } else {
        char_literal_close(b, k + 1)
    }
}

/// Where the scan resumes when the bytes at `k` open a comment, a string or
/// a character literal; `None` when they open none of these.
pub open spec fn ignored_end(b: Seq<u8>, k: int) -> Option<int> {
    if byte_at(b, k) == Some(b_slash()) && byte_at(b, k + 1) == Some(b_slash()) {
        Some(line_comment_end(b, k))
    } else if byte_at(b, k) == Some(b_slash()) && byte_at(b, k + 1) == Some(b_star()) {
        Some(block_comment_end(b, k, 0))
    } else if byte_at(b, k) == Some(b_dquote()) {
        Some(quoted_end(b, k + 1))
    } else if byte_at(b, k) == Some(b_r()) && raw_string_end(b, k) is Some {
        raw_string_end(b, k)
    } else if byte_at(b, k) == Some(b_squote()) && char_literal_end(b, k) is Some {
        char_literal_end(b, k)
    } else {
        None
    }
}

/// A line comment ends within the text, at or after where it starts.
pub proof fn lemma_line_comment_end(b: Seq<u8>, k: int)
    requires
        0 <= k <= b.len(),
    ensures
        k <= line_comment_end(b, k) <= b.len(),
    decreases b.len() - k,
{
    if k < b.len() && b[k] != b_newline() {
        lemma_line_comment_end(b, k + 1);
    }
}

/// A string literal ends within the text, past its first body byte.
pub proof fn lemma_quoted_end(b: Seq<u8>, k: int)
    ensures
        k < b.len() ==> k < quoted_end(b, k),
        quoted_end(b, k) <= b.len(),
    decreases b.len() - k,
{
    if k < b.len() {
        if b[k] == b_backslash() {
            if k + 2 < b.len() {
                lemma_quoted_end(b, k + 2);
            }
        } else if b[k] != b_dquote() {
            lemma_quoted_end(b, k + 1);
        }
    }
}

/// A block comment ends within the text, past where the scan starts.
pub proof fn lemma_block_comment_end(b: Seq<u8>, k: int, depth: nat)
    requires
        0 <= k,
    ensures
        k < block_comment_end(b, k, depth) || k >= b.len(),
        block_comment_end(b, k, depth) <= b.len(),
    decreases b.len() - k,
{
    if k + 1 < b.len() {
        if b[k] == b_slash() && b[k + 1] == b_star() {
            lemma_block_comment_end(b, k + 2, depth + 1);
        } else if b[k] == b_star() && b[k + 1] == b_slash() {
            if depth > 1 {
                lemma_block_comment_end(b, k + 2, (depth - 1) as nat);
            }
        } else {
            lemma_block_comment_end(b, k + 1, depth);
        }
    }
}

/// The `#` run is all `#` and is not followed by another `#`.
pub proof fn lemma_hash_run_end(b: Seq<u8>, k: int)
    requires
        0 <= k,
    ensures
        k <= hash_run_end(b, k),
        k <= b.len() ==> hash_run_end(b, k) <= b.len(),
        forall|j: int| k <= j < hash_run_end(b, k) ==> b[j] == b_hash(),
        byte_at(b, hash_run_end(b, k)) != Some(b_hash()),
    decreases b.len() - k,
{
    if 0 <= k < b.len() && b[k] == b_hash() {
        lemma_hash_run_end(b, k + 1);
    }
}

/// The raw-string closer search ends within the text.
pub proof fn lemma_raw_close_end(b: Seq<u8>, c: int, hashes: int)
    requires
        0 <= c,
        0 <= hashes,
    ensures
        c <= raw_close_end(b, c, hashes) || c > b.len(),
        raw_close_end(b, c, hashes) <= b.len(),
    decreases b.len() - c,
{
    if c < b.len() && !closes_raw(b, c, hashes) {
        lemma_raw_close_end(b, c + 1, hashes);
    }
}

/// A character literal that closes does so within the text, past its start.
pub proof fn lemma_char_literal_close(b: Seq<u8>, k: int)
    ensures
        char_literal_close(b, k) matches Some(n) ==> k < n <= b.len(),
    decreases b.len() - k,
{
    if 0 <= k < b.len() && b[k] != b_newline() {
        if b[k] == b_backslash() {
            if k + 2 < b.len() {
                lemma_char_literal_close(b, k + 2);
            }
        } else if b[k] != b_squote() {
            lemma_char_literal_close(b, k + 1);
        }
    }
}

/// Skipping always moves forward and stays within the text.
pub proof fn lemma_ignored_end(b: Seq<u8>, k: int)
    requires
        0 <= k < b.len(),
    ensures
        ignored_end(b, k) matches Some(n) ==> k < n <= b.len(),
{
    if byte_at(b, k) == Some(b_slash()) && byte_at(b, k + 1) == Some(b_slash()) {
        lemma_line_comment_end(b, k + 1);
        assert(line_comment_end(b, k) == line_comment_end(b, k + 1));
    } else if byte_at(b, k) == Some(b_slash()) && byte_at(b, k + 1) == Some(b_star()) {
        lemma_block_comment_end(b, k, 0);
    } else if byte_at(b, k) == Some(b_dquote()) {
        lemma_quoted_end(b, k + 1);
    } else if byte_at(b, k) == Some(b_r()) && raw_string_end(b, k) is Some {
        let opener = hash_run_end(b, k + 1);
        lemma_hash_run_end(b, k + 1);
        lemma_raw_close_end(b, opener + 1, opener - k - 1);
    } else if byte_at(b, k) == Some(b_squote()) && char_literal_end(b, k) is Some {
        lemma_char_literal_close(b, k + 1);
    }
}

/// Skips from `//` through to the next newline (or the end of input).
pub fn skip_line_comment(bytes: &[u8], index: usize) -> (r: usize)
    ensures
        r == line_comment_end(bytes@, index as int),
{
    let mut pos = index;
    while pos < bytes.len() && bytes[pos] != 0x0au8
        invariant
            index <= pos,
            line_comment_end(bytes@, pos as int) == line_comment_end(bytes@, index as int),
        decreases bytes@.len() - pos,
    {
        pos = pos + 1;
    }
    pos
}

/// Skips a (possibly nested) `/* ... */` block comment.
pub fn skip_block_comment(bytes: &[u8], index: usize) -> (r: usize)
    ensures
        r == block_comment_end(bytes@, index as int, 0),
{
    let n = bytes.len();
    let mut pos = index;
    let mut depth: usize = 0;
    while n > 0 && pos < n - 1
        invariant
            n == bytes@.len(),
            depth <= pos,
            block_comment_end(bytes@, pos as int, depth as nat) == block_comment_end(
                bytes@,
                index as int,
                0,
            ),
        decreases n - pos,
    {
        if bytes[pos] == 0x2fu8 && bytes[pos + 1] == 0x2au8 {
            depth = depth + 1;
            pos = pos + 2;
        } else if bytes[pos] == 0x2au8 && bytes[pos + 1] == 0x2fu8 {
            if depth <= 1 {
                return pos + 2;
            }
            depth = depth - 1;
            pos = pos + 2;
        } else {
            pos = pos + 1;
        }
    }
    n
}

/// Skips a `"..."` string literal whose opening quote is at `index`,
/// honoring backslash escapes.
pub fn skip_quoted_string(bytes: &[u8], index: usize) -> (r: usize)
    ensures
        r == quoted_end(bytes@, index + 1),
{
    let n = bytes.len();
    if index >= n {
        return n;
    }
    let mut pos = index + 1;
    while pos < n
        invariant
            index < n == bytes@.len(),
            quoted_end(bytes@, pos as int) == quoted_end(bytes@, index + 1),
        decreases n - pos,
    {
        if bytes[pos] == 0x5cu8 {
            if n - pos <= 2 {
                return n;
            }
            pos = pos + 2;
        } else if bytes[pos] == 0x22u8 {
            return pos + 1;
        } else {
            pos = pos + 1;
        }
    }
    n
}

/// Skips a raw string literal `r#"..."#` (any number of `#`s) whose `r` is
/// at `index`, returning the index just past the closing delimiter.
pub fn skip_raw_string(bytes: &[u8], index: usize) -> (r: Option<usize>)
    ensures
        r is Some == raw_string_end(bytes@, index as int) is Some,
        r matches Some(e) ==> raw_string_end(bytes@, index as int) == Some(e as int),
        r matches Some(e) ==> e <= bytes@.len(),
{
    let n = bytes.len();
    if index >= n {
        return None;
    }
    let mut cursor = index + 1;
    proof {
        lemma_hash_run_end(bytes@, index + 1);
    }
    while cursor < n && bytes[cursor] == 0x23u8
        invariant
            index < cursor <= n == bytes@.len(),
            hash_run_end(bytes@, cursor as int) == hash_run_end(bytes@, index + 1),
        decreases n - cursor,
    {
        cursor = cursor + 1;
    }
    if cursor >= n || bytes[cursor] != 0x22u8 {
        return None;
    }
    let hashes = cursor - index - 1;
    let ghost opener = cursor as int;
    assert(raw_string_end(bytes@, index as int) == Some(raw_close_end(bytes@, opener + 1, hashes as int)));
    cursor = cursor + 1;
    proof {
        lemma_raw_close_end(bytes@, cursor as int, hashes as int);
    }
    while cursor < n
        invariant
            index < opener < cursor <= n == bytes@.len(),
            hashes == opener - index - 1,
            raw_string_end(bytes@, index as int) == Some(raw_close_end(bytes@, opener + 1, hashes as int)),
            raw_close_end(bytes@, cursor as int, hashes as int) == raw_close_end(
                bytes@,
                opener + 1,
                hashes as int,
            ),
        decreases n - cursor,
    {
        if bytes[cursor] == 0x22u8 && closing_hashes(bytes, cursor, hashes) {
            return Some(cursor + 1 + hashes);
        }
        cursor = cursor + 1;
    }
    Some(n)
}

/// Whether the `hashes` bytes after the quote at `cursor` are all `#`.
fn closing_hashes(bytes: &[u8], cursor: usize, hashes: usize) -> (r: bool)
    requires
        cursor < bytes@.len(),
    ensures
        r == (cursor + 1 + hashes <= bytes@.len() && forall|o: int|
            0 <= o < hashes ==> #[trigger] hash_after(bytes@, cursor as int, o)),
{
    let n = bytes.len();
    if hashes > n - cursor - 1 {
        return false;
    }
    let mut o: usize = 0;
    while o < hashes
        invariant
            cursor + 1 + hashes <= n == bytes@.len(),
            o <= hashes,
            forall|j: int| 0 <= j < o ==> #[trigger] hash_after(bytes@, cursor as int, j),
        decreases hashes - o,
    {
        if bytes[cursor + 1 + o] != 0x23u8 {
            assert(!hash_after(bytes@, cursor as int, o as int));
            return false;
        }
        o = o + 1;
    }
    true
}

/// Skips a `'.'` character literal whose quote is at `index`, honoring
/// backslash escapes.
pub fn skip_char_literal(bytes: &[u8], index: usize) -> (r: Option<usize>)
    ensures
        r is Some == char_literal_end(bytes@, index as int) is Some,
        r matches Some(e) ==> char_literal_end(bytes@, index as int) == Some(e as int),
        r matches Some(e) ==> e <= bytes@.len(),
{
    let n = bytes.len();
    if n < 3 || index >= n - 2 {
        return None;
    }
    let mut cursor = index + 1;
    proof {
        lemma_char_literal_close(bytes@, index + 1);
    }
    while cursor < n && bytes[cursor] != 0x0au8
        invariant
            index + 2 < n == bytes@.len(),
            char_literal_close(bytes@, cursor as int) == char_literal_close(bytes@, index + 1),
        decreases n - cursor,
    {
        if bytes[cursor] == 0x5cu8 {
            if n - cursor <= 2 {
                return None;
            }
            cursor = cursor + 2;
        } else if bytes[cursor] == 0x27u8 {
            return Some(cursor + 1);
        } else {
            cursor = cursor + 1;
        }
    }
    None
}

/// If `index` starts a comment, a string or a character literal, the index
/// just past it.
pub fn skip_ignored_source(bytes: &[u8], index: usize) -> (r: Option<usize>)
    ensures
        r is Some == ignored_end(bytes@, index as int) is Some,
        r matches Some(e) ==> ignored_end(bytes@, index as int) == Some(e as int),
        index < bytes@.len() ==> (r matches Some(e) ==> index < e <= bytes@.len()),
{
    let n = bytes.len();
    proof {
        if index < n {
            lemma_ignored_end(bytes@, index as int);
        }
    }
    if index >= n {
        return None;
    }
    let first = bytes[index];
    let second: Option<u8> = if index + 1 < n {
        Some(bytes[index + 1])
    } else {
        None
    };
    if first == 0x2fu8 && second == Some(0x2fu8) {
        proof {
            lemma_line_comment_end(bytes@, index as int);
        }
        return Some(skip_line_comment(bytes, index));
    }
    if first == 0x2fu8 && second == Some(0x2au8) {
        proof {
            lemma_block_comment_end(bytes@, index as int, 0);
        }
        return Some(skip_block_comment(bytes, index));
    }
    if first == 0x22u8 {
        proof {
            lemma_quoted_end(bytes@, index + 1);
        }
        return Some(skip_quoted_string(bytes, index));
    }
    if first == 0x72u8 {
        if let Some(next) = skip_raw_string(bytes, index) {
            return Some(next);
        }
    }
    if first == 0x27u8 {
        if let Some(next) = skip_char_literal(bytes, index) {
            return Some(next);
        }
    }
    None
}

/// Start of the run of ASCII whitespace that ends just before `k`.
pub open spec fn ws_run_start(b: Seq<u8>, k: int) -> int
    decreases k,
{
    if 0 < k <= b.len() && is_ascii_ws_byte(b[k - 1]) {
        ws_run_start(b, k - 1)
    } else {
        k
    }
}

/// Start of the run of identifier bytes that ends just before `k`.
pub open spec fn ident_run_start(b: Seq<u8>, k: int) -> int
    decreases k,
{
    if 0 < k <= b.len() && is_ident_byte(b[k - 1]) {
        ident_run_start(b, k - 1)
    } else {
        k
    }
}

/// Position of the `!` that precedes the delimiter at `open` (skipping
/// whitespace), if there is one.
pub open spec fn bang_before(b: Seq<u8>, open: int) -> Option<int> {
    let bang = ws_run_start(b, open);
    if bang > 0 && b[bang - 1] == b_bang() {
        Some(bang - 1)
    } else {
        None
    }
}

/// The span of the macro name written before `name!` and the delimiter at
/// `open`: the identifier bytes that end at the last non-whitespace byte
/// before the `!`.
pub open spec fn macro_name_span(b: Seq<u8>, open: int) -> Option<(int, int)> {
    match bang_before(b, open) {
        Some(bang) => {
            let end = ws_run_start(b, bang);
            Some((ident_run_start(b, end), end))
        },
        None => None,
    }
}

/// The delimiter at `open` opens an invocation of the macro named `target`.
pub open spec fn opens_target_macro(b: Seq<u8>, open: int, target: Seq<u8>) -> bool {
    match macro_name_span(b, open) {
        Some((s, e)) => b.subrange(s, e) == target,
        None => false,
    }
}

/// The delimiter at `open` opens an invocation of one of `targets`.
pub open spec fn opens_any_target_macro(b: Seq<u8>, open: int, targets: Seq<Seq<u8>>) -> bool {
    exists|k: int| 0 <= k < targets.len() && #[trigger] opens_target_macro(b, open, targets[k])
}

/// The delimiter at `open` follows `!` written after an identifier or a
/// closing `)` / `]`, which is how any macro invocation reads.
pub open spec fn opens_macro(b: Seq<u8>, open: int) -> bool {
    match bang_before(b, open) {
        Some(bang) => {
            let end = ws_run_start(b, bang);
            end > 0 && (is_ident_byte(b[end - 1]) || b[end - 1] == 0x29u8 || b[end - 1] == 0x5du8)
        },
        None => false,
    }
}

/// The whitespace run ending at `k` starts at or before `k` and is all
/// whitespace.
pub proof fn lemma_ws_run_start(b: Seq<u8>, k: int)
    requires
        0 <= k <= b.len(),
    ensures
        0 <= ws_run_start(b, k) <= k,
        forall|j: int| ws_run_start(b, k) <= j < k ==> is_ascii_ws_byte(#[trigger] b[j]),
    decreases k,
{
    if 0 < k && is_ascii_ws_byte(b[k - 1]) {
        lemma_ws_run_start(b, k - 1);
    }
}

/// The identifier run ending at `k` starts at or before `k`.
pub proof fn lemma_ident_run_start(b: Seq<u8>, k: int)
    requires
        0 <= k <= b.len(),
    ensures
        0 <= ident_run_start(b, k) <= k,
    decreases k,
{
    if 0 < k && is_ident_byte(b[k - 1]) {
        lemma_ident_run_start(b, k - 1);
    }
}

/// Whether `byte` can continue a Rust identifier.
pub fn is_identifier_byte(byte: u8) -> (r: bool)
    ensures
        r == is_ident_byte(byte),
{
    (0x41u8 <= byte && byte <= 0x5au8) || (0x61u8 <= byte && byte <= 0x7au8) || (0x30u8 <= byte
        && byte <= 0x39u8) || byte == 0x5fu8
}

/// Steps back over ASCII whitespace ending at `k`.
fn skip_ws_back(bytes: &[u8], k: usize) -> (r: usize)
    requires
        k <= bytes@.len(),
    ensures
        r == ws_run_start(bytes@, k as int),
{
    let mut i = k;
    while i > 0 && is_ascii_whitespace_byte(bytes[i - 1])
        invariant
            i <= k <= bytes@.len(),
            ws_run_start(bytes@, i as int) == ws_run_start(bytes@, k as int),
        decreases i,
    {
        i = i - 1;
    }
    i
}

/// Steps back over identifier bytes ending at `k`.
fn skip_ident_back(bytes: &[u8], k: usize) -> (r: usize)
    requires
        k <= bytes@.len(),
    ensures
        r == ident_run_start(bytes@, k as int),
{
    let mut i = k;
    while i > 0 && is_identifier_byte(bytes[i - 1])
        invariant
            i <= k <= bytes@.len(),
            ident_run_start(bytes@, i as int) == ident_run_start(bytes@, k as int),
        decreases i,
    {
        i = i - 1;
    }
    i
}

/// The span of the macro name before the delimiter at `open_index`.
pub fn macro_name_before(bytes: &[u8], open_index: usize) -> (r: Option<(usize, usize)>)
    requires
        open_index <= bytes@.len(),
    ensures
        r is Some == macro_name_span(bytes@, open_index as int) is Some,
        r matches Some((s, e)) ==> s <= e <= bytes@.len() && macro_name_span(
            bytes@,
            open_index as int,
        ) == Some((s as int, e as int)),
{
    proof {
        lemma_ws_run_start(bytes@, open_index as int);
    }
    let bang = skip_ws_back(bytes, open_index);
    if bang == 0 || bytes[bang - 1] != 0x21u8 {
        return None;
    }
    proof {
        lemma_ws_run_start(bytes@, bang - 1);
    }
    let end = skip_ws_back(bytes, bang - 1);
    proof {
        lemma_ident_run_start(bytes@, end as int);
    }
    let start = skip_ident_back(bytes, end);
    Some((start, end))
}

/// Whether the delimiter at `open_index` opens a `target!` invocation.
pub fn is_target_macro_delimiter_open(bytes: &[u8], open_index: usize, target: &str) -> (r: bool)
    requires
        open_index <= bytes@.len(),
    ensures
        r == opens_target_macro(bytes@, open_index as int, target.spec_bytes()),
{
    match macro_name_before(bytes, open_index) {
        Some((start, end)) => {
            let t = target.as_bytes();
            let same = end - start == t.len() && crate::text::bytes_match_at(bytes, start, t);
            proof {
                if same {
                    assert(bytes@.subrange(start as int, end as int) =~= t@);
                }
                if bytes@.subrange(start as int, end as int) == t@ {
                    assert(crate::text::occurs_at(bytes@, t@, start as int));
                }
            }
            same
        },
        None => false,
    }
}

/// The byte views of `targets`.
pub open spec fn target_bytes(targets: Seq<&str>) -> Seq<Seq<u8>> {
    targets.map_values(|t: &str| t.spec_bytes())
}

/// Whether the delimiter at `open_index` opens an invocation of any of
/// `targets`.
pub fn is_any_target_macro_delimiter_open(bytes: &[u8], open_index: usize, targets: &[&str]) -> (r:
    bool)
    requires
        open_index <= bytes@.len(),
    ensures
        r == opens_any_target_macro(bytes@, open_index as int, target_bytes(targets@)),
{
    let mut k: usize = 0;
    while k < targets.len()
        invariant
            open_index <= bytes@.len(),
            k <= targets@.len(),
            forall|j: int|
                0 <= j < k ==> !#[trigger] opens_target_macro(
                    bytes@,
                    open_index as int,
                    target_bytes(targets@)[j],
                ),
        decreases targets@.len() - k,
    {
        if is_target_macro_delimiter_open(bytes, open_index, targets[k]) {
            assert(opens_target_macro(bytes@, open_index as int, target_bytes(targets@)[k as int]));
            return true;
        }
        k = k + 1;
    }
    false
}

/// Whether the delimiter at `open_index` opens any `name!` invocation.
pub fn is_macro_delimiter_open(bytes: &[u8], open_index: usize) -> (r: bool)
    requires
        open_index <= bytes@.len(),
    ensures
        r == opens_macro(bytes@, open_index as int),
{
    proof {
        lemma_ws_run_start(bytes@, open_index as int);
    }
    let bang = skip_ws_back(bytes, open_index);
    if bang == 0 || bytes[bang - 1] != 0x21u8 {
        return false;
    }
    proof {
        lemma_ws_run_start(bytes@, bang - 1);
    }
    let end = skip_ws_back(bytes, bang - 1);
    end > 0 && (is_identifier_byte(bytes[end - 1]) || bytes[end - 1] == 0x29u8 || bytes[end - 1]
        == 0x5du8)
}

/// An open delimiter met while scanning: the byte that closes it, where
/// its content starts, and whether it opens a macro invocation of interest.
#[derive(Clone, Copy)]
pub struct DelimiterFrame {
    pub close: u8,
    pub content_start: usize,
    pub is_target_macro: bool,
}

/// The closing byte of the opening delimiter `byte`, if it is one.
pub open spec fn closer_of(byte: u8) -> Option<u8> {
    if byte == 0x28u8 {
        Some(0x29u8)
    } else if byte == 0x5bu8 {
        Some(0x5du8)
    } else if byte == 0x7bu8 {
        Some(0x7du8)
    } else {
        None
    }
}

/// `byte` closes a delimiter.
pub open spec fn is_closer(byte: u8) -> bool {
    byte == 0x29u8 || byte == 0x5du8 || byte == 0x7du8
}

/// Whether the delimiter at `k` is of interest: any macro invocation when
/// `any_macro`, otherwise an invocation of one of `targets`.
pub open spec fn marks_frame(b: Seq<u8>, k: int, targets: Seq<Seq<u8>>, any_macro: bool) -> bool {
    if any_macro {
        opens_macro(b, k)
    } else {
        opens_any_target_macro(b, k, targets)
    }
}

/// The open delimiters after the byte at `k`: an opener pushes a frame, a
/// closer that matches the innermost frame pops it, anything else leaves
/// the stack as it is.
pub open spec fn scan_step(
    b: Seq<u8>,
    k: int,
    targets: Seq<Seq<u8>>,
    any_macro: bool,
    frames: Seq<DelimiterFrame>,
) -> Seq<DelimiterFrame> {
    match closer_of(b[k]) {
        Some(c) => frames.push(
            DelimiterFrame {
                close: c,
                content_start: (k + 1) as usize,
                is_target_macro: marks_frame(b, k, targets, any_macro),
            },
        ),
        None => if is_closer(b[k]) && frames.len() > 0 && frames.last().close == b[k] {
            frames.drop_last()
        } else {
            frames
        },
    }
}

/// The delimiters still open when the scan from `k` reaches `end`, with
/// comments, strings and character literals skipped as whole tokens.
pub open spec fn scan_frames(
    b: Seq<u8>,
    k: int,
    end: int,
    targets: Seq<Seq<u8>>,
    any_macro: bool,
    frames: Seq<DelimiterFrame>,
) -> Seq<DelimiterFrame>
    decreases b.len() - k,
{
    if k < 0 || k >= end || end > b.len() {
        frames
    } else {
        match ignored_end(b, k) {
            Some(n) => if k < n <= b.len() {
                scan_frames(b, n, end, targets, any_macro, frames)
            } else {
                frames
            },
            None => scan_frames(
                b,
                k + 1,
                end,
                targets,
                any_macro,
                scan_step(b, k, targets, any_macro, frames),
            ),
        }
    }
}

/// The delimiters open at `end` in `b`.
pub open spec fn open_frames_at(b: Seq<u8>, end: int, targets: Seq<Seq<u8>>, any_macro: bool) -> Seq<
    DelimiterFrame,
> {
    scan_frames(b, 0, end, targets, any_macro, Seq::empty())
}

/// The innermost frame that is of interest.
pub open spec fn innermost_marked(frames: Seq<DelimiterFrame>) -> Option<DelimiterFrame>
    decreases frames.len(),
{
    if frames.len() == 0 {
        None
    } else if frames.last().is_target_macro {
        Some(frames.last())
    } else {
        innermost_marked(frames.drop_last())
    }
}

/// Scans `bytes` up to `end` and returns the delimiters still open there.
pub fn open_frames(bytes: &[u8], end: usize, targets: &[&str], any_macro: bool) -> (frames: Vec<
    DelimiterFrame,
>)
    requires
        end <= bytes@.len(),
    ensures
        frames@ == open_frames_at(bytes@, end as int, target_bytes(targets@), any_macro),
        forall|i: int| 0 <= i < frames@.len() ==> #[trigger] frames@[i].content_start <= end,
{
    let ghost ts = target_bytes(targets@);
    let mut frames: Vec<DelimiterFrame> = Vec::new();
    let mut index: usize = 0;
    while index < end
        invariant
            end <= bytes@.len(),
            ts == target_bytes(targets@),
            scan_frames(bytes@, index as int, end as int, ts, any_macro, frames@)
                == open_frames_at(bytes@, end as int, ts, any_macro),
            forall|i: int| 0 <= i < frames@.len() ==> #[trigger] frames@[i].content_start <= end,
        decreases bytes@.len() - index,
    {
        match skip_ignored_source(bytes, index) {
            Some(next) => {
                index = next;
            },
            None => {
                let byte = bytes[index];
                let ghost before = frames@;
                if byte == 0x28u8 || byte == 0x5bu8 || byte == 0x7bu8 {
                    let close = if byte == 0x28u8 {
                        0x29u8
                    } else if byte == 0x5bu8 {
                        0x5du8
                    } else {
                        0x7du8
                    };
                    let marked = if any_macro {
                        is_macro_delimiter_open(bytes, index)
                    } else {
                        is_any_target_macro_delimiter_open(bytes, index, targets)
                    };
                    frames.push(
                        DelimiterFrame { close, content_start: index + 1, is_target_macro: marked },
                    );
                } else if (byte == 0x29u8 || byte == 0x5du8 || byte == 0x7du8) && frames.len() > 0
                    && frames[frames.len() - 1].close == byte {
                    frames.pop();
                }
                assert(frames@ == scan_step(bytes@, index as int, ts, any_macro, before));
                index = index + 1;
            },
        }
    }
    frames
}

/// Content start of the innermost frame of interest.
pub fn innermost_marked_start(frames: &Vec<DelimiterFrame>) -> (r: Option<usize>)
    ensures
        r is Some == innermost_marked(frames@) is Some,
        r matches Some(s) ==> innermost_marked(frames@) matches Some(f) && f.content_start == s,
{
    let mut k = frames.len();
    let ghost f = frames@;
    assert(f.subrange(0, k as int) =~= f);
    while k > 0
        invariant
            k <= f.len(),
            f == frames@,
            innermost_marked(f.subrange(0, k as int)) == innermost_marked(f),
        decreases k,
    {
        let ghost sub = f.subrange(0, k as int);
        if frames[k - 1].is_target_macro {
            return Some(frames[k - 1].content_start);
        }
        assert(sub.drop_last() =~= f.subrange(0, k - 1));
        k = k - 1;
    }
    None
}

/// The text of `b[s..e]` when both ends fall on character boundaries.
pub open spec fn window_text(b: Seq<u8>, s: int, e: int) -> Option<Seq<char>> {
    if 0 <= s <= e <= b.len() && is_char_boundary(b, s) && is_char_boundary(b, e) {
        Some(decode_utf8(b.subrange(s, e)))
    } else {
        None
    }
}

/// Calls `str::get` with the byte range `start..end`. Its documentation
/// promises `Some` exactly when the range is in bounds and both ends fall on
/// character boundaries, holding those bytes; that is what is stated.
#[verifier::external_body]
fn str_get(source: &str, start: usize, end: usize) -> (r: Option<&str>)
    ensures
        r is Some <==> (start <= end <= source.spec_bytes().len() && is_char_boundary(
            source.spec_bytes(),
            start as int,
        ) && is_char_boundary(source.spec_bytes(), end as int)),
        r matches Some(w) ==> w.spec_bytes() == source.spec_bytes().subrange(
            start as int,
            end as int,
        ),
{
    source.get(start..end)
}

/// The characters of `source[start..end]`, when both ends are character
/// boundaries.
pub fn window_chars(source: &str, start: usize, end: usize) -> (r: Option<Vec<char>>)
    ensures
        r is Some == window_text(source.spec_bytes(), start as int, end as int) is Some,
        r matches Some(w) ==> window_text(source.spec_bytes(), start as int, end as int) == Some(
            w@,
        ),
{
    match str_get(source, start, end) {
        Some(w) => {
            let cs = crate::text::chars_of(w);
            proof {
                vstd::utf8::encode_utf8_decode_utf8(w@);
            }
            Some(cs)
        },
        None => None,
    }
}

/// Text between a macro's opening delimiter and an expression that counts
/// as the expression being the macro's condition itself: nothing but
/// whitespace, or with `allow_negation` a single `!`.
pub open spec fn bare_condition_prefix(t: Seq<char>, allow_negation: bool) -> bool {
    trim(t).len() == 0 || (allow_negation && trim(t) == seq!['!'])
}

/// The end of the scan for an expression at `byte_index`.
pub open spec fn scan_end(b: Seq<u8>, byte_index: int) -> int {
    if byte_index < b.len() {
        byte_index
    } else {
        b.len() as int
    }
}

/// The expression at `byte_index` sits directly inside the innermost open
/// invocation of one of `targets`: that invocation's opening delimiter is
/// followed by nothing but a bare condition prefix before the expression.
pub open spec fn directly_inside_target_macro(
    b: Seq<u8>,
    byte_index: int,
    targets: Seq<Seq<u8>>,
    allow_negation: bool,
) -> bool {
    let end = scan_end(b, byte_index);
    match innermost_marked(open_frames_at(b, end, targets, false)) {
        Some(f) => match window_text(b, f.content_start as int, end) {
            Some(t) => bare_condition_prefix(t, allow_negation),
            None => false,
        },
        None => false,
    }
}

/// Whether the trimmed text is empty or, when allowed, a single `!`.
pub fn is_bare_condition_prefix(t: &[char], allow_negation: bool) -> (r: bool)
    ensures
        r == bare_condition_prefix(t@, allow_negation),
{
    let (a, b) = trim_bounds(t);
    if a == b {
        return true;
    }
    let r = allow_negation && b - a == 1 && t[a] == '!';
    proof {
        let tr = t@.subrange(a as int, b as int);
        assert(tr.len() == b - a);
        assert(tr.len() > 0 ==> tr[0] == t@[a as int]);
        if r {
            assert(tr =~= seq!['!']);
        }
        if allow_negation && tr == seq!['!'] {
            assert(tr[0] == '!');
        }
    }
    r
}

/// Whether the expression at `byte_index` of `source` is directly the
/// condition of an open invocation of one of `targets`.
pub fn is_direct_target_macro_condition_at(
    source: &str,
    byte_index: usize,
    targets: &[&str],
    allow_negation: bool,
) -> (r: bool)
    ensures
        r == directly_inside_target_macro(
            source.spec_bytes(),
            byte_index as int,
            target_bytes(targets@),
            allow_negation,
        ),
{
    let bytes = source.as_bytes();
    let end = if byte_index < bytes.len() {
        byte_index
    } else {
        bytes.len()
    };
    let frames = open_frames(bytes, end, targets, false);
    match innermost_marked_start(&frames) {
        Some(start) => match window_chars(source, start, end) {
            Some(window) => is_bare_condition_prefix(window.as_slice(), allow_negation),
            None => false,
        },
        None => false,
    }
}

/// Some delimiter open at `byte_index` belongs to a macro invocation.
pub open spec fn inside_any_macro(b: Seq<u8>, byte_index: int) -> bool {
    let frames = open_frames_at(b, scan_end(b, byte_index), Seq::<Seq<u8>>::empty(), true);
    exists|i: int| 0 <= i < frames.len() && #[trigger] frames[i].is_target_macro
}

/// Whether `byte_index` is inside any open macro-invocation delimiter.
pub fn is_inside_macro_invocation_at(source: &str, byte_index: usize) -> (r: bool)
    ensures
        r == inside_any_macro(source.spec_bytes(), byte_index as int),
{
    let bytes = source.as_bytes();
    let end = if byte_index < bytes.len() {
        byte_index
    } else {
        bytes.len()
    };
    let no_targets: Vec<&str> = Vec::new();
    assert(target_bytes(no_targets@) =~= Seq::<Seq<u8>>::empty());
    let frames = open_frames(bytes, end, no_targets.as_slice(), true);
    assert(end == scan_end(source.spec_bytes(), byte_index as int));
    assert(frames@ == open_frames_at(bytes@, end as int, Seq::<Seq<u8>>::empty(), true));
    any_marked(&frames)
}

/// Whether some frame is of interest.
fn any_marked(frames: &Vec<DelimiterFrame>) -> (r: bool)
    ensures
        r == exists|i: int| 0 <= i < frames@.len() && #[trigger] frames@[i].is_target_macro,
{
    let mut k: usize = 0;
    while k < frames.len()
        invariant
            k <= frames@.len(),
            forall|i: int| 0 <= i < k ==> !#[trigger] frames@[i].is_target_macro,
        decreases frames@.len() - k,
    {
        if frames[k].is_target_macro {
            return true;
        }
        k = k + 1;
    }
    false
}

/// An invocation of a named target macro is a macro invocation.
proof fn lemma_target_open_is_macro_open(b: Seq<u8>, k: int, targets: Seq<Seq<u8>>)
    requires
        0 <= k < b.len(),
        forall|j: int| 0 <= j < targets.len() ==> #[trigger] targets[j].len() > 0,
        opens_any_target_macro(b, k, targets),
    ensures
        opens_macro(b, k),
{
    let j = choose|j: int| 0 <= j < targets.len() && #[trigger] opens_target_macro(b, k, targets[j]);
    assert(targets[j].len() > 0);
    lemma_ws_run_start(b, k);
    let bang = bang_before(b, k)->0;
    lemma_ws_run_start(b, bang);
    let end = ws_run_start(b, bang);
    lemma_ident_run_start(b, end);
    let start = ident_run_start(b, end);
    assert(macro_name_span(b, k) == Some((start, end)));
    assert(b.subrange(start, end) == targets[j]);
    assert(start != end);
}

/// Two frame stacks with the same delimiters, where every frame the first
/// marks the second marks too.
pub open spec fn frames_refine(f1: Seq<DelimiterFrame>, f2: Seq<DelimiterFrame>) -> bool {
    &&& f1.len() == f2.len()
    &&& forall|i: int| 0 <= i < f1.len() ==> (#[trigger] f1[i]).close == f2[i].close
        && f1[i].content_start == f2[i].content_start && (f1[i].is_target_macro
        ==> f2[i].is_target_macro)
}

/// Two scans open and close the same delimiters, and when every delimiter
/// the first marks the second marks too, so does every frame.
proof fn lemma_scan_refines(
    b: Seq<u8>,
    k: int,
    end: int,
    t1: Seq<Seq<u8>>,
    any1: bool,
    t2: Seq<Seq<u8>>,
    any2: bool,
    f1: Seq<DelimiterFrame>,
    f2: Seq<DelimiterFrame>,
)
    requires
        forall|p: int| 0 <= p < b.len() && #[trigger] marks_frame(b, p, t1, any1) ==> marks_frame(
            b,
            p,
            t2,
            any2,
        ),
        frames_refine(f1, f2),
    ensures
        frames_refine(scan_frames(b, k, end, t1, any1, f1), scan_frames(b, k, end, t2, any2, f2)),
    decreases b.len() - k,
{
    if k < 0 || k >= end || end > b.len() {
    } else {
        match ignored_end(b, k) {
            Some(n) => if k < n <= b.len() {
                lemma_scan_refines(b, n, end, t1, any1, t2, any2, f1, f2);
            },
            None => {
                let g1 = scan_step(b, k, t1, any1, f1);
                let g2 = scan_step(b, k, t2, any2, f2);
                if closer_of(b[k]) is Some {
                    assert(marks_frame(b, k, t1, any1) ==> marks_frame(b, k, t2, any2));
                    assert(frames_refine(g1, g2)) by {
                        assert forall|i: int| 0 <= i < g1.len() implies (#[trigger] g1[i]).close
                            == g2[i].close && g1[i].content_start == g2[i].content_start && (
                        g1[i].is_target_macro ==> g2[i].is_target_macro) by {
                            if i < f1.len() {
                                assert(g1[i] == f1[i] && g2[i] == f2[i]);
                            }
                        }
                    }
                } else if is_closer(b[k]) && f1.len() > 0 && f1.last().close == b[k] {
                    assert(f2.last().close == f1.last().close);
                    assert(frames_refine(g1, g2)) by {
                        assert forall|i: int| 0 <= i < g1.len() implies (#[trigger] g1[i]).close
                            == g2[i].close && g1[i].content_start == g2[i].content_start && (
                        g1[i].is_target_macro ==> g2[i].is_target_macro) by {
                            assert(g1[i] == f1[i] && g2[i] == f2[i]);
                        }
                    }
                } else {
                    assert(f2.len() > 0 ==> f2.last().close == f1.last().close);
                }
                lemma_scan_refines(b, k + 1, end, t1, any1, t2, any2, g1, g2);
            },
        }
    }
}

/// The innermost marked frame is one of the marked frames.
proof fn lemma_innermost_marked_is_marked(frames: Seq<DelimiterFrame>)
    requires
        innermost_marked(frames) is Some,
    ensures
        exists|i: int| 0 <= i < frames.len() && #[trigger] frames[i].is_target_macro,
    decreases frames.len(),
{
    if frames.last().is_target_macro {
        assert(frames[frames.len() - 1].is_target_macro);
    } else {
        lemma_innermost_marked_is_marked(frames.drop_last());
        let i = choose|i: int| 0 <= i < frames.drop_last().len() && #[trigger] frames.drop_last()[i].is_target_macro;
        assert(frames[i] == frames.drop_last()[i]);
    }
}

/// A position directly inside an invocation of one of some named macros is
/// inside a macro invocation: every call the assertion lints find in
/// `assert!`-like macros, the macro scan that `bare_clone` uses finds too.
pub proof fn target_macro_position_is_inside_a_macro(
    b: Seq<u8>,
    byte_index: int,
    targets: Seq<Seq<u8>>,
    allow_negation: bool,
)
    requires
        forall|j: int| 0 <= j < targets.len() ==> #[trigger] targets[j].len() > 0,
        directly_inside_target_macro(b, byte_index, targets, allow_negation),
    ensures
        inside_any_macro(b, byte_index),
{
    let end = scan_end(b, byte_index);
    let f1 = open_frames_at(b, end, targets, false);
    let f2 = open_frames_at(b, end, Seq::<Seq<u8>>::empty(), true);
    assert forall|p: int| 0 <= p < b.len() && #[trigger] marks_frame(b, p, targets, false) implies marks_frame(
        b,
        p,
        Seq::<Seq<u8>>::empty(),
        true,
    ) by {
        lemma_target_open_is_macro_open(b, p, targets);
    }
    lemma_scan_refines(b, 0, end, targets, false, Seq::empty(), true, Seq::empty(), Seq::empty());
    lemma_innermost_marked_is_marked(f1);
    let i = choose|i: int| 0 <= i < f1.len() && #[trigger] f1[i].is_target_macro;
    assert(f2[i].is_target_macro);
}

/// Each frame was opened by the byte just before its content, at or
/// before `lim`: its closer is that opener's closing byte, and it is marked
/// exactly when the opener starts an invocation of interest. The frames
/// are stacked in the order they were opened.
pub open spec fn frames_follow_openers(
    b: Seq<u8>,
    frames: Seq<DelimiterFrame>,
    lim: int,
    targets: Seq<Seq<u8>>,
    any_macro: bool,
) -> bool {
    &&& forall|i: int|
        0 <= i < frames.len() ==> 1 <= #[trigger] frames[i].content_start <= lim
            && frames[i].content_start <= b.len() && closer_of(b[frames[i].content_start - 1])
            == Some(frames[i].close) && frames[i].is_target_macro == marks_frame(
            b,
            frames[i].content_start - 1,
            targets,
            any_macro,
        )
    &&& forall|i: int, j: int|
        0 <= i < j < frames.len() ==> #[trigger] frames[i].content_start
            < #[trigger] frames[j].content_start
}

/// One scan step keeps the frames following their openers.
pub proof fn lemma_step_follows(
    b: Seq<u8>,
    k: int,
    targets: Seq<Seq<u8>>,
    any_macro: bool,
    frames: Seq<DelimiterFrame>,
)
    requires
        0 <= k < b.len() <= usize::MAX,
        frames_follow_openers(b, frames, k, targets, any_macro),
    ensures
        frames_follow_openers(b, scan_step(b, k, targets, any_macro, frames), k + 1, targets, any_macro),
{
    let g = scan_step(b, k, targets, any_macro, frames);
    if closer_of(b[k]) is Some {
        assert(g.last().content_start == k + 1);
        assert forall|i: int| 0 <= i < g.len() implies 1 <= #[trigger] g[i].content_start <= k + 1
            && g[i].content_start <= b.len() && closer_of(b[g[i].content_start - 1]) == Some(g[i].close)
            && g[i].is_target_macro == marks_frame(b, g[i].content_start - 1, targets, any_macro) by {
            if i < frames.len() {
                assert(g[i] == frames[i]);
            }
        }
        assert forall|i: int, j: int| 0 <= i < j < g.len() implies #[trigger] g[i].content_start
            < #[trigger] g[j].content_start by {
            assert(g[i] == frames[i]);
            if j < frames.len() {
                assert(g[j] == frames[j]);
            }
        }
    } else if is_closer(b[k]) && frames.len() > 0 && frames.last().close == b[k] {
        assert forall|i: int| 0 <= i < g.len() implies 1 <= #[trigger] g[i].content_start <= k + 1
            && g[i].content_start <= b.len() && closer_of(b[g[i].content_start - 1]) == Some(g[i].close)
            && g[i].is_target_macro == marks_frame(b, g[i].content_start - 1, targets, any_macro) by {
            assert(g[i] == frames[i]);
        }
        assert forall|i: int, j: int| 0 <= i < j < g.len() implies #[trigger] g[i].content_start
            < #[trigger] g[j].content_start by {
            assert(g[i] == frames[i] && g[j] == frames[j]);
        }
    }
}

/// Scanning keeps the open frames following their openers.
proof fn lemma_scan_follows(
    b: Seq<u8>,
    k: int,
    end: int,
    targets: Seq<Seq<u8>>,
    any_macro: bool,
    frames: Seq<DelimiterFrame>,
)
    requires
        0 <= k <= end <= b.len() <= usize::MAX,
        frames_follow_openers(b, frames, k, targets, any_macro),
    ensures
        frames_follow_openers(b, scan_frames(b, k, end, targets, any_macro, frames), end, targets, any_macro),
    decreases b.len() - k,
{
    if k < end {
        match ignored_end(b, k) {
            Some(n) => if k < n <= b.len() {
                if n <= end {
                    lemma_scan_follows(b, n, end, targets, any_macro, frames);
                } else {
                    assert(scan_frames(b, n, end, targets, any_macro, frames) == frames);
                }
            },
            None => {
                lemma_step_follows(b, k, targets, any_macro, frames);
                lemma_scan_follows(b, k + 1, end, targets, any_macro, scan_step(b, k, targets, any_macro, frames));
            },
        }
    }
}

/// The delimiters open at `end` follow their openers: each was opened by
/// the byte just before its content, before `end`, is closed by that
/// opener's closing byte, and is marked exactly when the opener starts an
/// invocation of interest; they are stacked in the order opened.
pub proof fn open_frames_follow_openers(b: Seq<u8>, end: int, targets: Seq<Seq<u8>>, any_macro: bool)
    requires
        0 <= end <= b.len() <= usize::MAX,
    ensures
        frames_follow_openers(b, open_frames_at(b, end, targets, any_macro), end, targets, any_macro),
{
    lemma_scan_follows(b, 0, end, targets, any_macro, Seq::empty());
}

/// Where the innermost marked frame sits: no frame after it is marked.
proof fn lemma_innermost_marked_at(frames: Seq<DelimiterFrame>) -> (i: int)
    requires
        innermost_marked(frames) is Some,
    ensures
        0 <= i < frames.len(),
        innermost_marked(frames) == Some(frames[i]),
        frames[i].is_target_macro,
        forall|j: int| i < j < frames.len() ==> !(#[trigger] frames[j]).is_target_macro,
    decreases frames.len(),
{
    if frames.last().is_target_macro {
        (frames.len() - 1) as int
    } else {
        let i = lemma_innermost_marked_at(frames.drop_last());
        assert(frames[i] == frames.drop_last()[i]);
        assert forall|j: int| i < j < frames.len() implies !(#[trigger] frames[j]).is_target_macro by {
            if j < frames.len() - 1 {
                assert(frames[j] == frames.drop_last()[j]);
            }
        }
        i
    }
}

/// A stack with a marked frame has an innermost marked frame.
proof fn lemma_marked_has_innermost(frames: Seq<DelimiterFrame>, i: int)
    requires
        0 <= i < frames.len(),
        frames[i].is_target_macro,
    ensures
        innermost_marked(frames) is Some,
    decreases frames.len(),
{
    if !frames.last().is_target_macro {
        assert(frames.drop_last()[i] == frames[i]);
        lemma_marked_has_innermost(frames.drop_last(), i);
    }
}

/// An opening delimiter inside a window leaves it no bare condition prefix.
proof fn lemma_opener_breaks_bare(b: Seq<u8>, s: int, e: int, p: int, allow_negation: bool)
    requires
        valid_utf8(b),
        s <= p < e,
        closer_of(b[p]) is Some,
        window_text(b, s, e) is Some,
    ensures
        !bare_condition_prefix(window_text(b, s, e)->0, allow_negation),
{
    let w = b.subrange(s, e);
    let suf = b.subrange(s, b.len() as int);
    vstd::utf8::valid_utf8_split(b, s);
    if e < b.len() {
        vstd::utf8::is_char_boundary_iff_not_is_continuation_byte(b, e);
        vstd::utf8::is_char_boundary_iff_not_is_continuation_byte(suf, e - s);
        assert(suf[e - s] == b[e]);
    } else {
        vstd::utf8::is_char_boundary_start_end_of_seq(suf);
    }
    vstd::utf8::valid_utf8_split(suf, e - s);
    assert(suf.subrange(0, e - s) =~= w);
    let q = p - s;
    assert(w[q] == b[p]);
    vstd::utf8::is_char_boundary_iff_not_is_continuation_byte(w, q);
    vstd::utf8::decode_utf8_split(w, q);
    vstd::utf8::valid_utf8_split(w, q);
    let v = w.subrange(q, w.len() as int);
    let x = b[p];
    assert(v[0] == x);
    assert(x == 0x28u8 || x == 0x5bu8 || x == 0x7bu8);
    assert((x & 0x7f) == x) by (bit_vector)
        requires
            x == 0x28u8 || x == 0x5bu8 || x == 0x7bu8,
    ;
    let c = vstd::utf8::decode_first_scalar(v) as char;
    assert(decode_utf8(v)[0] == c);
    let t = decode_utf8(w);
    let a = decode_utf8(w.subrange(0, q));
    assert(t[a.len() as int] == c);
    assert(c == '(' || c == '[' || c == '{');
    assert(!is_ws(c));
    lemma_trim_keeps_non_ws(t, a.len() as int);
    assert(window_text(b, s, e)->0 == t);
    if trim(t) == seq!['!'] {
        assert(trim(t).contains(c));
        assert(c == '!');
    }
}

/// Naming more macros never loses a position: an expression directly
/// inside an invocation of one of `targets1` is directly inside one of
/// `targets2` whenever every macro of `targets1` is among `targets2`. The
/// extra names can only mark more of the open delimiters, and a marked
/// delimiter opened after the first one would sit in its bare prefix.
pub proof fn target_macro_position_survives_more_targets(
    b: Seq<u8>,
    byte_index: int,
    targets1: Seq<Seq<u8>>,
    targets2: Seq<Seq<u8>>,
    allow_negation: bool,
)
    requires
        valid_utf8(b),
        b.len() <= usize::MAX,
        forall|j: int| 0 <= j < targets1.len() ==> targets2.contains(#[trigger] targets1[j]),
        directly_inside_target_macro(b, byte_index, targets1, allow_negation),
    ensures
        directly_inside_target_macro(b, byte_index, targets2, allow_negation),
{
    let end = scan_end(b, byte_index);
    let f1 = open_frames_at(b, end, targets1, false);
    let f2 = open_frames_at(b, end, targets2, false);
    assert forall|p: int| 0 <= p < b.len() && #[trigger] marks_frame(b, p, targets1, false) implies marks_frame(
        b,
        p,
        targets2,
        false,
    ) by {
        let j = choose|j: int| 0 <= j < targets1.len() && #[trigger] opens_target_macro(b, p, targets1[j]);
        let j2 = choose|j2: int| 0 <= j2 < targets2.len() && targets2[j2] == targets1[j];
        assert(opens_target_macro(b, p, targets2[j2]));
    }
    lemma_scan_refines(b, 0, end, targets1, false, targets2, false, Seq::empty(), Seq::empty());
    open_frames_follow_openers(b, end, targets2, false);
    let i = lemma_innermost_marked_at(f1);
    assert(f2[i].is_target_macro);
    lemma_marked_has_innermost(f2, i);
    let j = lemma_innermost_marked_at(f2);
    if j > i {
        let s = f2[i].content_start as int;
        let p = f2[j].content_start - 1;
        assert(f1[i].content_start == f2[i].content_start);
        lemma_opener_breaks_bare(b, s, end, p, allow_negation);
    } else if j < i {
        assert(!f2[i].is_target_macro);
    }
    assert(f1[i].content_start == f2[j].content_start);
}

} // verus!
