//! Character-level text primitives shared by the lint predicates and the
//! commit-message rules: whitespace classes, trimming, prefix, suffix and
//! substring search, and line splitting, each with the mathematical meaning
//! it is proved against.
use vstd::prelude::*;

verus! {

/// Unicode `White_Space`: the characters that `char::is_whitespace` accepts.
pub open spec fn is_ws(c: char) -> bool {
    ||| c == ' '
    ||| ('\t' <= c && c <= '\r')
    ||| c == '\u{85}'
    ||| c == '\u{a0}'
    ||| c == '\u{1680}'
    ||| ('\u{2000}' <= c && c <= '\u{200a}')
    ||| c == '\u{2028}'
    ||| c == '\u{2029}'
    ||| c == '\u{202f}'
    ||| c == '\u{205f}'
    ||| c == '\u{3000}'
}

/// The bytes that `u8::is_ascii_whitespace` accepts (no vertical tab).
pub open spec fn is_ascii_ws_byte(b: u8) -> bool {
    b == 0x20u8 || b == 0x09u8 || b == 0x0au8 || b == 0x0cu8 || b == 0x0du8
}

/// ASCII letters and digits.
pub open spec fn is_ascii_alnum(c: char) -> bool {
    ('a' <= c && c <= 'z') || ('A' <= c && c <= 'Z') || ('0' <= c && c <= '9')
}

/// Whether `c` is whitespace in the Unicode `White_Space` sense.
pub fn is_whitespace(c: char) -> (r: bool)
    ensures
        r == is_ws(c),
{
    c == ' ' || ('\t' <= c && c <= '\r') || c == '\u{85}' || c == '\u{a0}' || c == '\u{1680}'
        || ('\u{2000}' <= c && c <= '\u{200a}') || c == '\u{2028}' || c == '\u{2029}'
        || c == '\u{202f}' || c == '\u{205f}' || c == '\u{3000}'
}

/// Whether `b` is an ASCII whitespace byte.
pub fn is_ascii_whitespace_byte(b: u8) -> (r: bool)
    ensures
        r == is_ascii_ws_byte(b),
{
    b == 0x20u8 || b == 0x09u8 || b == 0x0au8 || b == 0x0cu8 || b == 0x0du8
}

/// `s` with leading whitespace removed.
pub open spec fn trim_start(s: Seq<char>) -> Seq<char>
    decreases s.len(),
{
    if s.len() > 0 && is_ws(s[0]) {
        trim_start(s.drop_first())
    } else {
        s
    }
}

/// `s` with trailing whitespace removed.
pub open spec fn trim_end(s: Seq<char>) -> Seq<char>
    decreases s.len(),
{
    if s.len() > 0 && is_ws(s.last()) {
        trim_end(s.drop_last())
    } else {
        s
    }
}

/// `s` with whitespace removed from both ends.
pub open spec fn trim(s: Seq<char>) -> Seq<char> {
    trim_end(trim_start(s))
}

/// `p` occurs in `s` starting at position `i`.
pub open spec fn occurs_at<T>(s: Seq<T>, p: Seq<T>, i: int) -> bool {
    0 <= i && i + p.len() <= s.len() && s.subrange(i, i + p.len()) == p
}

/// `s` begins with `p`.
pub open spec fn has_prefix<T>(s: Seq<T>, p: Seq<T>) -> bool {
    occurs_at(s, p, 0)
}

/// `s` ends with `p`.
pub open spec fn has_suffix<T>(s: Seq<T>, p: Seq<T>) -> bool {
    p.len() <= s.len() && occurs_at(s, p, s.len() - p.len())
}

/// `p` occurs somewhere in `s`.
pub open spec fn has_infix<T>(s: Seq<T>, p: Seq<T>) -> bool {
    exists|i: int| occurs_at(s, p, i)
}

/// Removes one trailing carriage return, as `str::lines` does before a newline.
pub open spec fn strip_cr(s: Seq<char>) -> Seq<char> {
    if s.len() > 0 && s.last() == '\r' {
        s.drop_last()
    } else {
        s
    }
}

/// Position of the first `c` in `s`, if any.
pub open spec fn first_index_of(s: Seq<char>, c: char) -> Option<int>
    decreases s.len(),
{
    if s.len() == 0 {
        None
    } else if s[0] == c {
        Some(0)
    } else {
        match first_index_of(s.drop_first(), c) {
            Some(i) => Some(i + 1),
            None => None,
        }
    }
}

/// The lines of `s` as `str::lines` yields them: split at `\n`, one `\r`
/// before each `\n` dropped, and no empty line after a final newline.
pub open spec fn lines(s: Seq<char>) -> Seq<Seq<char>>
    decreases s.len(),
{
    if s.len() == 0 {
        Seq::empty()
    } else {
        match first_index_of(s, '\n') {
            None => seq![s],
            Some(i) => {
                if 0 <= i < s.len() {
                    seq![strip_cr(s.subrange(0, i))] + lines(s.subrange(i + 1, s.len() as int))
                } else {
                    seq![s]
                }
            },
        }
    }
}

/// `first_index_of` finds the first occurrence, or there is none.
pub proof fn lemma_first_index_of(s: Seq<char>, c: char)
    ensures
        match first_index_of(s, c) {
            Some(i) => 0 <= i < s.len() && s[i] == c && forall|j: int| 0 <= j < i ==> s[j] != c,
            None => forall|j: int| 0 <= j < s.len() ==> s[j] != c,
        },
    decreases s.len(),
{
    if s.len() > 0 && s[0] != c {
        lemma_first_index_of(s.drop_first(), c);
        match first_index_of(s.drop_first(), c) {
            Some(i) => {
                assert forall|j: int| 0 <= j < i + 1 implies s[j] != c by {
                    if j > 0 {
                        assert(s[j] == s.drop_first()[j - 1]);
                    }
                }
            },
            None => {
                assert forall|j: int| 0 <= j < s.len() implies s[j] != c by {
                    if j > 0 {
                        assert(s[j] == s.drop_first()[j - 1]);
                    }
                }
            },
        }
    }
}

/// A position holding `c` with no `c` before it is the first index of `c`.
pub proof fn lemma_first_index_of_unique(s: Seq<char>, c: char, k: int)
    requires
        0 <= k < s.len(),
        s[k] == c,
        forall|j: int| 0 <= j < k ==> s[j] != c,
    ensures
        first_index_of(s, c) == Some(k),
{
    lemma_first_index_of(s, c);
}

/// The characters of a string slice.
pub fn chars_of(s: &str) -> (out: Vec<char>)
    ensures
        out@ == s@,
{
    let mut out: Vec<char> = Vec::new();
    for c in it: s.chars()
        invariant
            out@ == it.seq().take(it.index() as int),
    {
        out.push(c);
    }
    out
}

/// A copy of `s[start..end]`.
pub fn copy_range<T: Copy>(s: &[T], start: usize, end: usize) -> (out: Vec<T>)
    requires
        start <= end <= s@.len(),
    ensures
        out@ == s@.subrange(start as int, end as int),
{
    let mut out: Vec<T> = Vec::new();
    let mut i = start;
    while i < end
        invariant
            start <= i <= end <= s@.len(),
            out@ == s@.subrange(start as int, i as int),
        decreases end - i,
    {
        out.push(s[i]);
        i = i + 1;
    }
    out
}

/// Collects the characters of `s` into a `String`.
pub fn string_of(s: &[char]) -> (out: String)
    ensures
        out@ == s@,
{
    let mut out = String::new();
    let mut i: usize = 0;
    while i < s.len()
        invariant
            i <= s@.len(),
            out@ == s@.subrange(0, i as int),
        decreases s@.len() - i,
    {
        push_char(&mut out, s[i]);
        i = i + 1;
    }
    out
}

/// Calls `String::push`, which std documents as appending the character to
/// the end of the string; that is all that is stated.
#[verifier::external_body]
fn push_char(s: &mut String, c: char)
    ensures
        final(s)@ == old(s)@.push(c),
{
    s.push(c);
}

/// Whether the characters `p` occur in `s` at position `i`.
pub fn chars_match_at(s: &[char], i: usize, p: &[char]) -> (r: bool)
    ensures
        r == occurs_at(s@, p@, i as int),
{
    if i > s.len() || p.len() > s.len() - i {
        return false;
    }
    let mut k: usize = 0;
    while k < p.len()
        invariant
            i + p@.len() <= s@.len(),
            s@.len() == s.len(),
            k <= p@.len(),
            forall|j: int| 0 <= j < k ==> s@[i + j] == p@[j],
        decreases p@.len() - k,
    {
        if s[i + k] != p[k] {
            assert(s@.subrange(i as int, i + p@.len())[k as int] != p@[k as int]);
            return false;
        }
        k = k + 1;
    }
    assert(s@.subrange(i as int, i + p@.len()) =~= p@);
    true
}

/// Whether the bytes `p` occur in `s` at position `i`.
pub fn bytes_match_at(s: &[u8], i: usize, p: &[u8]) -> (r: bool)
    ensures
        r == occurs_at(s@, p@, i as int),
{
    if i > s.len() || p.len() > s.len() - i {
        return false;
    }
    let mut k: usize = 0;
    while k < p.len()
        invariant
            i + p@.len() <= s@.len(),
            s@.len() == s.len(),
            k <= p@.len(),
            forall|j: int| 0 <= j < k ==> s@[i + j] == p@[j],
        decreases p@.len() - k,
    {
        if s[i + k] != p[k] {
            assert(s@.subrange(i as int, i + p@.len())[k as int] != p@[k as int]);
            return false;
        }
        k = k + 1;
    }
    assert(s@.subrange(i as int, i + p@.len()) =~= p@);
    true
}

/// Index of the first character of `s` that is not whitespace (or `s.len()`).
pub fn trim_start_index(s: &[char]) -> (k: usize)
    ensures
        k <= s@.len(),
        s@.subrange(k as int, s@.len() as int) == trim_start(s@),
{
    let n = s.len();
    let mut i: usize = 0;
    assert(s@.subrange(0, n as int) =~= s@);
    while i < n && is_whitespace(s[i])
        invariant
            i <= n == s@.len(),
            trim_start(s@) == trim_start(s@.subrange(i as int, n as int)),
        decreases n - i,
    {
        let ghost sub = s@.subrange(i as int, n as int);
        assert(sub.drop_first() =~= s@.subrange(i + 1, n as int));
        i = i + 1;
    }
    i
}

/// Length of `s` once trailing whitespace is removed.
pub fn trim_end_index(s: &[char]) -> (k: usize)
    ensures
        k <= s@.len(),
        s@.subrange(0, k as int) == trim_end(s@),
{
    let mut j: usize = s.len();
    assert(s@.subrange(0, j as int) =~= s@);
    while j > 0 && is_whitespace(s[j - 1])
        invariant
            j <= s@.len(),
            trim_end(s@) == trim_end(s@.subrange(0, j as int)),
        decreases j,
    {
        let ghost sub = s@.subrange(0, j as int);
        assert(sub.drop_last() =~= s@.subrange(0, j - 1));
        j = j - 1;
    }
    j
}

/// Bounds of `s` with whitespace trimmed from both ends.
pub fn trim_bounds(s: &[char]) -> (r: (usize, usize))
    ensures
        r.0 <= r.1 <= s@.len(),
        s@.subrange(r.0 as int, r.1 as int) == trim(s@),
{
    let a = trim_start_index(s);
    let n = s.len();
    let ghost t = s@.subrange(a as int, n as int);
    let mut j: usize = n;
    assert(s@.subrange(a as int, j as int) =~= t);
    while j > a && is_whitespace(s[j - 1])
        invariant
            a <= j <= n == s@.len(),
            t == s@.subrange(a as int, n as int),
            trim_end(t) == trim_end(s@.subrange(a as int, j as int)),
        decreases j,
    {
        let ghost sub = s@.subrange(a as int, j as int);
        assert(sub.drop_last() =~= s@.subrange(a as int, j - 1));
        j = j - 1;
    }
    (a, j)
}

/// `s` with whitespace trimmed from both ends.
pub fn trim_chars(s: &[char]) -> (out: Vec<char>)
    ensures
        out@ == trim(s@),
{
    let (a, b) = trim_bounds(s);
    copy_range(s, a, b)
}

/// `s` with leading whitespace trimmed.
pub fn trim_start_chars(s: &[char]) -> (out: Vec<char>)
    ensures
        out@ == trim_start(s@),
{
    let a = trim_start_index(s);
    copy_range(s, a, s.len())
}

/// Whether `s` is exactly the text `lit`.
pub fn is_lit(s: &[char], lit: &str) -> (r: bool)
    ensures
        r == (s@ == lit@),
{
    let l = chars_of(lit);
    if l.len() != s.len() {
        return false;
    }
    let r = chars_match_at(s, 0, l.as_slice());
    assert(r ==> s@ =~= l@.subrange(0, l@.len() as int)) by {
        if r {
            assert(s@.subrange(0, l@.len() as int) =~= s@);
        }
    };
    assert(l@.subrange(0, l@.len() as int) =~= l@);
    r
}

/// Whether `s` begins with the text `lit`.
pub fn starts_with_lit(s: &[char], lit: &str) -> (r: bool)
    ensures
        r == has_prefix(s@, lit@),
{
    let l = chars_of(lit);
    chars_match_at(s, 0, l.as_slice())
}

/// Whether `s` ends with the text `lit`.
pub fn ends_with_lit(s: &[char], lit: &str) -> (r: bool)
    ensures
        r == has_suffix(s@, lit@),
{
    let l = chars_of(lit);
    if l.len() > s.len() {
        return false;
    }
    chars_match_at(s, s.len() - l.len(), l.as_slice())
}

/// Position of the first occurrence of `p` in `s`.
pub fn find_chars(s: &[char], p: &[char]) -> (r: Option<usize>)
    ensures
        match r {
            Some(i) => occurs_at(s@, p@, i as int) && forall|j: int|
                0 <= j < i ==> !#[trigger] occurs_at(s@, p@, j),
            None => forall|j: int| !#[trigger] occurs_at(s@, p@, j),
        },
{
    let mut i: usize = 0;
    loop
        invariant
            i <= s@.len(),
            forall|j: int| 0 <= j < i ==> !#[trigger] occurs_at(s@, p@, j),
        decreases s@.len() - i,
    {
        if chars_match_at(s, i, p) {
            return Some(i);
        }
        if i == s.len() {
            return None;
        }
        i = i + 1;
    }
}

/// Whether `lit` occurs anywhere in `s`.
pub fn contains_lit(s: &[char], lit: &str) -> (r: bool)
    ensures
        r == has_infix(s@, lit@),
{
    let l = chars_of(lit);
    match find_chars(s, l.as_slice()) {
        Some(i) => true,
        None => false,
    }
}

/// The lines of `s`, as `str::lines` yields them.
pub fn lines_of(s: &[char]) -> (out: Vec<Vec<char>>)
    ensures
        out@.len() == lines(s@).len(),
        forall|k: int| 0 <= k < out@.len() ==> #[trigger] out@[k]@ == lines(s@)[k],
{
    let n = s.len();
    let mut out: Vec<Vec<char>> = Vec::new();
    let mut i: usize = 0;
    let ghost mut done: Seq<Seq<char>> = Seq::empty();
    assert(s@.subrange(0, n as int) =~= s@);
    while i < n
        invariant
            i <= n == s@.len(),
            out@.len() == done.len(),
            forall|k: int| 0 <= k < out@.len() ==> #[trigger] out@[k]@ == done[k],
            lines(s@) == done + lines(s@.subrange(i as int, n as int)),
        decreases n - i,
    {
        let ghost sub = s@.subrange(i as int, n as int);
        let mut j = i;
        while j < n && s[j] != '\n'
            invariant
                i <= j <= n == s@.len(),
                forall|k: int| i <= k < j ==> s@[k] != '\n',
            decreases n - j,
        {
            j = j + 1;
        }
        let mut e = j;
        if e > i && s[e - 1] == '\r' && j < n {
            e = e - 1;
        }
        let line = copy_range(s, i, e);
        proof {
            if j < n {
                lemma_first_index_of_unique(sub, '\n', (j - i) as int);
                assert(sub.subrange(0, (j - i) as int) =~= s@.subrange(i as int, j as int));
                assert(sub.subrange((j - i) + 1, sub.len() as int) =~= s@.subrange(j + 1, n as int));
                assert(line@ == strip_cr(s@.subrange(i as int, j as int))) by {
                    let w = s@.subrange(i as int, j as int);
                    if w.len() > 0 && w.last() == '\r' {
                        assert(w.drop_last() =~= line@);
                    } else {
                        assert(w =~= line@);
                    }
                };
            } else {
                lemma_first_index_of(sub, '\n');
                assert(line@ =~= sub);
                assert(s@.subrange(n as int, n as int) =~= Seq::<char>::empty());
            }
            done = done.push(line@);
        }
        out.push(line);
        if j < n {
            i = j + 1;
        } else {
            i = n;
        }
        proof {
            assert(lines(s@) == done + lines(s@.subrange(i as int, n as int))) by {
                if j < n {
                    assert(lines(sub) == seq![line@] + lines(s@.subrange(j + 1, n as int)));
                } else {
                    assert(lines(sub) == seq![line@]);
                    assert(lines(s@.subrange(n as int, n as int)) == Seq::<Seq<char>>::empty());
                }
                assert(done == done.drop_last().push(line@));
                assert(done.drop_last() + (seq![line@] + lines(s@.subrange(i as int, n as int)))
                    =~= done + lines(s@.subrange(i as int, n as int)));
            };
        }
    }
    assert(lines(s@.subrange(n as int, n as int)) == Seq::<Seq<char>>::empty()) by {
        assert(s@.subrange(n as int, n as int).len() == 0);
    };
    assert(done + Seq::<Seq<char>>::empty() =~= done);
    out
}

/// The last position at or before `k` where `p` occurs in `s`.
pub open spec fn last_occurrence_from<T>(s: Seq<T>, p: Seq<T>, k: int) -> Option<int>
    decreases k + 1,
{
    if k < 0 {
        None
    } else if occurs_at(s, p, k) {
        Some(k)
    } else {
        last_occurrence_from(s, p, k - 1)
    }
}

/// The position of the last occurrence of `p` in `s`, as `str::rfind`.
pub open spec fn last_occurrence<T>(s: Seq<T>, p: Seq<T>) -> Option<int> {
    last_occurrence_from(s, p, s.len() as int)
}

/// Position of the last occurrence of `p` in `s`.
pub fn rfind(s: &[char], p: &[char]) -> (r: Option<usize>)
    ensures
        r is Some == last_occurrence(s@, p@) is Some,
        r matches Some(i) ==> last_occurrence(s@, p@) == Some(i as int) && i + p@.len() <= s@.len(),
{
    let mut i: usize = s.len();
    loop
        invariant
            i <= s@.len(),
            last_occurrence_from(s@, p@, i as int) == last_occurrence(s@, p@),
        decreases i,
    {
        if chars_match_at(s, i, p) {
            return Some(i);
        }
        if i == 0 {
            return None;
        }
        i = i - 1;
    }
}

/// Number of occurrences of `c` in `s`.
pub open spec fn count_of(s: Seq<char>, c: char) -> nat
    decreases s.len(),
{
    if s.len() == 0 {
        0
    } else {
        count_of(s.drop_last(), c) + if s.last() == c {
            1nat
        } else {
            0nat
        }
    }
}

/// A character occurs at most as often as the text is long.
pub proof fn lemma_count_of_bound(s: Seq<char>, c: char)
    ensures
        count_of(s, c) <= s.len(),
    decreases s.len(),
{
    if s.len() > 0 {
        lemma_count_of_bound(s.drop_last(), c);
    }
}

/// Counts the occurrences of `c` among the first `end` characters of `s`.
pub fn count_char(s: &[char], end: usize, c: char) -> (r: usize)
    requires
        end <= s@.len(),
    ensures
        r == count_of(s@.subrange(0, end as int), c),
{
    let mut i: usize = 0;
    let mut count: usize = 0;
    while i < end
        invariant
            i <= end <= s@.len(),
            count == count_of(s@.subrange(0, i as int), c),
        decreases end - i,
    {
        proof {
            assert(s@.subrange(0, i + 1).drop_last() =~= s@.subrange(0, i as int));
            lemma_count_of_bound(s@.subrange(0, i as int), c);
        }
        if s[i] == c {
            count = count + 1;
        }
        i = i + 1;
    }
    count
}

/// The pieces of `s` between occurrences of `c`, as `str::split` with a
/// character separator yields them (empty pieces included).
pub open spec fn split_on(s: Seq<char>, c: char) -> Seq<Seq<char>>
    decreases s.len(),
{
    match first_index_of(s, c) {
        Some(i) => if 0 <= i < s.len() {
            seq![s.subrange(0, i)] + split_on(s.subrange(i + 1, s.len() as int), c)
        } else {
            seq![s]
        },
        None => seq![s],
    }
}

/// The pieces of `s` separated by `c`.
pub fn split_chars(s: &[char], c: char) -> (out: Vec<Vec<char>>)
    ensures
        out@.len() == split_on(s@, c).len(),
        forall|k: int| 0 <= k < out@.len() ==> #[trigger] out@[k]@ == split_on(s@, c)[k],
{
    let n = s.len();
    let mut out: Vec<Vec<char>> = Vec::new();
    let mut i: usize = 0;
    let ghost mut done: Seq<Seq<char>> = Seq::empty();
    assert(s@.subrange(0, n as int) =~= s@);
    loop
        invariant
            i <= n == s@.len(),
            out@.len() == done.len(),
            forall|k: int| 0 <= k < out@.len() ==> #[trigger] out@[k]@ == done[k],
            split_on(s@, c) == done + split_on(s@.subrange(i as int, n as int), c),
        decreases n - i,
    {
        let ghost sub = s@.subrange(i as int, n as int);
        let mut j = i;
        while j < n && s[j] != c
            invariant
                i <= j <= n == s@.len(),
                forall|k: int| i <= k < j ==> s@[k] != c,
            decreases n - j,
        {
            j = j + 1;
        }
        let piece = copy_range(s, i, j);
        proof {
            if j < n {
                lemma_first_index_of_unique(sub, c, (j - i) as int);
                assert(sub.subrange(0, (j - i) as int) =~= piece@);
                assert(sub.subrange((j - i) + 1, sub.len() as int) =~= s@.subrange(j + 1, n as int));
            } else {
                lemma_first_index_of(sub, c);
                assert(piece@ =~= sub);
            }
            done = done.push(piece@);
        }
        out.push(piece);
        if j >= n {
            proof {
                assert(split_on(sub, c) == seq![piece@]);
                assert(done.drop_last() + seq![piece@] =~= done);
            }
            return out;
        }
        i = j + 1;
        proof {
            assert(done.drop_last() + (seq![piece@] + split_on(s@.subrange(i as int, n as int), c))
                =~= done + split_on(s@.subrange(i as int, n as int), c));
        }
    }
}

/// The text after the last `::` in `s` (all of `s` without one), as
/// `s.rsplit("::").next()` gives it.
pub open spec fn after_last_path_sep(s: Seq<char>) -> Seq<char> {
    match last_occurrence(s, "::"@) {
        Some(i) => s.subrange(i + 2, s.len() as int),
        None => s,
    }
}

/// The text after the last `::` in `s`.
pub fn after_last_path_separator(s: &[char]) -> (r: Vec<char>)
    ensures
        r@ == after_last_path_sep(s@),
{
    let sep = chars_of("::");
    proof {
        reveal_strlit("::");
    }
    assert(sep@.len() == 2);
    let n = s.len();
    match rfind(s, sep.as_slice()) {
        Some(i) => copy_range(s, i + 2, n),
        None => copy_range(s, 0, s.len()),
    }
}

/// What `trim_end` keeps is a prefix of `s` that ends with a non-whitespace
/// character.
pub proof fn lemma_trim_end(s: Seq<char>)
    ensures
        trim_end(s).len() <= s.len(),
        trim_end(s) == s.subrange(0, trim_end(s).len() as int),
        trim_end(s).len() > 0 ==> !is_ws(trim_end(s).last()),
    decreases s.len(),
{
    if s.len() > 0 && is_ws(s.last()) {
        lemma_trim_end(s.drop_last());
        assert(s.drop_last().subrange(0, trim_end(s).len() as int) =~= s.subrange(
            0,
            trim_end(s).len() as int,
        ));
    } else {
        assert(s.subrange(0, s.len() as int) =~= s);
    }
}

/// What `trim_start` keeps is a suffix of `s` that starts with a
/// non-whitespace character.
pub proof fn lemma_trim_start(s: Seq<char>)
    ensures
        trim_start(s).len() <= s.len(),
        trim_start(s) == s.subrange(s.len() - trim_start(s).len(), s.len() as int),
        trim_start(s).len() > 0 ==> !is_ws(trim_start(s)[0]),
        forall|k: int| 0 <= k < s.len() - trim_start(s).len() ==> is_ws(#[trigger] s[k]),
    decreases s.len(),
{
    if s.len() > 0 && is_ws(s[0]) {
        lemma_trim_start(s.drop_first());
        let t = trim_start(s.drop_first());
        assert(s.drop_first().subrange(s.len() - 1 - t.len(), s.len() - 1) =~= s.subrange(
            s.len() - t.len(),
            s.len() as int,
        ));
        assert forall|k: int| 0 <= k < s.len() - trim_start(s).len() implies is_ws(#[trigger] s[k]) by {
            if k > 0 {
                assert(s[k] == s.drop_first()[k - 1]);
            }
        }
    } else {
        assert(s.subrange(0, s.len() as int) =~= s);
    }
}

/// `trim_end` keeps every character up to the last non-whitespace one.
proof fn lemma_trim_end_keeps(u: Seq<char>, k: int)
    requires
        0 <= k < u.len(),
        !is_ws(u[k]),
    ensures
        k < trim_end(u).len(),
    decreases u.len(),
{
    if u.len() > 0 && is_ws(u.last()) {
        assert(u.drop_last()[k] == u[k]);
        lemma_trim_end_keeps(u.drop_last(), k);
    }
}

/// A non-whitespace character survives trimming.
pub proof fn lemma_trim_keeps_non_ws(t: Seq<char>, i: int)
    requires
        0 <= i < t.len(),
        !is_ws(t[i]),
    ensures
        trim(t).contains(t[i]),
{
    lemma_trim_start(t);
    let u = trim_start(t);
    let m = t.len() - u.len();
    if i < m {
        assert(is_ws(t[i]));
    }
    assert(u[i - m] == t[i]);
    lemma_trim_end_keeps(u, i - m);
    lemma_trim_end(u);
    assert(trim(t)[i - m] == t[i]);
}

/// The leading run of non-whitespace characters of `t`.
pub open spec fn take_non_ws(t: Seq<char>) -> Seq<char>
    decreases t.len(),
{
    if t.len() > 0 && !is_ws(t[0]) {
        seq![t[0]] + take_non_ws(t.drop_first())
    } else {
        Seq::empty()
    }
}

/// `take_non_ws` is the longest prefix without whitespace.
pub proof fn lemma_take_non_ws(t: Seq<char>)
    ensures
        take_non_ws(t).len() <= t.len(),
        take_non_ws(t) == t.subrange(0, take_non_ws(t).len() as int),
        forall|k: int| 0 <= k < take_non_ws(t).len() ==> !is_ws(#[trigger] t[k]),
        take_non_ws(t).len() < t.len() ==> is_ws(t[take_non_ws(t).len() as int]),
        t.len() > 0 && !is_ws(t[0]) ==> take_non_ws(t).len() >= 1,
    decreases t.len(),
{
    if t.len() > 0 && !is_ws(t[0]) {
        lemma_take_non_ws(t.drop_first());
        let w = take_non_ws(t.drop_first());
        assert(seq![t[0]] + w =~= t.subrange(0, w.len() as int + 1));
        assert forall|k: int| 0 <= k < take_non_ws(t).len() implies !is_ws(#[trigger] t[k]) by {
            if k > 0 {
                assert(t[k] == t.drop_first()[k - 1]);
            }
        }
    } else {
        assert(t.subrange(0, 0) =~= Seq::<char>::empty());
    }
}

/// The words of `s`, as `str::split_whitespace` yields them: the maximal
/// runs of non-whitespace characters, in order.
pub open spec fn words(s: Seq<char>) -> Seq<Seq<char>>
    decreases s.len(),
{
    let t = trim_start(s);
    if t.len() == 0 {
        Seq::empty()
    } else {
        let w = take_non_ws(t);
        proof {
            lemma_trim_start(s);
            lemma_take_non_ws(t);
        }
        seq![w] + words(t.subrange(w.len() as int, t.len() as int))
    }
}

/// Leading whitespace does not change what `trim_start` keeps.
proof fn lemma_trim_start_ws_prefix(w: Seq<char>, t: Seq<char>)
    requires
        forall|i: int| 0 <= i < w.len() ==> is_ws(#[trigger] w[i]),
    ensures
        trim_start(w + t) == trim_start(t),
    decreases w.len(),
{
    if w.len() > 0 {
        assert((w + t)[0] == w[0]);
        assert((w + t).drop_first() =~= w.drop_first() + t);
        assert forall|i: int| 0 <= i < w.drop_first().len() implies is_ws(#[trigger] w.drop_first()[i]) by {
            assert(w.drop_first()[i] == w[i + 1]);
        }
        lemma_trim_start_ws_prefix(w.drop_first(), t);
    } else {
        assert(w + t =~= t);
    }
}

/// A run without whitespace followed by nothing or by whitespace is the
/// whole leading run.
proof fn lemma_take_non_ws_word(d: Seq<char>, rest: Seq<char>)
    requires
        forall|i: int| 0 <= i < d.len() ==> !is_ws(#[trigger] d[i]),
        rest.len() == 0 || is_ws(rest[0]),
    ensures
        take_non_ws(d + rest) == d,
    decreases d.len(),
{
    if d.len() > 0 {
        assert((d + rest)[0] == d[0]);
        assert((d + rest).drop_first() =~= d.drop_first() + rest);
        assert forall|i: int| 0 <= i < d.drop_first().len() implies !is_ws(#[trigger] d.drop_first()[i]) by {
            assert(d.drop_first()[i] == d[i + 1]);
        }
        lemma_take_non_ws_word(d.drop_first(), rest);
        assert(seq![d[0]] + d.drop_first() =~= d);
    } else {
        assert(d + rest =~= rest);
    }
}

/// Whitespace, then a word, then nothing or whitespace: that word comes
/// first, followed by the words of the rest.
pub proof fn lemma_words_lead(w: Seq<char>, d: Seq<char>, rest: Seq<char>)
    requires
        forall|i: int| 0 <= i < w.len() ==> is_ws(#[trigger] w[i]),
        d.len() > 0,
        forall|i: int| 0 <= i < d.len() ==> !is_ws(#[trigger] d[i]),
        rest.len() == 0 || is_ws(rest[0]),
    ensures
        words(w + d + rest) == seq![d] + words(rest),
{
    let s = w + d + rest;
    assert(s =~= w + (d + rest));
    lemma_trim_start_ws_prefix(w, d + rest);
    assert((d + rest)[0] == d[0]);
    assert(trim_start(d + rest) == d + rest);
    lemma_take_non_ws_word(d, rest);
    let t = d + rest;
    assert(t.subrange(d.len() as int, t.len() as int) =~= rest);
}

/// The words of `s`.
pub fn words_of(s: &[char]) -> (out: Vec<Vec<char>>)
    ensures
        out@.len() == words(s@).len(),
        forall|k: int| 0 <= k < out@.len() ==> #[trigger] out@[k]@ == words(s@)[k],
{
    let n = s.len();
    let mut out: Vec<Vec<char>> = Vec::new();
    let mut i: usize = 0;
    let ghost mut done: Seq<Seq<char>> = Seq::empty();
    assert(s@.subrange(0, n as int) =~= s@);
    while i < n
        invariant
            i <= n == s@.len(),
            out@.len() == done.len(),
            forall|k: int| 0 <= k < out@.len() ==> #[trigger] out@[k]@ == done[k],
            words(s@) == done + words(s@.subrange(i as int, n as int)),
        decreases n - i,
    {
        let ghost sub = s@.subrange(i as int, n as int);
        let mut j = i;
        while j < n && is_whitespace(s[j])
            invariant
                i <= j <= n == s@.len(),
                trim_start(sub) == trim_start(s@.subrange(j as int, n as int)),
            decreases n - j,
        {
            assert(s@.subrange(j as int, n as int).drop_first() =~= s@.subrange(j + 1, n as int));
            j = j + 1;
        }
        let ghost t = s@.subrange(j as int, n as int);
        assert(trim_start(t) == t);
        if j == n {
            proof {
                assert(t.len() == 0);
                assert(words(sub) == Seq::<Seq<char>>::empty());
                assert(done + Seq::<Seq<char>>::empty() =~= done);
                assert(words(s@.subrange(n as int, n as int)) == Seq::<Seq<char>>::empty());
            }
            i = n;
        } else {
            let mut e = j;
            while e < n && !is_whitespace(s[e])
                invariant
                    j <= e <= n == s@.len(),
                    take_non_ws(t) == s@.subrange(j as int, e as int) + take_non_ws(s@.subrange(e as int, n as int)),
                decreases n - e,
            {
                assert(s@.subrange(e as int, n as int).drop_first() =~= s@.subrange(e + 1, n as int));
                assert(s@.subrange(j as int, e as int) + seq![s@[e as int]] =~= s@.subrange(j as int, e + 1));
                e = e + 1;
            }
            proof {
                assert(take_non_ws(s@.subrange(e as int, n as int)) == Seq::<char>::empty());
                assert(take_non_ws(t) =~= s@.subrange(j as int, e as int));
                assert(t.subrange((e - j) as int, t.len() as int) =~= s@.subrange(e as int, n as int));
                assert(words(sub) == seq![s@.subrange(j as int, e as int)] + words(s@.subrange(e as int, n as int)));
            }
            let word = copy_range(s, j, e);
            proof {
                done = done.push(word@);
                assert(done.drop_last() + (seq![word@] + words(s@.subrange(e as int, n as int)))
                    =~= done + words(s@.subrange(e as int, n as int)));
            }
            out.push(word);
            i = e;
        }
    }
    proof {
        assert(words(s@.subrange(n as int, n as int)) == Seq::<Seq<char>>::empty());
        assert(done + Seq::<Seq<char>>::empty() =~= done);
    }
    out
}

} // verus!
