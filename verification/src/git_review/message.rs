//! The Atomic Changes commit-message form: one canonical verb and a simple
//! summary in the subject, canonical action bullets in the body, wrapped
//! lines and no trailing whitespace.
use vstd::prelude::*;

use crate::error::{SkillError, invalid};
use crate::text::{chars_of, copy_range, first_index_of, has_prefix, is_lit, is_whitespace, is_ws,
    lemma_first_index_of, lines, lines_of, starts_with_lit, string_of, trim, trim_chars,
    trim_start, trim_start_chars};
use crate::unicode::{alphanumeric, is_alphanumeric};

verus! {

/// The canonical Atomic Changes action verbs, in transformation-priority
/// order.
#[derive(Clone, Copy, Debug, PartialEq, Eq)]
pub enum Verb {
    /// Remove existing capability.
    Remove,
    /// Fix an invalid state.
    Fix,
    /// Move code without changing its shape.
    Move,
    /// Rename identifiers.
    Rename,
    /// Restructure without changing behavior.
    Refactor,
    /// Change observable behavior.
    Change,
    /// Add public capability.
    Add,
    /// Upgrade a dependency.
    Upgrade,
    /// Downgrade a dependency.
    Downgrade,
}

/// The capitalised text of a verb.
pub open spec fn verb_text(verb: Verb) -> Seq<char> {
    match verb {
        Verb::Remove => "Remove"@,
        Verb::Fix => "Fix"@,
        Verb::Move => "Move"@,
        Verb::Rename => "Rename"@,
        Verb::Refactor => "Refactor"@,
        Verb::Change => "Change"@,
        Verb::Add => "Add"@,
        Verb::Upgrade => "Upgrade"@,
        Verb::Downgrade => "Downgrade"@,
    }
}

impl Verb {
    /// The canonical capitalised verb.
    pub fn as_str(self) -> (r: &'static str)
        ensures
            r@ == verb_text(self),
    {
        match self {
            Verb::Remove => "Remove",
            Verb::Fix => "Fix",
            Verb::Move => "Move",
            Verb::Rename => "Rename",
            Verb::Refactor => "Refactor",
            Verb::Change => "Change",
            Verb::Add => "Add",
            Verb::Upgrade => "Upgrade",
            Verb::Downgrade => "Downgrade",
        }
    }
}

/// The verbs in transformation-priority order.
pub open spec fn verb_list() -> Seq<Seq<char>> {
    seq![
        "Remove"@,
        "Fix"@,
        "Move"@,
        "Rename"@,
        "Refactor"@,
        "Change"@,
        "Add"@,
        "Upgrade"@,
        "Downgrade"@,
    ]
}

/// `w` is one of the canonical verbs.
pub open spec fn is_verb(w: Seq<char>) -> bool {
    verb_list().contains(w)
}

/// The canonical verbs, in transformation-priority order.
pub fn verbs() -> (r: Vec<&'static str>)
    ensures
        r@.len() == verb_list().len(),
        forall|i: int| 0 <= i < r@.len() ==> #[trigger] r@[i]@ == verb_list()[i],
{
    vec!["Remove", "Fix", "Move", "Rename", "Refactor", "Change", "Add", "Upgrade", "Downgrade"]
}

/// Whether `w` is one of the canonical verbs.
pub fn is_canonical_verb(w: &[char]) -> (r: bool)
    ensures
        r == is_verb(w@),
{
    let all = verbs();
    let mut k: usize = 0;
    while k < all.len()
        invariant
            k <= all@.len() == verb_list().len(),
            forall|i: int| 0 <= i < all@.len() ==> #[trigger] all@[i]@ == verb_list()[i],
            forall|i: int| 0 <= i < k ==> verb_list()[i] != w@,
        decreases all@.len() - k,
    {
        if is_lit(w, all[k]) {
            assert(verb_list()[k as int] == w@);
            return true;
        }
        k = k + 1;
    }
    false
}

/// Every character of `s` is whitespace.
pub open spec fn all_ws(s: Seq<char>) -> bool {
    forall|i: int| 0 <= i < s.len() ==> is_ws(#[trigger] s[i])
}

/// `s[a..b]` is one of the words `str::split_whitespace` yields: a maximal
/// non-empty run of non-whitespace characters.
pub open spec fn is_word_at(s: Seq<char>, a: int, b: int) -> bool {
    &&& 0 <= a < b <= s.len()
    &&& a == 0 || is_ws(s[a - 1])
    &&& b == s.len() || is_ws(s[b])
    &&& forall|k: int| a <= k < b ==> !is_ws(#[trigger] s[k])
}

/// `w` with leading characters that are not alphanumeric removed.
pub open spec fn strip_front_non_alnum(w: Seq<char>) -> Seq<char>
    decreases w.len(),
{
    if w.len() > 0 && !alphanumeric(w[0]) {
        strip_front_non_alnum(w.drop_first())
    } else {
        w
    }
}

/// `w` with trailing characters that are not alphanumeric removed.
pub open spec fn strip_back_non_alnum(w: Seq<char>) -> Seq<char>
    decreases w.len(),
{
    if w.len() > 0 && !alphanumeric(w.last()) {
        strip_back_non_alnum(w.drop_last())
    } else {
        w
    }
}

/// A word with surrounding punctuation removed, as
/// `trim_matches(|c| !c.is_alphanumeric())` leaves it.
pub open spec fn bare_word(w: Seq<char>) -> Seq<char> {
    strip_back_non_alnum(strip_front_non_alnum(w))
}

/// The character's code with ASCII upper-case letters folded to lower case.
pub open spec fn ascii_lower(c: char) -> int {
    if 'A' <= c && c <= 'Z' {
        c as int + 32
    } else {
        c as int
    }
}

/// `x` equals `y` ignoring ASCII case.
pub open spec fn eq_ignore_ascii_case(x: Seq<char>, y: Seq<char>) -> bool {
    x.len() == y.len() && forall|i: int| 0 <= i < x.len() ==> ascii_lower(#[trigger] x[i]) == ascii_lower(y[i])
}

/// A word that joins two changes: `and` or `or` in any ASCII case, once its
/// surrounding punctuation is removed.
pub open spec fn is_conjunction(w: Seq<char>) -> bool {
    eq_ignore_ascii_case(bare_word(w), "and"@) || eq_ignore_ascii_case(bare_word(w), "or"@)
}

/// Some word of `summary` is a conjunction.
pub open spec fn is_compound(summary: Seq<char>) -> bool {
    exists|a: int, b: int| #[trigger] is_word_at(summary, a, b) && is_conjunction(summary.subrange(a, b))
}

/// A subject in the Atomic Changes form: a canonical verb, one space, and a
/// summary that is not blank, does not end with `.` and joins no two changes.
pub open spec fn atomic_subject(subject: Seq<char>) -> bool {
    match first_index_of(subject, ' ') {
        Some(i) => {
            let verb = subject.subrange(0, i);
            let summary = subject.subrange(i + 1, subject.len() as int);
            &&& is_verb(verb)
            &&& !all_ws(summary)
            &&& !(summary.len() > 0 && summary.last() == '.')
            &&& !is_compound(summary)
        },
        None => false,
    }
}

/// The code of `c` with ASCII upper-case letters folded to lower case.
fn lower_code(c: char) -> (r: u32)
    ensures
        r == ascii_lower(c),
{
    let v = c as u32;
    if 65 <= v && v <= 90 {
        v + 32
    } else {
        v
    }
}

/// Whether `x` equals the text `lit` ignoring ASCII case.
fn equals_ignoring_ascii_case(x: &[char], lit: &str) -> (r: bool)
    ensures
        r == eq_ignore_ascii_case(x@, lit@),
{
    let y = chars_of(lit);
    if x.len() != y.len() {
        return false;
    }
    let mut k: usize = 0;
    while k < x.len()
        invariant
            x@.len() == y@.len(),
            y@ == lit@,
            k <= x@.len(),
            forall|i: int| 0 <= i < k ==> ascii_lower(#[trigger] x@[i]) == ascii_lower(y@[i]),
        decreases x@.len() - k,
    {
        if lower_code(x[k]) != lower_code(y[k]) {
            return false;
        }
        k = k + 1;
    }
    true
}

/// The word with surrounding non-alphanumeric characters removed.
fn bare_word_of(w: &[char]) -> (r: Vec<char>)
    ensures
        r@ == bare_word(w@),
{
    let n = w.len();
    let mut a: usize = 0;
    assert(w@.subrange(0, n as int) =~= w@);
    while a < n && !is_alphanumeric(w[a])
        invariant
            a <= n == w@.len(),
            strip_front_non_alnum(w@) == strip_front_non_alnum(w@.subrange(a as int, n as int)),
        decreases n - a,
    {
        assert(w@.subrange(a as int, n as int).drop_first() =~= w@.subrange(a + 1, n as int));
        a = a + 1;
    }
    let ghost front = w@.subrange(a as int, n as int);
    let mut b: usize = n;
    assert(w@.subrange(a as int, b as int) =~= front);
    while b > a && !is_alphanumeric(w[b - 1])
        invariant
            a <= b <= n == w@.len(),
            front == w@.subrange(a as int, n as int),
            strip_back_non_alnum(front) == strip_back_non_alnum(w@.subrange(a as int, b as int)),
        decreases b,
    {
        assert(w@.subrange(a as int, b as int).drop_last() =~= w@.subrange(a as int, b - 1));
        b = b - 1;
    }
    copy_range(w, a, b)
}

/// Whether the word is a conjunction.
fn word_is_conjunction(w: &[char]) -> (r: bool)
    ensures
        r == is_conjunction(w@),
{
    let bare = bare_word_of(w);
    equals_ignoring_ascii_case(bare.as_slice(), "and") || equals_ignoring_ascii_case(
        bare.as_slice(),
        "or",
    )
}

/// Whether some word of `summary` is a conjunction.
fn summary_is_compound(summary: &[char]) -> (r: bool)
    ensures
        r == is_compound(summary@),
{
    let n = summary.len();
    let ghost s = summary@;
    let mut i: usize = 0;
    while i < n
        invariant
            i <= n == s.len(),
            s == summary@,
            i == 0 || i == n || is_ws(s[i - 1]) || is_ws(s[i as int]),
            forall|a: int, b: int| #[trigger] is_word_at(s, a, b) && a < i ==> !is_conjunction(
                s.subrange(a, b),
            ),
        decreases n - i,
    {
        if is_whitespace(summary[i]) {
            i = i + 1;
            continue;
        }
        let start = i;
        let mut j = i;
        while j < n && !is_whitespace(summary[j])
            invariant
                start <= j <= n == s.len(),
                s == summary@,
                forall|k: int| start <= k < j ==> !is_ws(#[trigger] s[k]),
            decreases n - j,
        {
            j = j + 1;
        }
        assert(start == 0 || is_ws(s[start - 1]));
        assert(is_word_at(s, start as int, j as int));
        let word = copy_range(summary, start, j);
        if word_is_conjunction(word.as_slice()) {
            assert(is_word_at(s, start as int, j as int) && is_conjunction(s.subrange(start as int, j as int)));
            return true;
        }
        assert forall|a: int, b: int| #[trigger] is_word_at(s, a, b) && a < j implies !is_conjunction(
            s.subrange(a, b),
        ) by {
            if a >= start {
                if a > start {
                    assert(!is_ws(s[a - 1]));
                }
                if b < j {
                    assert(!is_ws(s[b]));
                }
                if b > j {
                    assert(!is_ws(s[j as int]));
                }
            }
        }
        i = j;
    }
    assert(!is_compound(s));
    false
}

/// Whether a subject has the Atomic Changes form.
pub fn has_atomic_subject(subject: &str) -> (r: bool)
    ensures
        r == atomic_subject(subject@),
{
    let s = chars_of(subject);
    let n = s.len();
    let mut i: usize = 0;
    while i < n && s[i] != ' '
        invariant
            i <= n == s@.len(),
            forall|k: int| 0 <= k < i ==> s@[k] != ' ',
        decreases n - i,
    {
        i = i + 1;
    }
    proof {
        lemma_first_index_of(s@, ' ');
    }
    if i == n {
        proof {
            if first_index_of(s@, ' ') is Some {
                let k = first_index_of(s@, ' ')->0;
                assert(s@[k] == ' ');
            }
        }
        return false;
    }
    proof {
        crate::text::lemma_first_index_of_unique(s@, ' ', i as int);
    }
    let verb = copy_range(s.as_slice(), 0, i);
    let summary = copy_range(s.as_slice(), i + 1, n);
    if !is_canonical_verb(verb.as_slice()) {
        return false;
    }
    let mut k: usize = 0;
    let mut blank = true;
    while k < summary.len()
        invariant
            k <= summary@.len(),
            blank == forall|j: int| 0 <= j < k ==> is_ws(#[trigger] summary@[j]),
        decreases summary@.len() - k,
    {
        if !is_whitespace(summary[k]) {
            blank = false;
        }
        k = k + 1;
    }
    if blank {
        return false;
    }
    if summary.len() > 0 && summary[summary.len() - 1] == '.' {
        return false;
    }
    !summary_is_compound(summary.as_slice())
}

/// A body line that labels prose instead of listing an action.
pub open spec fn is_labelled(t: Seq<char>) -> bool {
    has_prefix(t, "What:"@) || has_prefix(t, "Why:"@) || has_prefix(t, "How:"@)
}

/// `action` starts with the verb `v`, then a space, and ends with `.`.
pub open spec fn is_verb_action(action: Seq<char>, v: Seq<char>) -> bool {
    &&& has_prefix(action, v)
    &&& action.len() > v.len()
    &&& action[v.len() as int] == ' '
    &&& action.last() == '.'
}

/// A body line is acceptable: not a `What:`/`Why:`/`How:` label, and when it
/// is a `-` or `*` bullet, the marker is followed by whitespace and a
/// canonical action (`<Verb> ...` ending with `.`).
pub open spec fn body_line_ok(line: Seq<char>) -> bool {
    let t = trim_start(line);
    if is_labelled(t) {
        false
    } else if !(t.len() > 0 && (t[0] == '-' || t[0] == '*')) {
        true
    } else {
        let rest = t.drop_first();
        &&& rest.len() > 0
        &&& is_ws(rest[0])
        &&& exists|k: int| 0 <= k < verb_list().len() && is_verb_action(trim_start(rest), #[trigger] verb_list()[k])
    }
}

/// Every line after the subject and its separator is an acceptable body line.
pub open spec fn valid_action_lines(message: Seq<char>) -> bool {
    forall|i: int| 2 <= i < lines(message).len() ==> body_line_ok(#[trigger] lines(message)[i])
}

/// Whether `action` is a canonical action line body.
fn is_canonical_action(action: &[char]) -> (r: bool)
    ensures
        r == exists|k: int| 0 <= k < verb_list().len() && is_verb_action(action@, #[trigger] verb_list()[k]),
{
    let all = verbs();
    let mut k: usize = 0;
    while k < all.len()
        invariant
            k <= all@.len() == verb_list().len(),
            forall|i: int| 0 <= i < all@.len() ==> #[trigger] all@[i]@ == verb_list()[i],
            forall|i: int| 0 <= i < k ==> !is_verb_action(action@, #[trigger] verb_list()[i]),
        decreases all@.len() - k,
    {
        let v = all[k];
        let vc = chars_of(v);
        assert(vc@ == verb_list()[k as int]);
        if starts_with_lit(action, v) && action.len() > vc.len() && action[vc.len()] == ' '
            && action[action.len() - 1] == '.' {
            assert(is_verb_action(action@, verb_list()[k as int]));
            return true;
        }
        k = k + 1;
    }
    false
}

/// Whether one body line is acceptable.
fn body_line_is_ok(line: &[char]) -> (r: bool)
    ensures
        r == body_line_ok(line@),
{
    let t = trim_start_chars(line);
    let t = t.as_slice();
    if starts_with_lit(t, "What:") || starts_with_lit(t, "Why:") || starts_with_lit(t, "How:") {
        return false;
    }
    if !(t.len() > 0 && (t[0] == '-' || t[0] == '*')) {
        return true;
    }
    let rest = copy_range(t, 1, t.len());
    assert(rest@ =~= t@.drop_first());
    if rest.len() == 0 || !is_whitespace(rest[0]) {
        return false;
    }
    let action = trim_start_chars(rest.as_slice());
    is_canonical_action(action.as_slice())
}

/// Whether every body line of `message` is an acceptable action line.
pub fn has_valid_action_lines(message: &str) -> (r: bool)
    ensures
        r == valid_action_lines(message@),
{
    let c = chars_of(message);
    let all = lines_of(c.as_slice());
    let mut k: usize = 2;
    while k < all.len()
        invariant
            2 <= k,
            all@.len() == lines(message@).len(),
            forall|j: int| 0 <= j < all@.len() ==> #[trigger] all@[j]@ == lines(message@)[j],
            forall|j: int| 2 <= j < k && j < all@.len() ==> body_line_ok(#[trigger] lines(message@)[j]),
        decreases all@.len() - k,
    {
        assert(all@[k as int]@ == lines(message@)[k as int]);
        if !body_line_is_ok(all[k].as_slice()) {
            return false;
        }
        k = k + 1;
    }
    true
}

/// The number of bytes `c` takes in UTF-8.
pub open spec fn char_utf8_len(c: char) -> nat {
    if (c as u32) < 0x80 {
        1
    } else if (c as u32) < 0x800 {
        2
    } else if (c as u32) < 0x10000 {
        3
    } else {
        4
    }
}

/// The number of bytes `s` takes in UTF-8 (what `str::len` reports).
pub open spec fn utf8_len(s: Seq<char>) -> nat
    decreases s.len(),
{
    if s.len() == 0 {
        0
    } else {
        utf8_len(s.drop_last()) + char_utf8_len(s.last())
    }
}

/// The UTF-8 length of a prefix is at most that of the whole.
pub proof fn lemma_utf8_len_prefix(s: Seq<char>, k: int)
    requires
        0 <= k <= s.len(),
    ensures
        utf8_len(s.subrange(0, k)) <= utf8_len(s),
    decreases s.len() - k,
{
    if k < s.len() {
        lemma_utf8_len_prefix(s, k + 1);
        assert(s.subrange(0, k + 1).drop_last() =~= s.subrange(0, k));
    } else {
        assert(s.subrange(0, k) =~= s);
    }
}

/// A line is at most 72 bytes long and does not end in whitespace.
pub open spec fn line_format_ok(line: Seq<char>) -> bool {
    utf8_len(line) <= 72 && !(line.len() > 0 && is_ws(line.last()))
}

/// The message has a non-empty subject line, a blank second line when there
/// is one, and every line wrapped with no trailing whitespace.
pub open spec fn valid_format(message: Seq<char>) -> bool {
    let ls = lines(message);
    &&& ls.len() > 0
    &&& ls[0].len() > 0
    &&& ls.len() < 2 || ls[1].len() == 0
    &&& forall|i: int| 0 <= i < ls.len() ==> line_format_ok(#[trigger] ls[i])
}

/// Whether the line is at most 72 bytes long in UTF-8.
fn fits_in_72_bytes(line: &[char]) -> (r: bool)
    ensures
        r == (utf8_len(line@) <= 72),
{
    let mut total: usize = 0;
    let mut k: usize = 0;
    while k < line.len()
        invariant
            k <= line@.len(),
            total == utf8_len(line@.subrange(0, k as int)),
            total <= 72,
        decreases line@.len() - k,
    {
        let v = line[k] as u32;
        let w: usize = if v < 0x80 {
            1
        } else if v < 0x800 {
            2
        } else if v < 0x10000 {
            3
        } else {
            4
        };
        assert(line@.subrange(0, k + 1).drop_last() =~= line@.subrange(0, k as int));
        total = total + w;
        k = k + 1;
        if total > 72 {
            proof {
                lemma_utf8_len_prefix(line@, k as int);
            }
            return false;
        }
    }
    assert(line@.subrange(0, k as int) =~= line@);
    true
}

/// Whether the message is wrapped and separated as the form requires.
pub fn has_valid_format(message: &str) -> (r: bool)
    ensures
        r == valid_format(message@),
{
    let c = chars_of(message);
    let all = lines_of(c.as_slice());
    if all.len() == 0 {
        return false;
    }
    assert(all@[0]@ == lines(message@)[0]);
    if all[0].len() == 0 {
        return false;
    }
    if all.len() >= 2 {
        assert(all@[1]@ == lines(message@)[1]);
        if all[1].len() != 0 {
            return false;
        }
    }
    let mut k: usize = 0;
    while k < all.len()
        invariant
            k <= all@.len() == lines(message@).len(),
            forall|j: int| 0 <= j < all@.len() ==> #[trigger] all@[j]@ == lines(message@)[j],
            forall|j: int| 0 <= j < k ==> line_format_ok(#[trigger] lines(message@)[j]),
        decreases all@.len() - k,
    {
        let line = all[k].as_slice();
        assert(line@ == lines(message@)[k as int]);
        if !fits_in_72_bytes(line) {
            return false;
        }
        if line.len() > 0 && is_whitespace(line[line.len() - 1]) {
            return false;
        }
        k = k + 1;
    }
    true
}

/// `s` with every trailing `.` removed.
pub open spec fn strip_trailing_dots(s: Seq<char>) -> Seq<char>
    decreases s.len(),
{
    if s.len() > 0 && s.last() == '.' {
        strip_trailing_dots(s.drop_last())
    } else {
        s
    }
}

/// One rendered action bullet: `- `, the trimmed action without its final
/// dots, and one `.`.
pub open spec fn action_line(action: Seq<char>) -> Seq<char> {
    "- "@ + strip_trailing_dots(trim(action)) + "."@
}

/// The action bullets, one per line.
pub open spec fn action_block(actions: Seq<Seq<char>>) -> Seq<char>
    decreases actions.len(),
{
    if actions.len() == 0 {
        Seq::empty()
    } else if actions.len() == 1 {
        action_line(actions[0])
    } else {
        action_block(actions.drop_last()) + "\n"@ + action_line(actions.last())
    }
}

/// The subject line: the verb, one space and the trimmed summary.
pub open spec fn subject_line(verb: Verb, summary: Seq<char>) -> Seq<char> {
    verb_text(verb) + " "@ + trim(summary)
}

/// The composed message: the subject, then either the trimmed prose body or
/// the action bullets after a blank line; the subject alone when there is
/// neither.
pub open spec fn composed_message(
    verb: Verb,
    summary: Seq<char>,
    body: Option<Seq<char>>,
    actions: Seq<Seq<char>>,
) -> Seq<char> {
    let subject = subject_line(verb, summary);
    match body {
        Some(text) => subject + "\n\n"@ + trim(text),
        None => if actions.len() > 0 {
            subject + "\n\n"@ + action_block(actions)
        } else {
            subject
        },
    }
}

/// The request to compose a message: the verb, the summary without the
/// verb, and either a prose body or action lines.
pub struct MessageArgs {
    pub verb: Verb,
    pub summary: String,
    pub body: Option<String>,
    pub action: Vec<String>,
}

/// The texts of a list of strings.
pub open spec fn texts(v: Seq<String>) -> Seq<Seq<char>> {
    Seq::new(v.len(), |i: int| v[i]@)
}

impl MessageArgs {
    /// The prose body's text, if any.
    pub open spec fn body_text(&self) -> Option<Seq<char>> {
        match self.body {
            Some(b) => Some(b@),
            None => None,
        }
    }

    /// The message these arguments compose.
    pub open spec fn message(&self) -> Seq<char> {
        composed_message(self.verb, self.summary@, self.body_text(), texts(self.action@))
    }

    /// The arguments compose a message in the Atomic Changes form.
    pub open spec fn accepted(&self) -> bool {
        &&& atomic_subject(subject_line(self.verb, self.summary@))
        &&& valid_action_lines(self.message())
        &&& valid_format(self.message())
    }
}

/// The reason every rejected message is given.
pub open spec fn form_violation() -> Seq<char> {
    "message violates the Atomic Changes form"@
}

/// Appends the characters of `t`.
fn push_all(out: &mut Vec<char>, t: &[char])
    ensures
        final(out)@ == old(out)@ + t@,
{
    let mut k: usize = 0;
    let ghost start = out@;
    while k < t.len()
        invariant
            k <= t@.len(),
            out@ == start + t@.subrange(0, k as int),
        decreases t@.len() - k,
    {
        out.push(t[k]);
        assert(start + t@.subrange(0, k + 1) =~= (start + t@.subrange(0, k as int)).push(t@[k as int]));
        k = k + 1;
    }
    assert(t@.subrange(0, t@.len() as int) =~= t@);
}

/// `s` without its trailing dots.
fn without_trailing_dots(s: &[char]) -> (r: Vec<char>)
    ensures
        r@ == strip_trailing_dots(s@),
{
    let mut j: usize = s.len();
    assert(s@.subrange(0, j as int) =~= s@);
    while j > 0 && s[j - 1] == '.'
        invariant
            j <= s@.len(),
            strip_trailing_dots(s@) == strip_trailing_dots(s@.subrange(0, j as int)),
        decreases j,
    {
        assert(s@.subrange(0, j as int).drop_last() =~= s@.subrange(0, j - 1));
        j = j - 1;
    }
    copy_range(s, 0, j)
}

/// The characters of the subject line.
fn subject_chars(verb: Verb, summary: &String) -> (r: Vec<char>)
    ensures
        r@ == subject_line(verb, summary@),
{
    let mut out: Vec<char> = Vec::new();
    let v = chars_of(verb.as_str());
    push_all(&mut out, v.as_slice());
    out.push(' ');
    let t = chars_of(summary.as_str());
    let t = trim_chars(t.as_slice());
    push_all(&mut out, t.as_slice());
    proof {
        reveal_strlit(" ");
    }
    assert(out@ =~= subject_line(verb, summary@));
    out
}

/// Composes the message the arguments describe, without judging it.
fn compose(args: &MessageArgs) -> (r: Vec<char>)
    ensures
        r@ == args.message(),
{
    let mut out = subject_chars(args.verb, &args.summary);
    let ghost subject = out@;
    proof {
        reveal_strlit("\n\n");
    }
    match &args.body {
        Some(body) => {
            out.push('\n');
            out.push('\n');
            let b = chars_of(body.as_str());
            let b = trim_chars(b.as_slice());
            push_all(&mut out, b.as_slice());
            assert(out@ =~= subject + "\n\n"@ + trim(body@));
        },
        None => {
            if args.action.len() > 0 {
                out.push('\n');
                out.push('\n');
                let ghost head = out@;
                assert(head =~= subject + "\n\n"@);
                let ghost acts = texts(args.action@);
                let mut k: usize = 0;
                assert(acts.subrange(0, 0) =~= Seq::<Seq<char>>::empty());
                assert(out@ =~= head + action_block(acts.subrange(0, 0)));
                while k < args.action.len()
                    invariant
                        k <= args.action@.len() == acts.len(),
                        acts == texts(args.action@),
                        out@ == head + action_block(acts.subrange(0, k as int)),
                    decreases args.action@.len() - k,
                {
                    let ghost before = out@;
                    if k > 0 {
                        out.push('\n');
                    }
                    let a = chars_of(args.action[k].as_str());
                    let a = trim_chars(a.as_slice());
                    let reason = without_trailing_dots(a.as_slice());
                    out.push('-');
                    out.push(' ');
                    push_all(&mut out, reason.as_slice());
                    out.push('.');
                    proof {
                        reveal_strlit("- ");
                        reveal_strlit(".");
                        reveal_strlit("\n");
                        let line = action_line(acts[k as int]);
                        assert(acts[k as int] == args.action@[k as int]@);
                        let next = acts.subrange(0, k + 1);
                        assert(next.drop_last() =~= acts.subrange(0, k as int));
                        assert(next.last() == acts[k as int]);
                        if k == 0 {
                            assert(out@ =~= before + line);
                            assert(action_block(next) == line);
                            assert(action_block(acts.subrange(0, 0)) =~= Seq::<char>::empty());
                            assert(out@ =~= head + action_block(next));
                        } else {
                            assert(out@ =~= before + "\n"@ + line);
                            assert(out@ =~= head + action_block(next));
                        }
                    }
                    k = k + 1;
                }
                assert(acts.subrange(0, acts.len() as int) =~= acts);
            }
        },
    }
    out
}

/// Renders the commit message the arguments describe: `Ok` with the
/// composed text when its subject, body lines and format all meet the
/// Atomic Changes form, otherwise an invalid-input error.
pub fn render(args: &MessageArgs) -> (r: Result<String, SkillError>)
    ensures
        r is Ok == args.accepted(),
        r matches Ok(text) ==> text@ == args.message(),
        r matches Err(e) ==> e matches SkillError::InvalidInput { message } && message@
            == form_violation(),
{
    let subject = subject_chars(args.verb, &args.summary);
    let subject_text = string_of(subject.as_slice());
    if !has_atomic_subject(subject_text.as_str()) {
        return Err(invalid("message violates the Atomic Changes form"));
    }
    let message = compose(args);
    let text = string_of(message.as_slice());
    if !has_valid_action_lines(text.as_str()) || !has_valid_format(text.as_str()) {
        return Err(invalid("message violates the Atomic Changes form"));
    }
    Ok(text)
}

/// A body line labelled `What:`, `Why:` or `How:` breaks the form: when
/// some line after the subject and its separator starts, past its leading
/// whitespace, with one of those labels, the body's action lines are not
/// valid, and neither is the message.
pub proof fn labelled_body_line_breaks_the_form(
    subject: Seq<char>,
    message: Seq<char>,
    i: int,
    label: Seq<char>,
)
    requires
        label == "What:"@ || label == "Why:"@ || label == "How:"@,
        2 <= i < lines(message).len(),
        label.len() <= trim_start(lines(message)[i]).len(),
        trim_start(lines(message)[i]).subrange(0, label.len() as int) == label,
    ensures
        !valid_action_lines(message),
        !crate::git_review::messages::message_valid(subject, message),
{
    let t = trim_start(lines(message)[i]);
    assert(has_prefix(t, label));
    assert(!body_line_ok(lines(message)[i]));
}

} // verus!
