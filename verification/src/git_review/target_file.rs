//! Commit selection files: one JSON object `{"commit": "<sha>"}` per line.
//! A selection is a set of commit identities kept in ascending order, and
//! it may only name commits of the range under review.
use vstd::prelude::*;

use crate::error::{SkillError, decimal, is_invalid_input, push_decimal, push_text};
use crate::json::{JsonView, json_text, member_view, render_object, string_member};
use crate::git_review::targets::{select_commits, selected_in_order, string_texts};
use crate::text::{chars_of, is_lit, lines, lines_of, string_of};

verus! {

/// What `serde_json::from_str::<Value>` makes of a line, as far as a
/// selection needs it: `Err` with the parse error's text, `Ok(None)` for a
/// value that is not an object, and for an object its entries in key order
/// with each value's text when it is a JSON string.
pub uninterp spec fn json_record(line: Seq<char>) -> Result<Option<Seq<(Seq<char>, Option<Seq<char>>)>>, Seq<char>>;

/// The view of one converted object entry.
pub open spec fn entry_view(e: (String, Option<String>)) -> (Seq<char>, Option<Seq<char>>) {
    (e.0@, match e.1 {
        Some(t) => Some(t@),
        None => None,
    })
}

/// The view of a converted record: entries by their views.
pub open spec fn record_view(record: Result<Option<Vec<(String, Option<String>)>>, String>) -> Result<
    Option<Seq<(Seq<char>, Option<Seq<char>>)>>,
    Seq<char>,
> {
    match record {
        Err(m) => Err(m@),
        Ok(None) => Ok(None),
        Ok(Some(entries)) => Ok(Some(entries@.map_values(|e: (String, Option<String>)| entry_view(e)))),
    }
}

/// Calls `serde_json::from_str::<serde_json::Value>` on one line and keeps
/// what a selection reads: the object's entries (key, and the value's text
/// when it is a string). The result is named `json_record`; nothing more of
/// JSON's grammar is stated.
#[verifier::external_body]
fn parse_json_record(line: &str) -> (r: Result<Option<Vec<(String, Option<String>)>>, String>)
    ensures
        json_record(line@) == record_view(r),
{
    match serde_json::from_str::<serde_json::Value>(line) {
        Err(error) => Err(error.to_string()),
        Ok(serde_json::Value::Object(map)) => Ok(Some(map.into_iter().map(|(key, value)| match value {
            serde_json::Value::String(text) => (key, Some(text)),
            _ => (key, None),
        }).collect())),
        Ok(_) => Ok(None),
    }
}

/// The reason a line is not JSON.
pub open spec fn not_json_reason(number: int, error: Seq<char>) -> Seq<char> {
    "invalid commit selection on line "@ + decimal(number) + ": "@ + error
}

/// The reason a line is JSON of the wrong shape.
pub open spec fn shape_reason(number: int) -> Seq<char> {
    "commit selection on line "@ + decimal(number) + " must be an object with one string commit field"@
}

/// The reason a commit is selected twice.
pub open spec fn duplicate_reason(commit: Seq<char>) -> Seq<char> {
    "duplicate commit selection: "@ + commit
}

/// The commit a parsed record selects: its one entry must be `commit` with
/// a string value. `number` is the line's one-based number.
pub open spec fn record_commit(
    record: Result<Option<Seq<(Seq<char>, Option<Seq<char>>)>>, Seq<char>>,
    number: int,
) -> Result<Seq<char>, Seq<char>> {
    match record {
        Err(error) => Err(not_json_reason(number, error)),
        Ok(None) => Err(shape_reason(number)),
        Ok(Some(entries)) => if entries.len() == 1 && entries[0].0 == "commit"@ && entries[0].1 is Some {
            Ok(entries[0].1->0)
        } else {
            Err(shape_reason(number))
        },
    }
}

/// The commit one line selects. `number` is the line's one-based number.
pub open spec fn line_commit(line: Seq<char>, number: int) -> Result<Seq<char>, Seq<char>> {
    record_commit(json_record(line), number)
}

/// The selection made by the first `k` lines, or the first failure.
pub open spec fn selection_upto(ls: Seq<Seq<char>>, k: int) -> Result<Set<Seq<char>>, Seq<char>>
    decreases k,
{
    if k <= 0 || k > ls.len() {
        Ok(Set::empty())
    } else {
        match selection_upto(ls, k - 1) {
            Err(m) => Err(m),
            Ok(set) => match line_commit(ls[k - 1], k) {
                Err(m) => Err(m),
                Ok(commit) => if set.contains(commit) {
                    Err(duplicate_reason(commit))
                } else {
                    Ok(set.insert(commit))
                },
            },
        }
    }
}

/// The selection a file's contents make.
pub open spec fn selection_of(contents: Seq<char>) -> Result<Set<Seq<char>>, Seq<char>> {
    selection_upto(lines(contents), lines(contents).len() as int)
}

/// `a` sorts before `b` the way `String`'s order compares them (by
/// characters, a proper prefix first).
pub open spec fn text_less(a: Seq<char>, b: Seq<char>) -> bool
    decreases a.len(),
{
    if a.len() == 0 {
        b.len() > 0
    } else if b.len() == 0 {
        false
    } else if a[0] != b[0] {
        (a[0] as int) < (b[0] as int)
    } else {
        text_less(a.drop_first(), b.drop_first())
    }
}

/// Two different texts are ordered one way or the other.
proof fn lemma_text_less_total(a: Seq<char>, b: Seq<char>)
    requires
        a != b,
    ensures
        text_less(a, b) || text_less(b, a),
    decreases a.len(),
{
    if a.len() > 0 && b.len() > 0 && a[0] == b[0] {
        if a.drop_first() == b.drop_first() {
            assert(a =~= seq![a[0]] + a.drop_first());
            assert(b =~= seq![b[0]] + b.drop_first());
        }
        lemma_text_less_total(a.drop_first(), b.drop_first());
    } else if a.len() == 0 && b.len() == 0 {
        assert(a =~= b);
    }
}

/// Whether `a` sorts before `b`.
fn is_less(a: &[char], b: &[char]) -> (r: bool)
    ensures
        r == text_less(a@, b@),
{
    let mut i: usize = 0;
    assert(a@.subrange(0, a@.len() as int) =~= a@);
    assert(b@.subrange(0, b@.len() as int) =~= b@);
    while i < a.len() && i < b.len() && a[i] == b[i]
        invariant
            i <= a@.len(),
            i <= b@.len(),
            text_less(a@, b@) == text_less(
                a@.subrange(i as int, a@.len() as int),
                b@.subrange(i as int, b@.len() as int),
            ),
        decreases a@.len() - i,
    {
        assert(a@.subrange(i as int, a@.len() as int).drop_first() =~= a@.subrange(i + 1, a@.len() as int));
        assert(b@.subrange(i as int, b@.len() as int).drop_first() =~= b@.subrange(i + 1, b@.len() as int));
        i = i + 1;
    }
    if i == a.len() {
        i < b.len()
    } else if i == b.len() {
        false
    } else {
        a[i] < b[i]
    }
}

/// The texts are in strictly ascending order.
pub open spec fn texts_ascending(texts: Seq<Seq<char>>) -> bool {
    forall|i: int| 0 <= i < texts.len() - 1 ==> text_less(#[trigger] texts[i], texts[i + 1])
}

/// No text occurs twice.
pub open spec fn texts_distinct(texts: Seq<Seq<char>>) -> bool {
    forall|i: int, j: int| 0 <= i < j < texts.len() ==> #[trigger] texts[i] != #[trigger] texts[j]
}

/// A selection of commits: distinct identities in ascending order, as a
/// `BTreeSet<String>` holds them.
#[derive(Debug)]
pub struct Targets {
    commits: Vec<String>,
}

impl Targets {
    /// The selected commits, in order.
    pub closed spec fn texts(&self) -> Seq<Seq<char>> {
        string_texts(self.commits@)
    }

    /// Every selection is ascending and free of repeats.
    #[verifier::type_invariant]
    spec fn well_formed(self) -> bool {
        texts_ascending(string_texts(self.commits@)) && texts_distinct(string_texts(self.commits@))
    }

    /// The selected commits, in ascending order, each once.
    pub fn commits(&self) -> (r: &[String])
        ensures
            string_texts(r@) == self.texts(),
            texts_ascending(self.texts()),
            texts_distinct(self.texts()),
    {
        proof {
            use_type_invariant(self);
        }
        self.commits.as_slice()
    }
}

/// The line number of the zero-based line `index`, as message text.
fn line_reason(out: &mut Vec<char>, before: &str, index: usize, after: &str)
    requires
        index < usize::MAX,
    ensures
        final(out)@ == old(out)@ + before@ + decimal(index + 1) + after@,
{
    push_text(out, before);
    push_decimal(out, (index + 1) as u64);
    assert(decimal(index + 1) == crate::error::decimal_nat((index + 1) as nat));
    push_text(out, after);
}

/// Whether `commit` is among the selected commits.
fn contains_commit(commits: &Vec<String>, commit: &[char]) -> (r: bool)
    ensures
        r == string_texts(commits@).contains(commit@),
{
    let ghost texts = string_texts(commits@);
    let mut k: usize = 0;
    while k < commits.len()
        invariant
            k <= commits@.len() == texts.len(),
            texts == string_texts(commits@),
            forall|i: int| 0 <= i < k ==> texts[i] != commit@,
        decreases commits@.len() - k,
    {
        if is_lit(commit, commits[k].as_str()) {
            assert(texts[k as int] == commit@);
            assert(texts.contains(commit@));
            return true;
        }
        k = k + 1;
    }
    false
}

/// The commit a parsed selection line selects, or the reason it selects
/// none; `index` is the line's zero-based index.
pub fn commit_of_record(record: Result<Option<Vec<(String, Option<String>)>>, String>, index: usize) -> (r:
    Result<String, SkillError>)
    requires
        index < usize::MAX,
    ensures
        r is Ok == record_commit(record_view(record), index + 1) is Ok,
        r matches Ok(c) ==> record_commit(record_view(record), index + 1) == Ok::<
            Seq<char>,
            Seq<char>,
        >(c@),
        r matches Err(e) ==> (record_commit(record_view(record), index + 1) matches Err(m)
            && is_invalid_input(e, m)),
{
    let ghost view = record_view(record);
    let entries = match record {
        Err(error) => {
            let mut out: Vec<char> = Vec::new();
            line_reason(&mut out, "invalid commit selection on line ", index, ": ");
            push_text(&mut out, error.as_str());
            assert(out@ =~= not_json_reason(index + 1, error@));
            return Err(SkillError::InvalidInput { message: string_of(out.as_slice()) });
        },
        Ok(None) => Vec::new(),
        Ok(Some(entries)) => entries,
    };
    let ghost ev = entries@.map_values(|e: (String, Option<String>)| entry_view(e));
    if entries.len() == 1 {
        assert(ev[0] == entry_view(entries@[0]));
        let key = chars_of(entries[0].0.as_str());
        if is_lit(key.as_slice(), "commit") {
            match &entries[0].1 {
                Some(text) => {
                    let t = chars_of(text.as_str());
                    return Ok(string_of(t.as_slice()));
                },
                None => {},
            }
        }
    }
    let mut out: Vec<char> = Vec::new();
    line_reason(&mut out, "commit selection on line ", index, " must be an object with one string commit field");
    assert(out@ =~= shape_reason(index + 1));
    Err(SkillError::InvalidInput { message: string_of(out.as_slice()) })
}

/// The commit one line selects, or the reason it selects none.
fn line_selection(line: &str, index: usize) -> (r: Result<String, SkillError>)
    requires
        index < usize::MAX,
    ensures
        r is Ok == line_commit(line@, index + 1) is Ok,
        r matches Ok(c) ==> line_commit(line@, index + 1) == Ok::<Seq<char>, Seq<char>>(c@),
        r matches Err(e) ==> (line_commit(line@, index + 1) matches Err(m) && is_invalid_input(e, m)),
{
    commit_of_record(parse_json_record(line), index)
}

/// Inserting `c` at `p` keeps the texts ascending when everything before
/// `p` sorts before `c` and `c` sorts before what was at `p`.
proof fn lemma_insert_ascending(texts: Seq<Seq<char>>, p: int, c: Seq<char>)
    requires
        0 <= p <= texts.len(),
        forall|i: int| 0 <= i < texts.len() - 1 ==> text_less(#[trigger] texts[i], texts[i + 1]),
        forall|i: int| 0 <= i < p ==> text_less(#[trigger] texts[i], c),
        p < texts.len() ==> text_less(c, texts[p]),
    ensures
        forall|i: int| 0 <= i < texts.insert(p, c).len() - 1 ==> text_less(
            #[trigger] texts.insert(p, c)[i],
            texts.insert(p, c)[i + 1],
        ),
{
    let nt = texts.insert(p, c);
    assert forall|i: int| 0 <= i < nt.len() - 1 implies text_less(#[trigger] nt[i], nt[i + 1]) by {
        if i + 1 < p {
            assert(nt[i] == texts[i] && nt[i + 1] == texts[i + 1]);
            assert(text_less(texts[i], texts[i + 1]));
        } else if i + 1 == p {
            assert(nt[i] == texts[i] && nt[i + 1] == c);
            assert(text_less(texts[i], c));
        } else if i == p {
            assert(nt[i] == c && nt[i + 1] == texts[i]);
        } else {
            assert(nt[i] == texts[i - 1] && nt[i + 1] == texts[i]);
            assert(text_less(texts[i - 1], texts[i]));
        }
    }
}

/// Inserting a new text keeps the texts distinct and adds exactly it.
proof fn lemma_insert_distinct(texts: Seq<Seq<char>>, p: int, c: Seq<char>)
    requires
        0 <= p <= texts.len(),
        forall|i: int, j: int| 0 <= i < j < texts.len() ==> #[trigger] texts[i] != #[trigger] texts[j],
        !texts.contains(c),
    ensures
        forall|i: int, j: int| 0 <= i < j < texts.insert(p, c).len() ==> #[trigger] texts.insert(p, c)[i]
            != #[trigger] texts.insert(p, c)[j],
        forall|x: Seq<char>| texts.insert(p, c).contains(x) <==> (x == c || texts.contains(x)),
{
    let nt = texts.insert(p, c);
    assert forall|i: int, j: int| 0 <= i < j < nt.len() implies #[trigger] nt[i] != #[trigger] nt[j] by {
        if i == p {
            assert(nt[j] == texts[j - 1]);
        } else if j == p {
            assert(nt[i] == texts[i]);
        } else {
            let ii = if i < p { i } else { i - 1 };
            let jj = if j < p { j } else { j - 1 };
            assert(nt[i] == texts[ii] && nt[j] == texts[jj]);
        }
    }
    assert forall|x: Seq<char>| nt.contains(x) <==> (x == c || texts.contains(x)) by {
        if nt.contains(x) {
            let i = choose|i: int| 0 <= i < nt.len() && nt[i] == x;
            if i < p {
                assert(texts[i] == x);
            } else if i > p {
                assert(texts[i - 1] == x);
            }
        }
        if x == c {
            assert(nt[p] == x);
        }
        if texts.contains(x) {
            let i = choose|i: int| 0 <= i < texts.len() && texts[i] == x;
            if i < p {
                assert(nt[i] == x);
            } else {
                assert(nt[i + 1] == x);
            }
        }
    }
}

/// Adds a commit that is not yet selected, keeping the order.
fn insert_commit(commits: &mut Vec<String>, commit: String)
    requires
        texts_ascending(string_texts(old(commits)@)),
        texts_distinct(string_texts(old(commits)@)),
        !string_texts(old(commits)@).contains(commit@),
    ensures
        texts_ascending(string_texts(final(commits)@)),
        texts_distinct(string_texts(final(commits)@)),
        forall|x: Seq<char>| string_texts(final(commits)@).contains(x) <==> (x == commit@
            || string_texts(old(commits)@).contains(x)),
{
    let ghost texts = string_texts(commits@);
    let cc = chars_of(commit.as_str());
    let mut p: usize = 0;
    while p < commits.len() && is_less_string(&commits[p], cc.as_slice())
        invariant
            p <= commits@.len(),
            texts == string_texts(commits@),
            cc@ == commit@,
            forall|i: int| 0 <= i < p ==> text_less(#[trigger] texts[i], commit@),
        decreases commits@.len() - p,
    {
        p = p + 1;
    }
    proof {
        if p < commits@.len() {
            assert(texts[p as int] != commit@);
            lemma_text_less_total(commit@, texts[p as int]);
        }
        lemma_insert_ascending(texts, p as int, commit@);
        lemma_insert_distinct(texts, p as int, commit@);
    }
    commits.insert(p, commit);
    assert(string_texts(commits@) =~= texts.insert(p as int, cc@));
}

/// Parses a selection file's contents: each line must be a JSON object
/// with exactly one entry, `commit`, whose value is a string, and no commit
/// may be selected twice.
pub fn parse_targets(contents: &str) -> (r: Result<Targets, SkillError>)
    ensures
        r is Ok == selection_of(contents@) is Ok,
        r matches Ok(t) ==> (selection_of(contents@) matches Ok(set) && (forall|x: Seq<char>|
            set.contains(x) <==> t.texts().contains(x))),
        r matches Err(e) ==> (selection_of(contents@) matches Err(m) && is_invalid_input(e, m)),
{
    let c = chars_of(contents);
    let ls = lines_of(c.as_slice());
    let ghost all = lines(contents@);
    let mut commits: Vec<String> = Vec::new();
    let mut k: usize = 0;
    while k < ls.len()
        invariant
            k <= ls@.len() == all.len(),
            all == lines(contents@),
            forall|j: int| 0 <= j < ls@.len() ==> #[trigger] ls@[j]@ == all[j],
            selection_upto(all, k as int) matches Ok(set) && (forall|x: Seq<char>|
                set.contains(x) <==> string_texts(commits@).contains(x)),
            texts_ascending(string_texts(commits@)),
            texts_distinct(string_texts(commits@)),
        decreases ls@.len() - k,
    {
        let line = string_of(ls[k].as_slice());
        assert(line@ == all[k as int]);
        let commit = match line_selection(line.as_str(), k) {
            Ok(commit) => commit,
            Err(e) => {
                proof {
                    lemma_selection_err_sticks(all, k + 1, all.len() as int);
                }
                return Err(e);
            },
        };
        let cc = chars_of(commit.as_str());
        if contains_commit(&commits, cc.as_slice()) {
            let mut out: Vec<char> = Vec::new();
            push_text(&mut out, "duplicate commit selection: ");
            push_text(&mut out, commit.as_str());
            assert(out@ =~= duplicate_reason(commit@));
            proof {
                lemma_selection_err_sticks(all, k + 1, all.len() as int);
            }
            return Err(SkillError::InvalidInput { message: string_of(out.as_slice()) });
        }
        insert_commit(&mut commits, commit);
        k = k + 1;
    }
    Ok(Targets { commits })
}

/// Whether `a` sorts before `b`.
fn is_less_string(a: &String, b: &[char]) -> (r: bool)
    ensures
        r == text_less(a@, b@),
{
    let ac = chars_of(a.as_str());
    is_less(ac.as_slice(), b)
}

/// A failure on some line is the result of the whole file.
proof fn lemma_selection_err_sticks(ls: Seq<Seq<char>>, k: int, n: int)
    requires
        0 < k <= n <= ls.len(),
        selection_upto(ls, k) is Err,
    ensures
        selection_upto(ls, n) == selection_upto(ls, k),
    decreases n - k,
{
    if n > k {
        lemma_selection_err_sticks(ls, k, n - 1);
    }
}

/// The selected commits that are not in the range, in selection order.
pub open spec fn unknown_targets(targets: Seq<Seq<char>>, commits: Seq<char>) -> Seq<Seq<char>> {
    targets.filter(|t: Seq<char>| !lines(commits).contains(t))
}

/// The texts joined with `, `.
pub open spec fn comma_joined(parts: Seq<Seq<char>>) -> Seq<char>
    decreases parts.len(),
{
    if parts.len() == 0 {
        Seq::empty()
    } else if parts.len() == 1 {
        parts[0]
    } else {
        comma_joined(parts.drop_last()) + ", "@ + parts.last()
    }
}

/// The reason given for selections outside the range.
pub open spec fn outside_reason(unknown: Seq<Seq<char>>) -> Seq<char> {
    "commit selections are outside the review range: "@ + comma_joined(unknown)
}

/// Whether `x` is one of the lines.
pub(crate) fn among_lines(ls: &Vec<Vec<char>>, x: &[char]) -> (r: bool)
    ensures
        r == Seq::new(ls@.len(), |i: int| ls@[i]@).contains(x@),
{
    let ghost texts = Seq::new(ls@.len(), |i: int| ls@[i]@);
    let mut k: usize = 0;
    while k < ls.len()
        invariant
            k <= ls@.len() == texts.len(),
            texts == Seq::new(ls@.len(), |i: int| ls@[i]@),
            forall|i: int| 0 <= i < k ==> texts[i] != x@,
        decreases ls@.len() - k,
    {
        if crate::text::chars_match_at(ls[k].as_slice(), 0, x) && ls[k].len() == x.len() {
            assert(ls@[k as int]@ =~= x@);
            assert(texts[k as int] == x@);
            assert(texts.contains(x@));
            return true;
        }
        assert(texts[k as int] != x@) by {
            if ls@[k as int]@ == x@ {
                assert(ls@[k as int]@.subrange(0, x@.len() as int) =~= x@);
            }
        }
        k = k + 1;
    }
    false
}

/// The commits to inspect: every commit of the range when there is no
/// selection; otherwise the selected ones in range order, unless some
/// selection is outside the range, which is an invalid-input error that
/// lists them.
pub fn select(targets: Option<&Targets>, commits: &str) -> (r: Result<Vec<String>, SkillError>)
    ensures
        targets is None ==> (r matches Ok(v) && string_texts(v@) == lines(commits@)),
        targets matches Some(t) ==> (unknown_targets(t.texts(), commits@).len() > 0 ==> (r matches Err(
            e,
        ) && is_invalid_input(e, outside_reason(unknown_targets(t.texts(), commits@))))),
        targets matches Some(t) ==> (unknown_targets(t.texts(), commits@).len() == 0 ==> (r matches Ok(
            v,
        ) && string_texts(v@) == selected_in_order(commits@, t.texts()))),
{
    let c = chars_of(commits);
    let ls = lines_of(c.as_slice());
    proof {
        assert(Seq::new(ls@.len(), |i: int| ls@[i]@) =~= lines(commits@));
    }
    let t = match targets {
        None => {
            let mut out: Vec<String> = Vec::new();
            let mut k: usize = 0;
            while k < ls.len()
                invariant
                    k <= ls@.len() == lines(commits@).len(),
                    forall|j: int| 0 <= j < ls@.len() ==> #[trigger] ls@[j]@ == lines(commits@)[j],
                    string_texts(out@) == lines(commits@).subrange(0, k as int),
                decreases ls@.len() - k,
            {
                let ghost before = out@;
                out.push(string_of(ls[k].as_slice()));
                assert(string_texts(out@) =~= string_texts(before).push(ls@[k as int]@));
                assert(string_texts(out@) =~= lines(commits@).subrange(0, k + 1));
                k = k + 1;
            }
            assert(lines(commits@).subrange(0, k as int) =~= lines(commits@));
            return Ok(out);
        },
        Some(t) => t,
    };
    proof {
        use_type_invariant(t);
    }
    let ghost texts = t.texts();
    let ghost keep = |x: Seq<char>| !lines(commits@).contains(x);
    let mut msg: Vec<char> = Vec::new();
    push_text(&mut msg, "commit selections are outside the review range: ");
    let ghost head = msg@;
    let mut unknown: usize = 0;
    let ghost mut found: Seq<Seq<char>> = Seq::empty();
    let mut k: usize = 0;
    while k < t.commits.len()
        invariant
            k <= t.commits@.len() == texts.len(),
            texts == t.texts(),
            keep == (|x: Seq<char>| !lines(commits@).contains(x)),
            Seq::new(ls@.len(), |i: int| ls@[i]@) == lines(commits@),
            found == texts.subrange(0, k as int).filter(keep),
            unknown == found.len(),
            msg@ == head + comma_joined(found),
        decreases t.commits@.len() - k,
    {
        proof {
            reveal(Seq::filter);
            let s1 = texts.subrange(0, k + 1);
            assert(s1.drop_last() =~= texts.subrange(0, k as int));
            assert(s1.last() == t.commits@[k as int]@);
        }
        let item = chars_of(t.commits[k].as_str());
        if !among_lines(&ls, item.as_slice()) {
            if unknown > 0 {
                push_text(&mut msg, ", ");
            }
            push_text(&mut msg, t.commits[k].as_str());
            proof {
                let nf = found.push(item@);
                assert(nf.drop_last() =~= found);
                if found.len() == 0 {
                    assert(comma_joined(found) =~= Seq::<char>::empty());
                    assert(msg@ =~= head + comma_joined(nf));
                } else {
                    assert(msg@ =~= head + comma_joined(nf));
                }
                found = nf;
            }
            unknown = unknown + 1;
        }
        k = k + 1;
    }
    assert(texts.subrange(0, texts.len() as int) =~= texts);
    if unknown > 0 {
        return Err(SkillError::InvalidInput { message: string_of(msg.as_slice()) });
    }
    Ok(select_commits(commits, t.commits.as_slice()))
}

/// The JSON line `tree-hashes` prints for one commit:
/// `{"commit": <commit>, "tree": <tree>}`.
pub fn tree_hash_line(commit: &str, tree: &str) -> (r: String)
    ensures
        r@ == json_text(
            JsonView::Object(
                seq![("commit"@, JsonView::Str(commit@)), ("tree"@, JsonView::Str(tree@))],
            ),
        ),
{
    let fields = vec![string_member("commit", commit), string_member("tree", tree)];
    let ghost members = Seq::new(2, |i: int| (fields@[i].0@, member_view(fields@[i].1)));
    assert(members =~= seq![("commit"@, JsonView::Str(commit@)), ("tree"@, JsonView::Str(tree@))]);
    render_object(fields.as_slice())
}

} // verus!
