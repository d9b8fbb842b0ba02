//! Commit date order: every commit's author and committer timestamps must be
//! strictly later than the newest committer timestamp among its parents.
use vstd::prelude::*;

use crate::error::{SkillError, decimal, decimal_nat, digit_char, is_invalid_input, push_decimal,
    push_text};
use crate::git_review::base_ref::owned;
use crate::git_review::targets::string_texts;
use crate::text::{chars_of, is_ws, lemma_words_lead, string_of, words, words_of};
use crate::json::{JsonMember, JsonScalar, JsonView, flat_object_view, member_view, scalar_view, json_text, object_view,
    render_object, string_member};

verus! {

/// Why a decimal integer did not parse, as `ParseIntError::kind` tells.
#[derive(Clone, Copy, Debug, PartialEq, Eq)]
pub enum IntErrorKind {
    /// The text is empty.
    Empty,
    /// A character is not a digit (a lone sign included).
    InvalidDigit,
    /// The value is above `i64::MAX`.
    PosOverflow,
    /// The value is below `i64::MIN`.
    NegOverflow,
}

/// The text `ParseIntError` displays for each kind.
pub open spec fn int_error_text(kind: IntErrorKind) -> Seq<char> {
    match kind {
        IntErrorKind::Empty => "cannot parse integer from empty string"@,
        IntErrorKind::InvalidDigit => "invalid digit found in string"@,
        IntErrorKind::PosOverflow => "number too large to fit in target type"@,
        IntErrorKind::NegOverflow => "number too small to fit in target type"@,
    }
}

/// The text displayed for a parse failure.
pub fn int_error_message(kind: IntErrorKind) -> (r: &'static str)
    ensures
        r@ == int_error_text(kind),
{
    match kind {
        IntErrorKind::Empty => "cannot parse integer from empty string",
        IntErrorKind::InvalidDigit => "invalid digit found in string",
        IntErrorKind::PosOverflow => "number too large to fit in target type",
        IntErrorKind::NegOverflow => "number too small to fit in target type",
    }
}

/// An ASCII decimal digit.
pub open spec fn is_digit(c: char) -> bool {
    '0' <= c && c <= '9'
}

/// The value fits in an `i64`.
pub open spec fn in_i64(v: int) -> bool {
    i64::MIN <= v && v <= i64::MAX
}

/// The value of the first `k` digits of `d`, read left to right with the
/// sign applied to each digit, or the first failure: a non-digit, or a
/// running value that leaves the `i64` range.
pub open spec fn accumulate(d: Seq<char>, negative: bool, k: int) -> Result<int, IntErrorKind>
    decreases k,
{
    if k <= 0 || k > d.len() {
        Ok(0)
    } else {
        match accumulate(d, negative, k - 1) {
            Err(e) => Err(e),
            Ok(acc) => {
                let c = d[k - 1];
                if !is_digit(c) {
                    Err(IntErrorKind::InvalidDigit)
                } else {
                    let next = if negative {
                        acc * 10 - (c as int - 48)
                    } else {
                        acc * 10 + (c as int - 48)
                    };
                    if in_i64(next) {
                        Ok(next)
                    } else if negative {
                        Err(IntErrorKind::NegOverflow)
                    } else {
                        Err(IntErrorKind::PosOverflow)
                    }
                }
            },
        }
    }
}

/// What `str::parse::<i64>` gives for `s`: an optional `+` or `-` sign
/// followed by at least one ASCII digit.
pub open spec fn parse_i64(s: Seq<char>) -> Result<int, IntErrorKind> {
    if s.len() == 0 {
        Err(IntErrorKind::Empty)
    } else if s[0] == '+' || s[0] == '-' {
        if s.len() == 1 {
            Err(IntErrorKind::InvalidDigit)
        } else {
            accumulate(s.drop_first(), s[0] == '-', s.len() - 1)
        }
    } else {
        accumulate(s, false, s.len() as int)
    }
}

/// A failure on a prefix is the failure of every longer prefix.
proof fn lemma_accumulate_err_sticks(d: Seq<char>, negative: bool, k: int, n: int)
    requires
        0 < k <= n <= d.len(),
        accumulate(d, negative, k) is Err,
    ensures
        accumulate(d, negative, n) == accumulate(d, negative, k),
    decreases n - k,
{
    if n > k {
        lemma_accumulate_err_sticks(d, negative, k, n - 1);
    }
}

/// Reads the digits of `d` with the given sign.
fn accumulate_digits(d: &[char], negative: bool) -> (r: Result<i64, IntErrorKind>)
    ensures
        r is Ok == accumulate(d@, negative, d@.len() as int) is Ok,
        r matches Ok(v) ==> accumulate(d@, negative, d@.len() as int) == Ok::<int, IntErrorKind>(v as int),
        r matches Err(e) ==> accumulate(d@, negative, d@.len() as int) == Err::<int, IntErrorKind>(e),
{
    let mut acc: i64 = 0;
    let mut k: usize = 0;
    while k < d.len()
        invariant
            k <= d@.len(),
            accumulate(d@, negative, k as int) == Ok::<int, IntErrorKind>(acc as int),
        decreases d@.len() - k,
    {
        let c = d[k];
        if !('0' <= c && c <= '9') {
            proof {
                lemma_accumulate_err_sticks(d@, negative, k + 1, d@.len() as int);
            }
            return Err(IntErrorKind::InvalidDigit);
        }
        let digit = (c as u32 - 48) as i128;
        let next: i128 = if negative {
            acc as i128 * 10 - digit
        } else {
            acc as i128 * 10 + digit
        };
        if next < i64::MIN as i128 || next > i64::MAX as i128 {
            proof {
                lemma_accumulate_err_sticks(d@, negative, k + 1, d@.len() as int);
            }
            if negative {
                return Err(IntErrorKind::NegOverflow);
            } else {
                return Err(IntErrorKind::PosOverflow);
            }
        }
        acc = next as i64;
        k = k + 1;
    }
    Ok(acc)
}

/// Parses a decimal `i64` the way `str::parse` does.
pub fn parse_i64_text(s: &[char]) -> (r: Result<i64, IntErrorKind>)
    ensures
        r is Ok == parse_i64(s@) is Ok,
        r matches Ok(v) ==> parse_i64(s@) == Ok::<int, IntErrorKind>(v as int),
        r matches Err(e) ==> parse_i64(s@) == Err::<int, IntErrorKind>(e),
{
    if s.len() == 0 {
        return Err(IntErrorKind::Empty);
    }
    if s[0] == '+' || s[0] == '-' {
        if s.len() == 1 {
            return Err(IntErrorKind::InvalidDigit);
        }
        let digits = crate::text::copy_range(s, 1, s.len());
        assert(digits@ =~= s@.drop_first());
        accumulate_digits(digits.as_slice(), s[0] == '-')
    } else {
        accumulate_digits(s, false)
    }
}

/// The reason given when a timestamp field does not parse.
pub open spec fn timestamp_error(field: Seq<char>, kind: IntErrorKind) -> Seq<char> {
    "invalid "@ + field + " timestamp: "@ + int_error_text(kind)
}

/// Parses one timestamp; a failure names the field and the parse error.
pub fn parse_timestamp(value: &str, field: &str) -> (r: Result<i64, SkillError>)
    ensures
        r is Ok == parse_i64(value@) is Ok,
        r matches Ok(v) ==> parse_i64(value@) == Ok::<int, IntErrorKind>(v as int),
        r matches Err(e) ==> (parse_i64(value@) matches Err(kind) && is_invalid_input(
            e,
            timestamp_error(field@, kind),
        )),
{
    let c = chars_of(value);
    match parse_i64_text(c.as_slice()) {
        Ok(v) => Ok(v),
        Err(kind) => {
            let mut out: Vec<char> = Vec::new();
            push_text(&mut out, "invalid ");
            push_text(&mut out, field);
            push_text(&mut out, " timestamp: ");
            push_text(&mut out, int_error_message(kind));
            assert(out@ =~= timestamp_error(field@, kind));
            let message = string_of(out.as_slice());
            Err(SkillError::InvalidInput { message })
        },
    }
}

/// What `parse_author_committer` gives for a `%at %ct` line: the first two
/// words parsed as the author and committer timestamps; a missing word is
/// reported before any parse failure, and the author before the committer.
pub open spec fn author_committer(line: Seq<char>) -> Result<(int, int), Seq<char>> {
    let w = words(line);
    if w.len() == 0 {
        Err("missing author timestamp"@)
    } else if w.len() == 1 {
        Err("missing committer timestamp"@)
    } else {
        match parse_i64(w[0]) {
            Err(kind) => Err(timestamp_error("author"@, kind)),
            Ok(author) => match parse_i64(w[1]) {
                Err(kind) => Err(timestamp_error("committer"@, kind)),
                Ok(committer) => Ok((author, committer)),
            },
        }
    }
}

/// Parses the author and committer timestamp pair.
pub fn parse_author_committer(line: &str) -> (r: Result<(i64, i64), SkillError>)
    ensures
        r is Ok == author_committer(line@) is Ok,
        r matches Ok(pair) ==> author_committer(line@) == Ok::<(int, int), Seq<char>>(
            (pair.0 as int, pair.1 as int),
        ),
        r matches Err(e) ==> (author_committer(line@) matches Err(m) && is_invalid_input(e, m)),
{
    let c = chars_of(line);
    let w = words_of(c.as_slice());
    if w.len() == 0 {
        return Err(crate::error::invalid("missing author timestamp"));
    }
    if w.len() == 1 {
        return Err(crate::error::invalid("missing committer timestamp"));
    }
    assert(w@[0]@ == words(line@)[0]);
    assert(w@[1]@ == words(line@)[1]);
    let author = string_of(w[0].as_slice());
    let committer = string_of(w[1].as_slice());
    let a = parse_timestamp(author.as_str(), "author")?;
    let b = parse_timestamp(committer.as_str(), "committer")?;
    Ok((a, b))
}

/// The parent commits listed by `%P`, one per word.
pub fn parent_commits(parents: &str) -> (r: Vec<String>)
    ensures
        r@.len() == words(parents@).len(),
        forall|i: int| 0 <= i < r@.len() ==> #[trigger] r@[i]@ == words(parents@)[i],
{
    let c = chars_of(parents);
    let w = words_of(c.as_slice());
    let mut out: Vec<String> = Vec::new();
    let mut k: usize = 0;
    while k < w.len()
        invariant
            k <= w@.len() == words(parents@).len(),
            forall|i: int| 0 <= i < w@.len() ==> #[trigger] w@[i]@ == words(parents@)[i],
            out@.len() == k,
            forall|i: int| 0 <= i < k ==> #[trigger] out@[i]@ == words(parents@)[i],
        decreases w@.len() - k,
    {
        out.push(string_of(w[k].as_slice()));
        k = k + 1;
    }
    out
}

/// The largest of 0 and the given timestamps.
pub open spec fn newest(stamps: Seq<i64>) -> int
    decreases stamps.len(),
{
    if stamps.len() == 0 {
        0
    } else {
        let rest = newest(stamps.drop_last());
        if stamps.last() > rest {
            stamps.last() as int
        } else {
            rest
        }
    }
}

/// The newest committer timestamp among the parents, 0 for none.
pub fn max_parent_timestamp(stamps: &[i64]) -> (r: i64)
    ensures
        r == newest(stamps@),
        r >= 0,
        forall|i: int| 0 <= i < stamps@.len() ==> stamps@[i] <= r,
        r == 0 || exists|i: int| 0 <= i < stamps@.len() && stamps@[i] == r,
{
    let mut maximum: i64 = 0;
    let mut k: usize = 0;
    while k < stamps.len()
        invariant
            k <= stamps@.len(),
            maximum == newest(stamps@.subrange(0, k as int)),
            maximum >= 0,
            forall|i: int| 0 <= i < k ==> stamps@[i] <= maximum,
            maximum == 0 || exists|i: int| 0 <= i < k && stamps@[i] == maximum,
        decreases stamps@.len() - k,
    {
        assert(stamps@.subrange(0, k + 1).drop_last() =~= stamps@.subrange(0, k as int));
        if stamps[k] > maximum {
            maximum = stamps[k];
        }
        k = k + 1;
    }
    assert(stamps@.subrange(0, k as int) =~= stamps@);
    maximum
}

/// One commit whose timestamps do not strictly follow its parents.
#[derive(Clone, Debug, PartialEq, Eq)]
pub struct Violation {
    /// The violating commit.
    pub commit: String,
    /// The newest parent committer timestamp.
    pub parent: i64,
    /// The commit's author timestamp.
    pub author: i64,
    /// The commit's committer timestamp.
    pub committer: i64,
}

/// The verdict on a commit with parents: a violation unless both its author
/// and committer timestamps are strictly later than the newest parent's.
pub fn date_order_violation(commit: &str, parent: i64, author: i64, committer: i64) -> (r: Option<
    Violation,
>)
    ensures
        r is None == (author > parent && committer > parent),
        r matches Some(v) ==> v.commit@ == commit@ && v.parent == parent && v.author == author
            && v.committer == committer,
{
    if author > parent && committer > parent {
        None
    } else {
        Some(Violation { commit: commit.to_owned(), parent, author, committer })
    }
}

/// A commit whose `%P` parent list is empty is a root commit, which has no
/// parent to follow and is never a violation.
pub fn is_root_commit(parents: &str) -> (r: bool)
    ensures
        r == (parents@.len() == 0),
{
    let c = chars_of(parents);
    c.len() == 0
}

/// The report's status: `ok` without violations, `violations` otherwise.
pub fn report_status(violation_count: usize) -> (r: &'static str)
    ensures
        r@ == (if violation_count == 0 {
            "ok"@
        } else {
            "violations"@
        }),
{
    if violation_count == 0 {
        "ok"
    } else {
        "violations"
    }
}

/// The JSON object reporting one violation: its author, committer and
/// parent timestamps as integers and its commit as a string.
pub open spec fn violation_json(v: Violation) -> JsonView {
    JsonView::Object(
        seq![
            ("author"@, JsonView::Int(v.author as int)),
            ("commit"@, JsonView::Str(v.commit@)),
            ("committer"@, JsonView::Int(v.committer as int)),
            ("parent"@, JsonView::Int(v.parent as int)),
        ],
    )
}

/// The JSON object `check-dates` prints: `status` is `ok` without
/// violations and `violations` otherwise, and `violations` lists every
/// violation in range order.
pub open spec fn date_report_value(violations: Seq<Violation>) -> JsonView {
    JsonView::Object(
        seq![
            ("status"@, JsonView::Str(
                if violations.len() == 0 {
                    "ok"@
                } else {
                    "violations"@
                },
            )),
            ("violations"@, JsonView::Array(
                Seq::new(violations.len(), |i: int| violation_json(violations[i])),
            )),
        ],
    )
}

/// The object reporting one violation.
fn violation_fields(v: &Violation) -> (r: Vec<(String, JsonScalar)>)
    ensures
        flat_object_view(r@) == violation_json(*v),
{
    let r = vec![
        ("author".to_owned(), JsonScalar::Int(v.author)),
        ("commit".to_owned(), JsonScalar::Str(v.commit.as_str().to_owned())),
        ("committer".to_owned(), JsonScalar::Int(v.committer)),
        ("parent".to_owned(), JsonScalar::Int(v.parent)),
    ];
    assert(r@.len() == 4);
    assert(r@[0].0@ == "author"@);
    assert(scalar_view(r@[1].1) == JsonView::Str(v.commit@));
    let ghost inner = Seq::new(4, |i: int| (r@[i].0@, scalar_view(r@[i].1)));
    assert(inner =~= seq![
        ("author"@, JsonView::Int(v.author as int)),
        ("commit"@, JsonView::Str(v.commit@)),
        ("committer"@, JsonView::Int(v.committer as int)),
        ("parent"@, JsonView::Int(v.parent as int)),
    ]);
    r
}

/// The report `check-dates` prints: its status and every violation, in
/// range order.
pub fn date_report(violations: &[Violation]) -> (r: String)
    ensures
        r@ == json_text(date_report_value(violations@)),
{
    let mut items: Vec<Vec<(String, JsonScalar)>> = Vec::new();
    let mut k: usize = 0;
    while k < violations.len()
        invariant
            k <= violations@.len(),
            items@.len() == k,
            forall|i: int| 0 <= i < k ==> flat_object_view(#[trigger] items@[i]@) == violation_json(
                violations@[i],
            ),
        decreases violations@.len() - k,
    {
        items.push(violation_fields(&violations[k]));
        k = k + 1;
    }
    let status = report_status(violations.len());
    let ghost listed = items@;
    assert(Seq::new(listed.len(), |i: int| flat_object_view(listed[i]@)) =~= Seq::new(
        violations@.len(),
        |i: int| violation_json(violations@[i]),
    ));
    let fields = vec![
        string_member("status", status),
        ("violations".to_owned(), JsonMember::Objects(items)),
    ];
    assert(fields@[1].0@ == "violations"@);
    let ghost members = Seq::new(2, |i: int| (fields@[i].0@, member_view(fields@[i].1)));
    assert(members[1].1 == JsonView::Array(
        Seq::new(violations@.len(), |i: int| violation_json(violations@[i])),
    ));
    assert(members =~= seq![
        ("status"@, JsonView::Str(
            if violations@.len() == 0 {
                "ok"@
            } else {
                "violations"@
            },
        )),
        ("violations"@, JsonView::Array(
            Seq::new(violations@.len(), |i: int| violation_json(violations@[i])),
        )),
    ]);
    render_object(fields.as_slice())
}

/// The `git` arguments that print `format` for `revision`.
pub open spec fn show_args(format: Seq<char>, revision: Seq<char>) -> Seq<Seq<char>> {
    seq!["show"@, "-s"@, format, revision]
}

/// What checking one commit's dates does next.
#[derive(Debug)]
pub enum DateStep {
    /// Run `git` with these arguments and hand its output to `after_show`.
    Show(Vec<String>),
    /// The check is finished: the commit's violation, if it has one.
    Verdict(Option<Violation>),
}

/// How far checking one commit's dates has got: the commit, its parents
/// once they are read, and the committer timestamps of the parents read
/// so far, in order.
#[derive(Debug)]
pub struct DateInspection {
    pub commit: String,
    pub parents: Option<Vec<String>>,
    pub stamps: Vec<i64>,
}

/// The read that follows once `read` parent timestamps are known: the
/// next parent's committer timestamp, then the commit's own author and
/// committer timestamps.
pub open spec fn next_read(commit: Seq<char>, parents: Seq<Seq<char>>, read: int) -> Seq<Seq<char>> {
    if read < parents.len() {
        show_args("--format=%ct"@, parents[read])
    } else {
        show_args("--format=%at %ct"@, commit)
    }
}

/// A violation as plain values: commit, parent, author and committer
/// timestamps.
pub open spec fn violation_fields_of(v: Violation) -> (Seq<char>, int, int, int) {
    (v.commit@, v.parent as int, v.author as int, v.committer as int)
}

/// The verdict on a commit with parents: a violation unless both its
/// author and committer timestamps are strictly later than `parent`.
pub open spec fn verdict_of(commit: Seq<char>, parent: int, author: int, committer: int) -> Option<
    (Seq<char>, int, int, int),
> {
    if author > parent && committer > parent {
        None
    } else {
        Some((commit, parent, author, committer))
    }
}

/// Asks for the next read.
fn next_show(commit: &String, parents: &Vec<String>, read: usize) -> (r: DateStep)
    ensures
        r matches DateStep::Show(args) && string_texts(args@) == next_read(
            commit@,
            string_texts(parents@),
            read as int,
        ),
{
    let args = if read < parents.len() {
        owned(&["show", "-s", "--format=%ct", parents[read].as_str()])
    } else {
        owned(&["show", "-s", "--format=%at %ct", commit.as_str()])
    };
    assert(string_texts(args@) =~= next_read(commit@, string_texts(parents@), read as int));
    DateStep::Show(args)
}

/// Starts checking a commit's dates: read its parents.
pub fn start_dates(commit: &str) -> (r: (DateInspection, DateStep))
    ensures
        r.0.commit@ == commit@,
        r.0.parents is None,
        r.0.stamps@.len() == 0,
        r.1 matches DateStep::Show(args) && string_texts(args@) == show_args("--format=%P"@, commit@),
{
    let args = owned(&["show", "-s", "--format=%P", commit]);
    assert(string_texts(args@) =~= show_args("--format=%P"@, commit@));
    (DateInspection { commit: commit.to_owned(), parents: None, stamps: Vec::new() }, DateStep::Show(
        args,
    ))
}

/// Takes the output of the last read. The parents' line: a root commit
/// has no violation, otherwise each parent's committer timestamp is read.
/// A parent's timestamp: it must parse, then the next read follows. The
/// commit's own timestamps: they must parse, and the verdict compares them
/// with the newest parent timestamp.
pub fn after_show(state: DateInspection, output: &str) -> (r: Result<(DateInspection, DateStep), SkillError>)
    ensures
        state.parents is None && output@.len() == 0 ==> (r matches Ok((_, DateStep::Verdict(v)))
            && v is None),
        state.parents is None && output@.len() > 0 ==> (r matches Ok((s, step)) && s.commit@
            == state.commit@ && s.stamps@.len() == 0 && (s.parents matches Some(ps) && string_texts(
            ps@,
        ) == words(output@) && (step matches DateStep::Show(args) && string_texts(args@) == next_read(
            state.commit@,
            words(output@),
            0,
        )))),
        match state.parents {
            Some(ps) => state.stamps@.len() < ps@.len() ==> match parse_i64(output@) {
                Err(kind) => r matches Err(e) && is_invalid_input(e, timestamp_error("parent"@, kind)),
                Ok(v) => r matches Ok((s, step)) && s.commit@ == state.commit@ && s.parents
                    == state.parents && s.stamps@ == state.stamps@.push(v as i64) && (step matches DateStep::Show(
                    args,
                ) && string_texts(args@) == next_read(
                    state.commit@,
                    string_texts(ps@),
                    state.stamps@.len() + 1int,
                )),
            },
            None => true,
        },
        match state.parents {
            Some(ps) => state.stamps@.len() >= ps@.len() ==> match author_committer(output@) {
                Err(m) => r matches Err(e) && is_invalid_input(e, m),
                Ok((a, c)) => r matches Ok((_, DateStep::Verdict(v))) && (match v {
                    Some(x) => Some(violation_fields_of(x)),
                    None => None,
                }) == verdict_of(state.commit@, newest(state.stamps@), a, c),
            },
            None => true,
        },
{
    let DateInspection { commit, parents, mut stamps } = state;
    match parents {
        None => {
            if is_root_commit(output) {
                return Ok((DateInspection { commit, parents: None, stamps }, DateStep::Verdict(None)));
            }
            let ps = parent_commits(output);
            assert(string_texts(ps@) =~= words(output@));
            let step = next_show(&commit, &ps, 0);
            Ok((DateInspection { commit, parents: Some(ps), stamps: Vec::new() }, step))
        },
        Some(ps) => {
            if stamps.len() < ps.len() {
                let v = parse_timestamp(output, "parent")?;
                stamps.push(v);
                let step = next_show(&commit, &ps, stamps.len());
                Ok((DateInspection { commit, parents: Some(ps), stamps }, step))
            } else {
                let (author, committer) = parse_author_committer(output)?;
                let parent = max_parent_timestamp(stamps.as_slice());
                let verdict = date_order_violation(commit.as_str(), parent, author, committer);
                Ok((DateInspection { commit, parents: Some(ps), stamps }, DateStep::Verdict(verdict)))
            }
        },
    }
}

/// The reason given when the range has violations.
pub open spec fn violations_reason(count: nat) -> Seq<char> {
    "date order violations detected ("@ + decimal(count as int) + ")"@
}

/// The command's result: success without violations, otherwise an
/// invalid-input error that counts them.
pub fn date_order_outcome(count: usize) -> (r: Result<(), SkillError>)
    ensures
        r is Ok == (count == 0),
        r matches Err(e) ==> is_invalid_input(e, violations_reason(count as nat)),
{
    if count == 0 {
        return Ok(());
    }
    let mut out: Vec<char> = Vec::new();
    push_text(&mut out, "date order violations detected (");
    push_decimal(&mut out, count as u64);
    push_text(&mut out, ")");
    assert(decimal(count as int) == crate::error::decimal_nat(count as nat));
    assert(out@ =~= violations_reason(count as nat));
    let message = string_of(out.as_slice());
    Err(SkillError::InvalidInput { message })
}

/// Reading a prefix does not look past it.
proof fn lemma_accumulate_prefix(d: Seq<char>, e: Seq<char>, negative: bool, k: int)
    requires
        0 <= k <= d.len(),
    ensures
        accumulate(d + e, negative, k) == accumulate(d, negative, k),
    decreases k,
{
    if k > 0 {
        lemma_accumulate_prefix(d, e, negative, k - 1);
        assert((d + e)[k - 1] == d[k - 1]);
    }
}

/// The decimal digits of `n`, read with a sign, give the signed value of
/// `n` when it fits in an `i64`.
proof fn lemma_accumulate_decimal(n: nat, negative: bool)
    requires
        negative ==> n <= 0x8000_0000_0000_0000,
        !negative ==> n <= 0x7fff_ffff_ffff_ffff,
    ensures
        decimal_nat(n).len() >= 1,
        is_digit(decimal_nat(n)[0]),
        accumulate(decimal_nat(n), negative, decimal_nat(n).len() as int) == Ok::<int, IntErrorKind>(
            if negative {
                -(n as int)
            } else {
                n as int
            },
        ),
    decreases n,
{
    if n < 10 {
        let s = decimal_nat(n);
        assert(s == seq![digit_char(n as int)]);
        assert(accumulate(s, negative, 0) == Ok::<int, IntErrorKind>(0));
    } else {
        let high = n / 10;
        let low = n % 10;
        lemma_accumulate_decimal(high, negative);
        let d = decimal_nat(high);
        let c = digit_char(low as int);
        let s = decimal_nat(n);
        assert(s == d.push(c));
        assert(d.push(c) =~= d + seq![c]);
        lemma_accumulate_prefix(d, seq![c], negative, d.len() as int);
        assert(s[s.len() - 1] == c);
        assert(s[0] == d[0]);
        assert(n == high * 10 + low);
    }
}

/// Parsing is the inverse of printing: the decimal text of any `i64`
/// timestamp parses back to it.
pub proof fn decimal_text_parses_back(v: i64)
    ensures
        parse_i64(decimal(v as int)) == Ok::<int, IntErrorKind>(v as int),
{
    if v < 0 {
        let m = (-(v as int)) as nat;
        lemma_accumulate_decimal(m, true);
        let s = decimal(v as int);
        assert(s == seq!['-'] + decimal_nat(m));
        assert(s.drop_first() =~= decimal_nat(m));
    } else {
        lemma_accumulate_decimal(v as nat, false);
    }
}

/// Decimal digits hold no whitespace.
proof fn lemma_decimal_nat_has_no_ws(n: nat)
    ensures
        decimal_nat(n).len() > 0,
        forall|i: int| 0 <= i < decimal_nat(n).len() ==> !is_ws(#[trigger] decimal_nat(n)[i]),
    decreases n,
{
    if n >= 10 {
        lemma_decimal_nat_has_no_ws(n / 10);
        let d = decimal_nat(n / 10);
        assert forall|i: int| 0 <= i < decimal_nat(n).len() implies !is_ws(#[trigger] decimal_nat(n)[i]) by {
            if i < d.len() {
                assert(decimal_nat(n)[i] == d[i]);
            } else {
                assert(decimal_nat(n)[i] == digit_char((n % 10) as int));
            }
        }
    }
}

/// The decimal text of an integer is one word.
proof fn lemma_decimal_is_word(v: int)
    ensures
        decimal(v).len() > 0,
        forall|i: int| 0 <= i < decimal(v).len() ==> !is_ws(#[trigger] decimal(v)[i]),
{
    if v < 0 {
        let m = (-v) as nat;
        lemma_decimal_nat_has_no_ws(m);
        assert forall|i: int| 0 <= i < decimal(v).len() implies !is_ws(#[trigger] decimal(v)[i]) by {
            if i > 0 {
                assert(decimal(v)[i] == decimal_nat(m)[i - 1]);
            }
        }
    } else {
        lemma_decimal_nat_has_no_ws(v as nat);
    }
}

/// A `%at %ct` line gives back the timestamps it was written from: the
/// author's and the committer's decimal text, separated by whitespace,
/// with any whitespace before them and anything after a further
/// whitespace ignored.
pub proof fn author_committer_reads_back(
    author: i64,
    committer: i64,
    lead: Seq<char>,
    gap: Seq<char>,
    tail: Seq<char>,
)
    requires
        forall|i: int| 0 <= i < lead.len() ==> is_ws(#[trigger] lead[i]),
        gap.len() > 0,
        forall|i: int| 0 <= i < gap.len() ==> is_ws(#[trigger] gap[i]),
        tail.len() == 0 || is_ws(tail[0]),
    ensures
        author_committer(lead + decimal(author as int) + gap + decimal(committer as int) + tail)
            == Ok::<(int, int), Seq<char>>((author as int, committer as int)),
{
    let da = decimal(author as int);
    let dc = decimal(committer as int);
    lemma_decimal_is_word(author as int);
    lemma_decimal_is_word(committer as int);
    let rest = gap + dc + tail;
    assert(rest[0] == gap[0]);
    lemma_words_lead(lead, da, rest);
    lemma_words_lead(gap, dc, tail);
    let line = lead + da + gap + dc + tail;
    assert(line =~= lead + da + rest);
    let w = words(line);
    assert(w == seq![da] + (seq![dc] + words(tail)));
    assert(w[0] == da);
    assert(w[1] == dc);
    decimal_text_parses_back(author);
    decimal_text_parses_back(committer);
}

} // verus!
