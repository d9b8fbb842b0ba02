//! Base-ref resolution: an explicit ref wins; otherwise the base of the
//! current branch's pull request, then the repository's default branch, and
//! `main` when GitHub knows neither. The queries are made by the caller:
//! each step says what to ask next, and the next step takes the answer.
use vstd::prelude::*;
use vstd::utf8::{decode_utf8, valid_utf8};

use crate::error::SkillError;
use crate::json::{JsonView, json_text, member_view, render_object, string_member};
use crate::git_review::git::{decode_stdout, utf8_error_text};
use crate::git_review::targets::string_texts;
use crate::text::{chars_of, copy_range, string_of, trim_end, trim_end_index};

verus! {

/// What resolution does next.
#[derive(Debug)]
pub enum ResolveStep {
    /// Resolution is finished: this is the base ref.
    Resolved(String),
    /// Resolution failed with this error.
    Failed(SkillError),
    /// Run `git` with these arguments (it prints the current branch) and
    /// hand its output to `after_branch`.
    ReadBranch(Vec<String>),
    /// Run `gh` with these arguments (it prints the base of the branch's
    /// pull request) and hand its answer to `after_pull_request`.
    QueryPullRequest(Vec<String>),
    /// Run `gh` with these arguments (it prints the repository's default
    /// branch) and hand its answer to `after_repository`.
    QueryRepository(Vec<String>),
}

/// The `git` arguments that print the current branch.
pub open spec fn branch_args() -> Seq<Seq<char>> {
    seq!["branch"@, "--show-current"@]
}

/// The `gh` arguments that print the base of `branch`'s pull request.
pub open spec fn pull_request_args(branch: Seq<char>) -> Seq<Seq<char>> {
    seq![
        "pr"@,
        "list"@,
        "--state"@,
        "all"@,
        "--head"@,
        branch,
        "--limit"@,
        "1"@,
        "--json"@,
        "baseRefName"@,
        "--jq"@,
        ".[0].baseRefName // empty"@,
    ]
}

/// The `gh` arguments that print the repository's default branch.
pub open spec fn repository_args() -> Seq<Seq<char>> {
    seq!["repo"@, "view"@, "--json"@, "defaultBranchRef"@, "--jq"@, ".defaultBranchRef.name"@]
}

/// Owned copies of some texts.
pub(crate) fn owned(parts: &[&str]) -> (r: Vec<String>)
    ensures
        string_texts(r@) == Seq::new(parts@.len(), |i: int| parts@[i]@),
{
    let mut out: Vec<String> = Vec::new();
    let mut k: usize = 0;
    while k < parts.len()
        invariant
            k <= parts@.len(),
            out@.len() == k,
            forall|i: int| 0 <= i < k ==> #[trigger] out@[i]@ == parts@[i]@,
        decreases parts@.len() - k,
    {
        out.push(parts[k].to_owned());
        k = k + 1;
    }
    assert(string_texts(out@) =~= Seq::new(parts@.len(), |i: int| parts@[i]@));
    out
}

/// The arguments that print the repository's default branch.
fn repository_query() -> (r: Vec<String>)
    ensures
        string_texts(r@) == repository_args(),
{
    let parts = ["repo", "view", "--json", "defaultBranchRef", "--jq", ".defaultBranchRef.name"];
    let r = owned(&parts);
    assert(string_texts(r@) =~= repository_args());
    r
}

/// The first step: an explicit base ref is the answer; otherwise read the
/// current branch.
pub fn start_resolve(base_ref: Option<&str>) -> (r: ResolveStep)
    ensures
        base_ref matches Some(b) ==> (r matches ResolveStep::Resolved(s) && s@ == b@),
        base_ref is None ==> (r matches ResolveStep::ReadBranch(args) && string_texts(args@)
            == branch_args()),
{
    match base_ref {
        Some(b) => ResolveStep::Resolved(b.to_owned()),
        None => {
            let parts = ["branch", "--show-current"];
            let args = owned(&parts);
            assert(string_texts(args@) =~= branch_args());
            ResolveStep::ReadBranch(args)
        },
    }
}

/// After the current branch is read: a failure ends resolution; a named
/// branch asks for its pull request's base; a detached head (no name) goes
/// straight to the repository default.
pub fn after_branch(branch: Result<String, SkillError>) -> (r: ResolveStep)
    ensures
        match branch {
            Err(e) => r == ResolveStep::Failed(e),
            Ok(b) => if b@.len() > 0 {
                r matches ResolveStep::QueryPullRequest(args) && string_texts(args@)
                    == pull_request_args(b@)
            } else {
                r matches ResolveStep::QueryRepository(args) && string_texts(args@)
                    == repository_args()
            },
        },
{
    match branch {
        Err(e) => ResolveStep::Failed(e),
        Ok(b) => {
            let name = chars_of(b.as_str());
            if name.len() == 0 {
                return ResolveStep::QueryRepository(repository_query());
            }
            let mut args: Vec<String> = Vec::new();
            args.push("pr".to_owned());
            args.push("list".to_owned());
            args.push("--state".to_owned());
            args.push("all".to_owned());
            args.push("--head".to_owned());
            args.push(b);
            args.push("--limit".to_owned());
            args.push("1".to_owned());
            args.push("--json".to_owned());
            args.push("baseRefName".to_owned());
            args.push("--jq".to_owned());
            args.push(".[0].baseRefName // empty".to_owned());
            assert(string_texts(args@) =~= pull_request_args(name@));
            ResolveStep::QueryPullRequest(args)
        },
    }
}

/// After the pull-request query: a failure ends resolution; a base is the
/// answer; no pull request asks for the repository default.
pub fn after_pull_request(reply: Result<Option<String>, SkillError>) -> (r: ResolveStep)
    ensures
        reply matches Err(e) ==> r == ResolveStep::Failed(e),
        reply matches Ok(Some(b)) ==> r == ResolveStep::Resolved(b),
        reply matches Ok(None) ==> (r matches ResolveStep::QueryRepository(args) && string_texts(
            args@,
        ) == repository_args()),
{
    match reply {
        Err(e) => ResolveStep::Failed(e),
        Ok(Some(b)) => ResolveStep::Resolved(b),
        Ok(None) => ResolveStep::QueryRepository(repository_query()),
    }
}

/// After the repository query: a failure ends resolution; the default
/// branch is the answer; `main` when GitHub reports none.
pub fn after_repository(reply: Result<Option<String>, SkillError>) -> (r: ResolveStep)
    ensures
        reply matches Err(e) ==> r == ResolveStep::Failed(e),
        reply matches Ok(Some(b)) ==> r == ResolveStep::Resolved(b),
        reply matches Ok(None) ==> (r matches ResolveStep::Resolved(s) && s@ == "main"@),
{
    match reply {
        Err(e) => ResolveStep::Failed(e),
        Ok(Some(b)) => ResolveStep::Resolved(b),
        Ok(None) => ResolveStep::Resolved("main".to_owned()),
    }
}

/// What a successful GitHub CLI query answers: nothing when it printed
/// only whitespace, otherwise its output without trailing whitespace;
/// output that is not UTF-8 is an I/O error.
pub fn interpret_output(bytes: Vec<u8>) -> (r: Result<Option<String>, SkillError>)
    ensures
        r is Ok <==> valid_utf8(bytes@),
        valid_utf8(bytes@) ==> (r matches Ok(answer) && (trim_end(decode_utf8(bytes@)).len() == 0
            ==> answer is None) && (trim_end(decode_utf8(bytes@)).len() > 0 ==> (answer matches Some(
            s,
        ) && s@ == trim_end(decode_utf8(bytes@))))),
        !valid_utf8(bytes@) ==> (r matches Err(e) && e matches SkillError::Io { message }
            && message@ == utf8_error_text(bytes@)),
{
    let text = decode_stdout(bytes)?;
    let c = chars_of(text.as_str());
    let k = trim_end_index(c.as_slice());
    if k == 0 {
        Ok(None)
    } else {
        let kept = copy_range(c.as_slice(), 0, k);
        Ok(Some(string_of(kept.as_slice())))
    }
}

/// The JSON line `resolve-base` prints: `{"base_ref": <base_ref>}`.
pub fn base_ref_line(base_ref: &str) -> (r: String)
    ensures
        r@ == json_text(JsonView::Object(seq![("base_ref"@, JsonView::Str(base_ref@))])),
{
    let fields = vec![string_member("base_ref", base_ref)];
    let ghost members = Seq::new(1, |i: int| (fields@[i].0@, member_view(fields@[i].1)));
    assert(members =~= seq![("base_ref"@, JsonView::Str(base_ref@))]);
    render_object(fields.as_slice())
}

} // verus!
