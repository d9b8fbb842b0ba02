use std::cell::Cell;

use skills::error::{SkillError, invalid};
use skills::git_review::base_ref::{
    ResolveStep, after_branch, base_ref_line, after_pull_request, after_repository, interpret_output,
    start_resolve,
};

/// Drives resolution the way the command does, with the current branch
/// read as `branch` and each GitHub question answered by `query`.
fn resolve(
    base_ref: Option<&str>,
    branch: &str,
    query: &mut dyn FnMut(&[String]) -> Result<Option<String>, SkillError>,
) -> Result<String, SkillError> {
    let mut step = start_resolve(base_ref);
    loop {
        step = match step {
            ResolveStep::Resolved(base) => return Ok(base),
            ResolveStep::Failed(error) => return Err(error),
            ResolveStep::ReadBranch(_args) => after_branch(Ok(branch.to_owned())),
            ResolveStep::QueryPullRequest(args) => after_pull_request(query(&args)),
            ResolveStep::QueryRepository(args) => after_repository(query(&args)),
        };
    }
}

#[test]
fn resolve_prefers_explicit_base() {
    let calls: Cell<usize> = Cell::new(0);
    let mut query = |_args: &[String]| {
        calls.set(calls.get() + 1);
        Ok(Some("ignored".to_owned()))
    };

    assert_eq!(resolve(Some("stable"), "main", &mut query).unwrap(), "stable");
    assert_eq!(calls.get(), 0);
}

#[test]
fn resolve_prefers_pull_request_base() {
    let mut query = |_args: &[String]| Ok(Some("release".to_owned()));

    assert_eq!(resolve(None, "main", &mut query).unwrap(), "release");
}

#[test]
fn resolve_uses_repository_default_after_missing_pull_request() {
    let calls: Cell<usize> = Cell::new(0);
    let mut query = |_args: &[String]| {
        let call = calls.get();
        calls.set(call + 1);
        if call == 0 {
            Ok(None)
        } else {
            Ok(Some("trunk".to_owned()))
        }
    };

    assert_eq!(resolve(None, "main", &mut query).unwrap(), "trunk");
    assert_eq!(calls.get(), 2);
}

#[test]
fn resolve_falls_back_to_main() {
    let mut query = |_args: &[String]| Ok(None);

    assert_eq!(resolve(None, "main", &mut query).unwrap(), "main");
}

#[test]
fn resolve_reports_query_error() {
    let mut query = |_args: &[String]| Err(invalid("query failed"));

    assert_eq!(
        resolve(None, "main", &mut query).unwrap_err().render(),
        "invalid input: query failed"
    );
}

#[test]
fn resolve_reports_repository_query_error() {
    let calls: Cell<usize> = Cell::new(0);
    let mut query = |_args: &[String]| {
        let call = calls.get();
        calls.set(call + 1);
        if call == 0 {
            Ok(None)
        } else {
            Err(invalid("repository query failed"))
        }
    };

    assert_eq!(
        resolve(None, "main", &mut query).unwrap_err().render(),
        "invalid input: repository query failed"
    );
}

#[test]
fn interpret_output_rejects_invalid_utf8() {
    assert_eq!(interpret_output(vec![0xff]).unwrap_err().exit_code(), 3);
}

#[test]
fn blank_queries_answer_nothing() {
    assert_eq!(interpret_output(b" \n".to_vec()).unwrap(), None);
    assert_eq!(
        interpret_output(b"release \n".to_vec()).unwrap(),
        Some("release".to_owned())
    );
}

#[test]
fn detached_head_skips_the_pull_request_query() {
    let seen: Cell<usize> = Cell::new(0);
    let mut query = |args: &[String]| {
        seen.set(seen.get() + 1);
        assert_eq!(args[0], "repo");
        Ok(Some("develop".to_owned()))
    };

    assert_eq!(resolve(None, "", &mut query).unwrap(), "develop");
    assert_eq!(seen.get(), 1);
}

#[test]
fn queries_name_the_branch_and_the_repository_default() {
    let ResolveStep::ReadBranch(git) = start_resolve(None) else {
        panic!("the branch is read first");
    };
    assert_eq!(git, vec!["branch", "--show-current"]);
    let ResolveStep::QueryPullRequest(pr) = after_branch(Ok("topic".to_owned())) else {
        panic!("a named branch asks for its pull request");
    };
    assert_eq!(
        pr,
        vec![
            "pr",
            "list",
            "--state",
            "all",
            "--head",
            "topic",
            "--limit",
            "1",
            "--json",
            "baseRefName",
            "--jq",
            ".[0].baseRefName // empty",
        ]
    );
    let ResolveStep::QueryRepository(repo) = after_pull_request(Ok(None)) else {
        panic!("no pull request asks for the repository default");
    };
    assert_eq!(
        repo,
        vec!["repo", "view", "--json", "defaultBranchRef", "--jq", ".defaultBranchRef.name"]
    );
    assert!(matches!(
        after_branch(Err(invalid("no git"))),
        ResolveStep::Failed(SkillError::InvalidInput { .. })
    ));
}

#[test]
fn base_ref_line_is_a_json_object() {
    assert_eq!(base_ref_line("stable"), "{\"base_ref\":\"stable\"}");
}
