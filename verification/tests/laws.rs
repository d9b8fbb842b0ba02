use skills::error::CommandOutcome;
use skills::git_review::dates::{parse_author_committer, parse_timestamp};
use skills::git_review::message::{MessageArgs, Verb, render};
use skills::git_review::messages::{message_is_valid, parse_message};
use skills::git_review::targets::{requested, select_commits};
use skills::lints::assert_contains::is_inside_any_target_macro_invocation_at;
use skills::lints::bare_clone::is_inside_macro_invocation_at;
use skills::lints::tag_only_assertion::is_inside_target_macro_invocation_at;
use skills::waivers::{AssertionHit, stale_waivers, tag_only_assertion_waivers};

#[test]
fn composed_messages_pass_the_message_check() {
    let args = MessageArgs {
        verb: Verb::Fix,
        summary: "message validation".to_owned(),
        body: None,
        action: vec!["Fix reject compound subjects".to_owned()],
    };
    let message = render(&args).unwrap();
    let subject = message.lines().next().unwrap();

    assert_eq!(subject, "Fix message validation");
    assert!(message_is_valid(subject, &message));
}

#[test]
fn printed_timestamps_parse_back() {
    for value in [i64::MIN, -1, 0, 7, 1_700_000_002, i64::MAX] {
        assert_eq!(parse_timestamp(&value.to_string(), "author").unwrap(), value);
    }
}

#[test]
fn show_output_reads_back_as_written() {
    let subject = "Add checker";
    let message = "Add checker\n\n- Add tests.\n";
    let encoded = format!("{subject}\0{message}");

    assert_eq!(
        parse_message(&encoded).unwrap(),
        (subject.to_owned(), message.to_owned())
    );
}

#[test]
fn default_selection_is_the_whole_range() {
    let commits = "a\nb\nc\n";
    let selected = requested(false, commits, &[]);

    assert_eq!(
        select_commits(commits, &selected),
        vec!["a".to_owned(), "b".to_owned(), "c".to_owned()]
    );
}

#[test]
fn assertion_positions_are_inside_a_macro() {
    let source = "fn f() { assert!(result.is_ok()); }";
    let byte_index = source.find("result.is_ok").unwrap();

    assert!(is_inside_target_macro_invocation_at(source, byte_index, "assert"));
    assert!(is_inside_macro_invocation_at(source, byte_index));
}

#[test]
fn used_waivers_are_not_stale() {
    let hit = AssertionHit::new(
        "crates/symbiote-tool-bash/src/adapter.rs",
        1413,
        "terminal_before_second",
        "is_err",
        "terminal_before_second.is_err()",
    );
    let stale = stale_waivers("symbiote_tool_bash", &[hit]);

    assert_eq!(stale.len(), tag_only_assertion_waivers().len() - 1);
    assert!(stale.iter().all(|waiver| waiver.line != 1413));
}

#[test]
fn outcome_messages_tell_outcomes_apart() {
    let codes = [i32::MIN, -12, -1, 0, 1, 12, 21, i32::MAX];
    for a in codes {
        for b in codes {
            assert_eq!(
                CommandOutcome::Exited(a).render() == CommandOutcome::Exited(b).render(),
                a == b
            );
        }
        assert_ne!(CommandOutcome::Exited(a).render(), CommandOutcome::Signaled.render());
    }
    assert_eq!(CommandOutcome::Exited(-12).render(), "exited with code -12");
}

#[test]
fn author_committer_lines_read_back() {
    for (author, committer) in [(0, 0), (100, -7), (i64::MIN, i64::MAX)] {
        let plain = format!("{author} {committer}");
        assert_eq!(parse_author_committer(&plain).unwrap(), (author, committer));
        let padded = format!(" \t{author}\t \u{3000}{committer} trailing words");
        assert_eq!(parse_author_committer(&padded).unwrap(), (author, committer));
    }
}

#[test]
fn more_observed_hits_never_add_stale_waivers() {
    let waivers = tag_only_assertion_waivers();
    let hit = |line: usize, receiver: &str, method: &str| {
        AssertionHit::new(
            "crates/symbiote-tool-bash/src/adapter.rs",
            line,
            receiver,
            method,
            &format!("{receiver}.{method}()"),
        )
    };
    let none = stale_waivers("symbiote_tool_bash", &[]);
    assert_eq!(none, waivers);
    assert!(stale_waivers("other_crate", &[]).is_empty());

    let fewer = [hit(839, "output.next().await", "is_none")];
    let more = [
        hit(839, "output.next().await", "is_none"),
        hit(1413, "terminal_before_second", "is_err"),
        hit(5, "unrelated", "is_ok"),
    ];
    let after_fewer = stale_waivers("symbiote_tool_bash", &fewer);
    let after_more = stale_waivers("symbiote_tool_bash", &more);
    assert_eq!(after_fewer.len(), waivers.len() - 1);
    assert_eq!(after_more.len(), waivers.len() - 2);
    assert!(after_more.iter().all(|waiver| after_fewer.contains(waiver)));
}

#[test]
fn more_target_names_keep_direct_positions() {
    let cases = [
        ("fn f() { assert!(ready); }", "ready"),
        ("fn f() { debug_assert!(assert!(!ready)); }", "ready"),
        ("fn f() { check!( vec![ready] ); }", "ready"),
    ];
    let fewer: &[&str] = &["assert"];
    let more: &[&str] = &["check", "assert", "debug_assert"];
    for (source, needle) in cases {
        let byte_index = source.find(needle).unwrap();
        let narrow = is_inside_any_target_macro_invocation_at(source, byte_index, fewer);
        let wide = is_inside_any_target_macro_invocation_at(source, byte_index, more);
        assert!(!narrow || wide, "{source}");
    }
    let source = "fn f() { debug_assert!(assert!(!ready)); }";
    let byte_index = source.find("!ready").unwrap();
    assert!(is_inside_any_target_macro_invocation_at(source, byte_index, fewer));
    assert!(is_inside_any_target_macro_invocation_at(source, byte_index, more));
}
