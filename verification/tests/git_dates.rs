use skills::git_review::dates::{
    DateStep, after_show, start_dates,
    IntErrorKind, Violation, date_order_outcome, date_order_violation, date_report, is_root_commit,
    report_status,
    max_parent_timestamp, parent_commits, parse_author_committer, parse_i64_text,
    parse_timestamp,
};

fn chars(text: &str) -> Vec<char> {
    text.chars().collect()
}

#[test]
fn parse_timestamp_accepts_integer() {
    assert_eq!(parse_timestamp("42", "author").unwrap(), 42);
}

#[test]
fn parse_timestamp_rejects_non_integer() {
    assert_eq!(
        parse_timestamp("later", "author").unwrap_err().render(),
        "invalid input: invalid author timestamp: invalid digit found in string"
    );
}

#[test]
fn parse_author_committer_accepts_pair() {
    assert_eq!(parse_author_committer("41 42").unwrap(), (41, 42));
}

#[test]
fn parse_author_committer_rejects_missing_author() {
    assert_eq!(
        parse_author_committer("").unwrap_err().render(),
        "invalid input: missing author timestamp"
    );
}

#[test]
fn parse_author_committer_rejects_missing_committer() {
    assert_eq!(
        parse_author_committer("41").unwrap_err().render(),
        "invalid input: missing committer timestamp"
    );
}

#[test]
fn parse_author_committer_rejects_invalid_author() {
    assert_eq!(
        parse_author_committer("earlier 42").unwrap_err().render(),
        "invalid input: invalid author timestamp: invalid digit found in string"
    );
}

#[test]
fn parse_author_committer_rejects_invalid_committer() {
    assert_eq!(
        parse_author_committer("41 later").unwrap_err().render(),
        "invalid input: invalid committer timestamp: invalid digit found in string"
    );
}

#[test]
fn integer_parsing_follows_str_parse() {
    for text in [
        "0", "-0", "+7", "-42", "9223372036854775807", "-9223372036854775808", "", "+", "-",
        "12a", "1 2", "9223372036854775808", "-9223372036854775809", "99999999999999999999x",
        "x99999999999999999999", "٣", "+-1",
    ] {
        let expected = match text.parse::<i64>() {
            Ok(value) => Ok(value),
            Err(error) => Err(match error.kind() {
                std::num::IntErrorKind::Empty => IntErrorKind::Empty,
                std::num::IntErrorKind::InvalidDigit => IntErrorKind::InvalidDigit,
                std::num::IntErrorKind::PosOverflow => IntErrorKind::PosOverflow,
                std::num::IntErrorKind::NegOverflow => IntErrorKind::NegOverflow,
                _ => unreachable!(),
            }),
        };
        assert_eq!(parse_i64_text(&chars(text)), expected, "{text:?}");
    }
}

#[test]
fn parse_errors_display_as_std_does() {
    assert_eq!(
        parse_timestamp("", "parent").unwrap_err().render(),
        format!("invalid input: invalid parent timestamp: {}", "".parse::<i64>().unwrap_err())
    );
    assert_eq!(
        parse_timestamp("99999999999999999999", "parent").unwrap_err().render(),
        "invalid input: invalid parent timestamp: number too large to fit in target type"
    );
    assert_eq!(
        parse_timestamp("-99999999999999999999", "parent").unwrap_err().render(),
        "invalid input: invalid parent timestamp: number too small to fit in target type"
    );
}

#[test]
fn timestamps_are_split_on_any_whitespace() {
    assert_eq!(parse_author_committer("\t41\u{3000} 42  extra\n").unwrap(), (41, 42));
    assert_eq!(
        parent_commits("  abc def\tghi\n"),
        vec!["abc".to_owned(), "def".to_owned(), "ghi".to_owned()]
    );
    assert!(parent_commits("   ").is_empty());
}

#[test]
fn newest_parent_is_the_maximum_or_zero() {
    assert_eq!(max_parent_timestamp(&[]), 0);
    assert_eq!(max_parent_timestamp(&[5, 9, 7]), 9);
    assert_eq!(max_parent_timestamp(&[-5]), 0);
}

#[test]
fn commits_must_strictly_follow_their_newest_parent() {
    assert_eq!(date_order_violation("c", 10, 11, 12), None);
    assert_eq!(
        date_order_violation("c", 10, 10, 12),
        Some(Violation {
            commit: "c".to_owned(),
            parent: 10,
            author: 10,
            committer: 12,
        })
    );
    assert!(date_order_violation("c", 10, 12, 9).is_some());
}

#[test]
fn outcome_counts_the_violations() {
    assert!(date_order_outcome(0).is_ok());
    assert_eq!(
        date_order_outcome(1).unwrap_err().render(),
        "invalid input: date order violations detected (1)"
    );
    assert_eq!(
        date_order_outcome(12).unwrap_err().render(),
        "invalid input: date order violations detected (12)"
    );
}

#[test]
fn max_parent_timestamp_accepts_no_parents() {
    let stamps: Vec<i64> = parent_commits("")
        .iter()
        .map(|parent| parse_timestamp(parent, "parent").unwrap())
        .collect();

    assert_eq!(max_parent_timestamp(&stamps), 0);
}

#[test]
fn root_commits_are_recognised_and_status_is_named() {
    assert!(is_root_commit(""));
    assert!(!is_root_commit("abc"));
    assert_eq!(report_status(0), "ok");
    assert_eq!(report_status(3), "violations");
}

#[test]
fn report_without_violations_is_ok() {
    assert_eq!(date_report(&[]), "{\"status\":\"ok\",\"violations\":[]}");
}

#[test]
fn report_lists_each_violation_with_sorted_keys() {
    let violations = [
        Violation { commit: "abc".to_owned(), parent: 100, author: 100, committer: 100 },
        Violation { commit: "d\"e".to_owned(), parent: -5, author: 7, committer: -9 },
    ];
    assert_eq!(
        date_report(&violations),
        "{\"status\":\"violations\",\"violations\":[\
         {\"author\":100,\"commit\":\"abc\",\"committer\":100,\"parent\":100},\
         {\"author\":7,\"commit\":\"d\\\"e\",\"committer\":-9,\"parent\":-5}]}"
    );
}

fn show(step: &DateStep) -> Option<Vec<String>> {
    match step {
        DateStep::Show(args) => Some(args.clone()),
        DateStep::Verdict(_) => None,
    }
}

#[test]
fn date_check_reads_parents_then_timestamps() {
    let (state, step) = start_dates("c1");
    assert_eq!(show(&step).unwrap(), ["show", "-s", "--format=%P", "c1"]);
    let (state, step) = after_show(state, "p1 p2").unwrap();
    assert_eq!(show(&step).unwrap(), ["show", "-s", "--format=%ct", "p1"]);
    let (state, step) = after_show(state, "10").unwrap();
    assert_eq!(show(&step).unwrap(), ["show", "-s", "--format=%ct", "p2"]);
    let (state, step) = after_show(state, "20").unwrap();
    assert_eq!(show(&step).unwrap(), ["show", "-s", "--format=%at %ct", "c1"]);
    let (_, step) = after_show(state, "15 25").unwrap();
    assert!(matches!(
        step,
        DateStep::Verdict(Some(Violation { commit, parent: 20, author: 15, committer: 25 }))
            if commit == "c1"
    ));
}

#[test]
fn date_check_passes_root_and_ordered_commits() {
    let (state, _) = start_dates("root");
    let (_, step) = after_show(state, "").unwrap();
    assert!(matches!(step, DateStep::Verdict(None)));

    let (state, _) = start_dates("c2");
    let (state, _) = after_show(state, "p1").unwrap();
    let (state, _) = after_show(state, "10").unwrap();
    let (_, step) = after_show(state, "11 12").unwrap();
    assert!(matches!(step, DateStep::Verdict(None)));
}

#[test]
fn date_check_rejects_a_bad_parent_timestamp() {
    let (state, _) = start_dates("c3");
    let (state, _) = after_show(state, "p1").unwrap();
    let error = after_show(state, "soon").unwrap_err();
    assert_eq!(error.exit_code(), 4);
    assert!(error.render().starts_with("invalid input: invalid parent timestamp"), "{}", error.render());
}
