//! Which commits `check-messages` walks, how it reads a message back from
//! `git show`, and which commits it reports.
use vstd::prelude::*;

use crate::error::{SkillError, decimal, invalid, is_invalid_input, push_text};
use crate::git_review::message::{MessageArgs, Verb, atomic_subject, has_atomic_subject,
    has_valid_action_lines, subject_line, verb_text,
    has_valid_format, valid_action_lines, valid_format};
use crate::git_review::base_ref::owned;
use crate::git_review::dates::show_args;
use crate::git_review::targets::{range_revision, range_text, string_texts};
use crate::text::{chars_of, copy_range, first_index_of, lemma_first_index_of, lemma_trim_end,
    lines, strip_cr, trim, trim_end, trim_start,
    lemma_first_index_of_unique, string_of};

verus! {

/// The request of `check-messages`.
pub struct CheckMessagesArgs {
    /// Walk all history reachable from one ref.
    pub root: bool,
    /// The base of the range (or, with `root`, the one ref).
    pub base_ref: Option<String>,
    /// The branch end of the range.
    pub branch_ref: String,
    /// A file of commits to restrict the check to.
    pub commits_file: Option<String>,
    /// The repository.
    pub repo: String,
}

/// The reason given for two refs in root mode.
pub open spec fn two_root_refs() -> Seq<char> {
    "when --root is set, provide at most one ref (for example, --root HEAD)"@
}

/// The reason given for a range without a base.
pub open spec fn missing_base() -> Seq<char> {
    "BASE_REF is required unless --root is provided"@
}

/// The revision `git rev-list` walks for a request: in root mode the one
/// ref given (the positional ref when the branch is left at `HEAD`, else
/// the branch), otherwise `base..branch`.
pub open spec fn revision_of(root: bool, base_ref: Option<Seq<char>>, branch_ref: Seq<char>) -> Result<
    Seq<char>,
    Seq<char>,
> {
    if root {
        match base_ref {
            Some(value) => if branch_ref == "HEAD"@ {
                Ok(value)
            } else {
                Err(two_root_refs())
            },
            None => Ok(branch_ref),
        }
    } else {
        match base_ref {
            Some(base) => Ok(range_text(base, branch_ref)),
            None => Err(missing_base()),
        }
    }
}

impl CheckMessagesArgs {
    /// The base ref's text, if any.
    pub open spec fn base_text(&self) -> Option<Seq<char>> {
        match self.base_ref {
            Some(b) => Some(b@),
            None => None,
        }
    }
}

/// The revision argument for `git rev-list --reverse --topo-order`, or the
/// invalid-input error for refs that do not make a request.
pub fn revisions(args: &CheckMessagesArgs) -> (r: Result<String, SkillError>)
    ensures
        r is Ok == revision_of(args.root, args.base_text(), args.branch_ref@) is Ok,
        r matches Ok(rev) ==> revision_of(args.root, args.base_text(), args.branch_ref@) == Ok::<
            Seq<char>,
            Seq<char>,
        >(rev@),
        r matches Err(e) ==> (revision_of(args.root, args.base_text(), args.branch_ref@) matches Err(
            m,
        ) && is_invalid_input(e, m)),
{
    let branch = chars_of(args.branch_ref.as_str());
    if args.root {
        match &args.base_ref {
            Some(value) => {
                if crate::text::is_lit(branch.as_slice(), "HEAD") {
                    let v = chars_of(value.as_str());
                    Ok(string_of(v.as_slice()))
                } else {
                    Err(
                        invalid(
                            "when --root is set, provide at most one ref (for example, --root HEAD)",
                        ),
                    )
                }
            },
            None => Ok(string_of(branch.as_slice())),
        }
    } else {
        match &args.base_ref {
            Some(base) => Ok(range_revision(base.as_str(), args.branch_ref.as_str())),
            None => Err(invalid("BASE_REF is required unless --root is provided")),
        }
    }
}

/// The reason given for `git show` output without the NUL separator.
pub open spec fn missing_separator() -> Seq<char> {
    "Git returned a message without a subject separator"@
}

/// Splits `%s%x00%B` output at its first NUL into the subject and the full
/// message.
pub fn parse_message(encoded: &str) -> (r: Result<(String, String), SkillError>)
    ensures
        r is Ok == first_index_of(encoded@, '\0') is Some,
        r matches Ok(pair) ==> (first_index_of(encoded@, '\0') matches Some(i) && pair.0@
            == encoded@.subrange(0, i) && pair.1@ == encoded@.subrange(i + 1, encoded@.len() as int)),
        r matches Err(e) ==> is_invalid_input(e, missing_separator()),
{
    let c = chars_of(encoded);
    let n = c.len();
    let mut i: usize = 0;
    while i < n && c[i] != '\0'
        invariant
            i <= n == c@.len(),
            c@ == encoded@,
            forall|k: int| 0 <= k < i ==> c@[k] != '\0',
        decreases n - i,
    {
        i = i + 1;
    }
    proof {
        lemma_first_index_of(encoded@, '\0');
    }
    if i == n {
        proof {
            if first_index_of(encoded@, '\0') is Some {
                let k = first_index_of(encoded@, '\0')->0;
                assert(encoded@[k] == '\0');
            }
        }
        return Err(invalid("Git returned a message without a subject separator"));
    }
    proof {
        lemma_first_index_of_unique(encoded@, '\0', i as int);
    }
    let subject = copy_range(c.as_slice(), 0, i);
    let message = copy_range(c.as_slice(), i + 1, n);
    Ok((string_of(subject.as_slice()), string_of(message.as_slice())))
}

/// A commit's message is in the Atomic Changes form: its subject, its body
/// lines and its format.
pub open spec fn message_valid(subject: Seq<char>, message: Seq<char>) -> bool {
    atomic_subject(subject) && valid_action_lines(message) && valid_format(message)
}

/// Whether a commit's subject and message are in the Atomic Changes form.
pub fn message_is_valid(subject: &str, message: &str) -> (r: bool)
    ensures
        r == message_valid(subject@, message@),
{
    has_atomic_subject(subject) && has_valid_action_lines(message) && has_valid_format(message)
}

/// A commit is checked when no selection was given or the selection names it.
pub open spec fn is_checked(targets: Option<Seq<Seq<char>>>, commit: Seq<char>) -> bool {
    match targets {
        Some(set) => set.contains(commit),
        None => true,
    }
}

/// Whether the commit is in the selection, if there is one.
pub fn commit_is_checked(targets: Option<&[String]>, commit: &str) -> (r: bool)
    ensures
        r == is_checked(
            match targets {
                Some(t) => Some(string_texts(t@)),
                None => None,
            },
            commit@,
        ),
{
    match targets {
        None => true,
        Some(set) => {
            let c = chars_of(commit);
            let ghost texts = string_texts(set@);
            let mut k: usize = 0;
            while k < set.len()
                invariant
                    k <= set@.len() == texts.len(),
                    texts == string_texts(set@),
                    targets matches Some(t) && t@ == set@,
                    c@ == commit@,
                    forall|i: int| 0 <= i < k ==> texts[i] != commit@,
                decreases set@.len() - k,
            {
                if crate::text::is_lit(c.as_slice(), set[k].as_str()) {
                    assert(texts[k as int] == commit@);
                    assert(texts.contains(commit@));
                    return true;
                }
                k = k + 1;
            }
            false
        },
    }
}

/// The report line for one invalid commit: `<SHA> <subject>`.
pub fn invalid_commit_line(commit: &str, subject: &str) -> (r: String)
    ensures
        r@ == commit@ + " "@ + subject@ + "\n"@,
{
    let mut out: Vec<char> = Vec::new();
    push_text(&mut out, commit);
    push_text(&mut out, " ");
    push_text(&mut out, subject);
    push_text(&mut out, "\n");
    string_of(out.as_slice())
}

/// The `git` arguments that print a commit's subject, a NUL, and its full
/// message.
pub fn message_show_args(commit: &str) -> (r: Vec<String>)
    ensures
        string_texts(r@) == show_args("--format=%s%x00%B"@, commit@),
{
    let r = owned(&["show", "-s", "--format=%s%x00%B", commit]);
    assert(string_texts(r@) =~= show_args("--format=%s%x00%B"@, commit@));
    r
}

/// The verdict on one commit from its `%s%x00%B` output: the report line
/// `<SHA> <subject>` when its message breaks the Atomic Changes form,
/// nothing when it keeps it, and an error when the output has no NUL.
pub fn message_verdict(commit: &str, output: &str) -> (r: Result<Option<String>, SkillError>)
    ensures
        r is Ok == first_index_of(output@, '\0') is Some,
        r matches Err(e) ==> is_invalid_input(e, missing_separator()),
        r matches Ok(line) ==> (first_index_of(output@, '\0') matches Some(i) && ({
            let subject = output@.subrange(0, i);
            let message = output@.subrange(i + 1, output@.len() as int);
            (line is None == message_valid(subject, message)) && (line matches Some(l) ==> l@
                == commit@ + " "@ + subject + "\n"@)
        })),
{
    let (subject, message) = parse_message(output)?;
    if message_is_valid(subject.as_str(), message.as_str()) {
        Ok(None)
    } else {
        Ok(Some(invalid_commit_line(commit, subject.as_str())))
    }
}

/// The reason given when some message is invalid.
pub open spec fn invalid_messages_reason() -> Seq<char> {
    "found commit messages that violate the Atomic Changes form"@
}

/// The command's result: success when no commit was reported.
pub fn messages_outcome(invalid_count: usize) -> (r: Result<(), SkillError>)
    ensures
        r is Ok == (invalid_count == 0),
        r matches Err(e) ==> is_invalid_input(e, invalid_messages_reason()),
{
    if invalid_count == 0 {
        Ok(())
    } else {
        Err(invalid("found commit messages that violate the Atomic Changes form"))
    }
}

/// What `git show --format=%s%x00%B` prints is read back as it was
/// written: a subject without NUL, the separator, then the message.
pub proof fn subject_and_message_read_back(subject: Seq<char>, message: Seq<char>)
    requires
        !subject.contains('\0'),
    ensures
        first_index_of(subject + seq!['\0'] + message, '\0') == Some(subject.len() as int),
        (subject + seq!['\0'] + message).subrange(0, subject.len() as int) == subject,
        (subject + seq!['\0'] + message).subrange(
            subject.len() as int + 1,
            (subject + seq!['\0'] + message).len() as int,
        ) == message,
{
    let encoded = subject + seq!['\0'] + message;
    assert forall|k: int| 0 <= k < subject.len() implies encoded[k] != '\0' by {
        assert(encoded[k] == subject[k]);
        if subject[k] == '\0' {
            assert(subject.contains('\0'));
        }
    }
    assert(encoded[subject.len() as int] == '\0');
    lemma_first_index_of_unique(encoded, '\0', subject.len() as int);
    assert(encoded.subrange(0, subject.len() as int) =~= subject);
    assert(encoded.subrange(subject.len() as int + 1, encoded.len() as int) =~= message);
}

/// No canonical verb contains a space.
proof fn lemma_verb_has_no_space(verb: Verb)
    ensures
        !verb_text(verb).contains(' '),
{
    reveal_strlit("Remove");
    reveal_strlit("Fix");
    reveal_strlit("Move");
    reveal_strlit("Rename");
    reveal_strlit("Refactor");
    reveal_strlit("Change");
    reveal_strlit("Add");
    reveal_strlit("Upgrade");
    reveal_strlit("Downgrade");
}

/// What `message` composes, `check-messages` accepts: when the arguments
/// render and their subject has no line break, the composed message's first
/// line is that subject, and the subject with the message pass every check
/// applied to a commit.
pub proof fn composed_message_passes_message_check(args: MessageArgs)
    requires
        args.accepted(),
        !subject_line(args.verb, args.summary@).contains('\n'),
    ensures
        lines(args.message()).len() > 0,
        lines(args.message())[0] == subject_line(args.verb, args.summary@),
        message_valid(lines(args.message())[0], args.message()),
{
    let subject = subject_line(args.verb, args.summary@);
    let v = verb_text(args.verb);
    let t = trim(args.summary@);
    let m = args.message();
    reveal_strlit(" ");
    reveal_strlit("\n\n");
    lemma_verb_has_no_space(args.verb);
    assert(subject =~= v + seq![' '] + t);
    assert forall|k: int| 0 <= k < v.len() implies subject[k] != ' ' by {
        assert(subject[k] == v[k]);
        if v[k] == ' ' {
            assert(v.contains(' '));
        }
    }
    assert(subject[v.len() as int] == ' ');
    lemma_first_index_of_unique(subject, ' ', v.len() as int);
    assert(subject.subrange(v.len() as int + 1, subject.len() as int) =~= t);
    lemma_trim_end(trim_start(args.summary@));
    assert(t.len() > 0) by {
        if t.len() == 0 {
            assert(crate::git_review::message::all_ws(t));
        }
    }
    assert(subject.last() == t.last());
    assert(strip_cr(subject) == subject);
    assert forall|k: int| 0 <= k < subject.len() implies m[k] != '\n' by {
        assert(m[k] == subject[k]);
        if subject[k] == '\n' {
            assert(subject.contains('\n'));
        }
    }
    if m.len() > subject.len() {
        assert(m[subject.len() as int] == '\n');
        lemma_first_index_of_unique(m, '\n', subject.len() as int);
        assert(m.subrange(0, subject.len() as int) =~= subject);
        assert(lines(m) == seq![strip_cr(subject)] + lines(m.subrange(subject.len() as int + 1, m.len() as int)));
    } else {
        assert(m =~= subject);
        lemma_first_index_of(m, '\n');
        if first_index_of(m, '\n') is Some {
            let k = first_index_of(m, '\n')->0;
            assert(m[k] == '\n');
        }
        assert(lines(m) == seq![m]);
    }
}

} // verus!
