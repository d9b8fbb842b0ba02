//! What a finished `git` or `gh` process is turned into: its standard
//! output as text, or the command error that names it.
use vstd::prelude::*;
use vstd::utf8::{decode_utf8, valid_utf8};

use crate::error::{CommandOutcome, SkillError, outcome, push_text};
use crate::text::{chars_of, string_of, trim, trim_chars, trim_end, trim_end_index};

verus! {

/// The text `FromUtf8Error` displays for bytes that are not UTF-8.
pub uninterp spec fn utf8_error_text(bytes: Seq<u8>) -> Seq<char>;

/// Calls `String::from_utf8`. Its documentation promises `Ok` exactly for
/// valid UTF-8, holding the decoded text; the error's display text is named
/// `utf8_error_text` and not stated.
#[verifier::external_body]
fn string_from_utf8(bytes: Vec<u8>) -> (r: Result<String, String>)
    ensures
        r is Ok <==> valid_utf8(bytes@),
        r matches Ok(s) ==> s@ == decode_utf8(bytes@),
        r matches Err(m) ==> m@ == utf8_error_text(bytes@),
{
    match String::from_utf8(bytes) {
        Ok(text) => Ok(text),
        Err(error) => Err(error.to_string()),
    }
}

/// The text `String::from_utf8_lossy` makes of some bytes.
pub uninterp spec fn lossy_text(bytes: Seq<u8>) -> Seq<char>;

/// Calls `String::from_utf8_lossy`. Its result is named `lossy_text`; the
/// documentation promises that valid UTF-8 is decoded unchanged, which is
/// stated; how invalid sequences are replaced is not.
#[verifier::external_body]
fn string_from_utf8_lossy(bytes: &[u8]) -> (r: String)
    ensures
        r@ == lossy_text(bytes@),
        valid_utf8(bytes@) ==> r@ == decode_utf8(bytes@),
{
    String::from_utf8_lossy(bytes).into_owned()
}

/// Decodes a process's standard output, refusing malformed UTF-8 with an
/// I/O error.
pub fn decode_stdout(stdout: Vec<u8>) -> (r: Result<String, SkillError>)
    ensures
        r is Ok <==> valid_utf8(stdout@),
        r matches Ok(s) ==> s@ == decode_utf8(stdout@),
        r matches Err(e) ==> e matches SkillError::Io { message } && message@ == utf8_error_text(
            stdout@,
        ),
{
    match string_from_utf8(stdout) {
        Ok(text) => Ok(text),
        Err(message) => Err(SkillError::Io { message }),
    }
}

/// The standard output of a successful command: decoded, with trailing
/// whitespace removed.
pub fn command_output(stdout: Vec<u8>) -> (r: Result<String, SkillError>)
    ensures
        r is Ok <==> valid_utf8(stdout@),
        r matches Ok(s) ==> s@ == trim_end(decode_utf8(stdout@)),
        r matches Err(e) ==> e matches SkillError::Io { message } && message@ == utf8_error_text(
            stdout@,
        ),
{
    let ghost bytes = stdout@;
    let text = decode_stdout(stdout)?;
    let c = chars_of(text.as_str());
    let k = trim_end_index(c.as_slice());
    let kept = crate::text::copy_range(c.as_slice(), 0, k);
    assert(kept@ == trim_end(decode_utf8(bytes)));
    Ok(string_of(kept.as_slice()))
}

/// The words joined with single spaces, as `[&str]::join(" ")` does.
pub open spec fn joined(parts: Seq<Seq<char>>) -> Seq<char>
    decreases parts.len(),
{
    if parts.len() == 0 {
        Seq::empty()
    } else if parts.len() == 1 {
        parts[0]
    } else {
        joined(parts.drop_last()) + " "@ + parts.last()
    }
}

/// The texts of some string slices.
pub open spec fn str_texts(parts: Seq<&str>) -> Seq<Seq<char>> {
    Seq::new(parts.len(), |i: int| parts[i]@)
}

/// The name a failed command is reported under: the program and its
/// arguments, then `: ` and the trimmed standard error when there is any.
pub open spec fn failed_command_text(program: Seq<char>, args: Seq<Seq<char>>, stderr: Seq<char>) -> Seq<
    char,
> {
    let base = program + " "@ + joined(args);
    if trim(stderr).len() == 0 {
        base
    } else {
        base + ": "@ + trim(stderr)
    }
}

/// The error for a command that ran and failed: it names the command, with
/// its standard error (decoded leniently), and how the process ended.
pub fn command_failure(program: &str, args: &[&str], stderr: &[u8], code: Option<i32>) -> (r: SkillError)
    ensures
        r matches SkillError::Command { command, outcome } && command@ == failed_command_text(
            program@,
            str_texts(args@),
            lossy_text(stderr@),
        ) && outcome == (match code {
            Some(c) => CommandOutcome::Exited(c),
            None => CommandOutcome::Signaled,
        }),
{
    let mut out: Vec<char> = Vec::new();
    push_text(&mut out, program);
    push_text(&mut out, " ");
    let ghost texts = str_texts(args@);
    let ghost head = out@;
    let mut k: usize = 0;
    assert(texts.subrange(0, 0) =~= Seq::<Seq<char>>::empty());
    assert(out@ =~= head + joined(texts.subrange(0, 0)));
    while k < args.len()
        invariant
            k <= args@.len() == texts.len(),
            texts == str_texts(args@),
            out@ == head + joined(texts.subrange(0, k as int)),
        decreases args@.len() - k,
    {
        let ghost before = out@;
        if k > 0 {
            push_text(&mut out, " ");
        }
        push_text(&mut out, args[k]);
        proof {
            let next = texts.subrange(0, k + 1);
            assert(next.drop_last() =~= texts.subrange(0, k as int));
            assert(next.last() == args@[k as int]@);
            if k == 0 {
                assert(joined(next) == args@[0]@);
                assert(joined(texts.subrange(0, 0)) == Seq::<char>::empty());
                assert(out@ =~= head + joined(next));
            } else {
                assert(out@ =~= head + joined(next));
            }
        }
        k = k + 1;
    }
    assert(texts.subrange(0, texts.len() as int) =~= texts);
    let err = string_from_utf8_lossy(stderr);
    let e = chars_of(err.as_str());
    let e = trim_chars(e.as_slice());
    if e.len() > 0 {
        push_text(&mut out, ": ");
        let mut j: usize = 0;
        let ghost start = out@;
        while j < e.len()
            invariant
                j <= e@.len(),
                out@ == start + e@.subrange(0, j as int),
            decreases e@.len() - j,
        {
            out.push(e[j]);
            assert(start + e@.subrange(0, j + 1) =~= (start + e@.subrange(0, j as int)).push(e@[j as int]));
            j = j + 1;
        }
        assert(e@.subrange(0, e@.len() as int) =~= e@);
    }
    assert(out@ =~= failed_command_text(program@, texts, lossy_text(stderr@)));
    let command = string_of(out.as_slice());
    SkillError::Command { command, outcome: outcome(code) }
}

} // verus!
