//! Revision arguments and the selection of commits in range order.
use vstd::prelude::*;

use crate::error::{SkillError, is_invalid_input, push_text};
use crate::json::{JsonView, json_text, member_view, render_object, string_member};
use crate::git_review::target_file::{among_lines, comma_joined};
use crate::text::{chars_of, contains_lit, has_infix, lines, lines_of, string_of};

verus! {

/// The revision range from `base` to `branch`: `base..branch`.
pub open spec fn range_text(base: Seq<char>, branch: Seq<char>) -> Seq<char> {
    base + ".."@ + branch
}

/// The revision range `base..branch` that `git rev-list` walks.
pub fn range_revision(base_ref: &str, branch_ref: &str) -> (r: String)
    ensures
        r@ == range_text(base_ref@, branch_ref@),
{
    let mut out: Vec<char> = Vec::new();
    push_text(&mut out, base_ref);
    push_text(&mut out, "..");
    push_text(&mut out, branch_ref);
    string_of(out.as_slice())
}

/// The revisions one requested ref stands for: a range as written, or the
/// single commit `spec^..spec`.
pub open spec fn ref_text(spec: Seq<char>) -> Seq<char> {
    if has_infix(spec, ".."@) {
        spec
    } else {
        spec + "^.."@ + spec
    }
}

/// The revision argument for one requested ref.
pub fn ref_revision(spec: &str) -> (r: String)
    ensures
        r@ == ref_text(spec@),
{
    let c = chars_of(spec);
    if contains_lit(c.as_slice(), "..") {
        return spec.to_owned();
    }
    let mut out: Vec<char> = Vec::new();
    push_text(&mut out, spec);
    push_text(&mut out, "^..");
    push_text(&mut out, spec);
    string_of(out.as_slice())
}

/// The texts of some strings.
pub open spec fn string_texts(v: Seq<String>) -> Seq<Seq<char>> {
    Seq::new(v.len(), |i: int| v[i]@)
}

/// The requested refs that are not empty, in order.
pub open spec fn nonempty_refs(refs: Seq<Seq<char>>) -> Seq<Seq<char>> {
    refs.filter(|r: Seq<char>| r.len() > 0)
}

/// The refs that select commits; empty refs select nothing.
pub fn requested_refs(refs: &[String]) -> (r: Vec<String>)
    ensures
        string_texts(r@) == nonempty_refs(string_texts(refs@)),
{
    let ghost all = string_texts(refs@);
    let ghost keep = |r: Seq<char>| r.len() > 0;
    let mut out: Vec<String> = Vec::new();
    let mut k: usize = 0;
    while k < refs.len()
        invariant
            k <= refs@.len() == all.len(),
            all == string_texts(refs@),
            keep == (|r: Seq<char>| r.len() > 0),
            string_texts(out@) == all.subrange(0, k as int).filter(keep),
        decreases refs@.len() - k,
    {
        proof {
            reveal(Seq::filter);
            let s1 = all.subrange(0, k + 1);
            assert(s1.drop_last() =~= all.subrange(0, k as int));
            assert(s1.last() == refs@[k as int]@);
        }
        let text = chars_of(refs[k].as_str());
        if text.len() > 0 {
            let ghost before = out@;
            out.push(string_of(text.as_slice()));
            proof {
                assert(out@.last()@ == refs@[k as int]@);
                assert(string_texts(out@) =~= string_texts(before).push(refs@[k as int]@));
            }
        }
        k = k + 1;
    }
    assert(all.subrange(0, all.len() as int) =~= all);
    out
}

/// The lines of each text, concatenated.
pub open spec fn all_lines(texts: Seq<Seq<char>>) -> Seq<Seq<char>>
    decreases texts.len(),
{
    if texts.len() == 0 {
        Seq::empty()
    } else {
        all_lines(texts.drop_last()) + lines(texts.last())
    }
}

/// The commits a request selects: every commit of the range when no ref
/// was given, otherwise the commits each requested ref resolved to.
pub open spec fn requested_commits(refs_given: bool, commits: Seq<char>, resolved: Seq<Seq<char>>) -> Seq<
    Seq<char>,
> {
    if refs_given {
        all_lines(resolved)
    } else {
        lines(commits)
    }
}

/// The commits a request selects, given the range and what `git rev-list`
/// printed for each non-empty requested ref.
pub fn requested(refs_given: bool, commits: &str, resolved: &[String]) -> (r: Vec<String>)
    ensures
        string_texts(r@) == requested_commits(refs_given, commits@, string_texts(resolved@)),
{
    let mut out: Vec<String> = Vec::new();
    if !refs_given {
        let c = chars_of(commits);
        let ls = lines_of(c.as_slice());
        append_lines(&mut out, &ls);
        return out;
    }
    let ghost texts = string_texts(resolved@);
    let mut k: usize = 0;
    assert(texts.subrange(0, 0) =~= Seq::<Seq<char>>::empty());
    while k < resolved.len()
        invariant
            k <= resolved@.len() == texts.len(),
            texts == string_texts(resolved@),
            string_texts(out@) == all_lines(texts.subrange(0, k as int)),
        decreases resolved@.len() - k,
    {
        let c = chars_of(resolved[k].as_str());
        let ls = lines_of(c.as_slice());
        append_lines(&mut out, &ls);
        proof {
            let next = texts.subrange(0, k + 1);
            assert(next.drop_last() =~= texts.subrange(0, k as int));
            assert(next.last() == resolved@[k as int]@);
        }
        k = k + 1;
    }
    assert(texts.subrange(0, texts.len() as int) =~= texts);
    out
}

/// Appends each line as a `String`.
fn append_lines(out: &mut Vec<String>, ls: &Vec<Vec<char>>)
    ensures
        string_texts(final(out)@) == string_texts(old(out)@) + Seq::new(ls@.len(), |i: int| ls@[i]@),
{
    let ghost start = string_texts(out@);
    let ghost added = Seq::new(ls@.len(), |i: int| ls@[i]@);
    let mut k: usize = 0;
    while k < ls.len()
        invariant
            k <= ls@.len(),
            added == Seq::new(ls@.len(), |i: int| ls@[i]@),
            string_texts(out@) == start + added.subrange(0, k as int),
        decreases ls@.len() - k,
    {
        let ghost before = out@;
        out.push(string_of(ls[k].as_slice()));
        assert(string_texts(out@) =~= string_texts(before).push(ls@[k as int]@));
        assert(start + added.subrange(0, k + 1) =~= (start + added.subrange(0, k as int)).push(added[k as int]));
        k = k + 1;
    }
    assert(added.subrange(0, added.len() as int) =~= added);
}

/// The commits of the range, in range order, that were selected.
pub open spec fn selected_in_order(commits: Seq<char>, selected: Seq<Seq<char>>) -> Seq<Seq<char>> {
    lines(commits).filter(|c: Seq<char>| selected.contains(c))
}

/// Whether `commit` is among `selected`.
fn is_among(selected: &[String], commit: &[char]) -> (r: bool)
    ensures
        r == string_texts(selected@).contains(commit@),
{
    let ghost texts = string_texts(selected@);
    let mut k: usize = 0;
    while k < selected.len()
        invariant
            k <= selected@.len() == texts.len(),
            texts == string_texts(selected@),
            forall|i: int| 0 <= i < k ==> texts[i] != commit@,
        decreases selected@.len() - k,
    {
        if crate::text::is_lit(commit, selected[k].as_str()) {
            assert(texts[k as int] == commit@);
            return true;
        }
        k = k + 1;
    }
    false
}

/// The selected commits in the range's (dependency-safe) order.
pub fn select_commits(commits: &str, selected: &[String]) -> (r: Vec<String>)
    ensures
        string_texts(r@) == selected_in_order(commits@, string_texts(selected@)),
{
    let c = chars_of(commits);
    let ls = lines_of(c.as_slice());
    let ghost all = lines(commits@);
    let ghost sel = string_texts(selected@);
    let ghost keep = |x: Seq<char>| sel.contains(x);
    let mut out: Vec<String> = Vec::new();
    let mut k: usize = 0;
    while k < ls.len()
        invariant
            k <= ls@.len() == all.len(),
            all == lines(commits@),
            sel == string_texts(selected@),
            keep == (|x: Seq<char>| sel.contains(x)),
            forall|j: int| 0 <= j < ls@.len() ==> #[trigger] ls@[j]@ == all[j],
            string_texts(out@) == all.subrange(0, k as int).filter(keep),
        decreases ls@.len() - k,
    {
        proof {
            reveal(Seq::filter);
            let s1 = all.subrange(0, k + 1);
            assert(s1.drop_last() =~= all.subrange(0, k as int));
            assert(s1.last() == ls@[k as int]@);
        }
        if is_among(selected, ls[k].as_slice()) {
            let ghost before = out@;
            out.push(string_of(ls[k].as_slice()));
            assert(string_texts(out@) =~= string_texts(before).push(ls@[k as int]@));
        }
        k = k + 1;
    }
    assert(all.subrange(0, all.len() as int) =~= all);
    out
}

/// The requested commits that are not commits of the range, in the order
/// they were requested.
pub open spec fn outside_requested(commits: Seq<char>, requested: Seq<Seq<char>>) -> Seq<Seq<char>> {
    requested.filter(|x: Seq<char>| !lines(commits).contains(x))
}

/// The reason given for requested commits outside the range.
pub open spec fn requested_outside_reason(outside: Seq<Seq<char>>) -> Seq<char> {
    "requested commits are outside the review range: "@ + comma_joined(outside)
}

/// Rejects a request that names commits outside the review range: an
/// invalid-input error listing them, in request order; `Ok` when every
/// requested commit is a commit of the range.
pub fn requested_outside_range(commits: &str, requested: &[String]) -> (r: Result<(), SkillError>)
    ensures
        r is Ok <==> outside_requested(commits@, string_texts(requested@)).len() == 0,
        r matches Err(e) ==> is_invalid_input(
            e,
            requested_outside_reason(outside_requested(commits@, string_texts(requested@))),
        ),
{
    let c = chars_of(commits);
    let ls = lines_of(c.as_slice());
    proof {
        assert(Seq::new(ls@.len(), |i: int| ls@[i]@) =~= lines(commits@));
    }
    let ghost texts = string_texts(requested@);
    let ghost keep = |x: Seq<char>| !lines(commits@).contains(x);
    let mut msg: Vec<char> = Vec::new();
    push_text(&mut msg, "requested commits are outside the review range: ");
    let ghost head = msg@;
    let mut outside: usize = 0;
    let ghost mut found: Seq<Seq<char>> = Seq::empty();
    let mut k: usize = 0;
    while k < requested.len()
        invariant
            k <= requested@.len() == texts.len(),
            texts == string_texts(requested@),
            keep == (|x: Seq<char>| !lines(commits@).contains(x)),
            Seq::new(ls@.len(), |i: int| ls@[i]@) == lines(commits@),
            found == texts.subrange(0, k as int).filter(keep),
            outside == found.len(),
            msg@ == head + comma_joined(found),
        decreases requested@.len() - k,
    {
        proof {
            reveal(Seq::filter);
            let s1 = texts.subrange(0, k + 1);
            assert(s1.drop_last() =~= texts.subrange(0, k as int));
            assert(s1.last() == requested@[k as int]@);
        }
        let item = chars_of(requested[k].as_str());
        if !among_lines(&ls, item.as_slice()) {
            if outside > 0 {
                push_text(&mut msg, ", ");
            }
            push_text(&mut msg, requested[k].as_str());
            proof {
                let nf = found.push(item@);
                assert(nf.drop_last() =~= found);
                if found.len() == 0 {
                    assert(comma_joined(found) =~= Seq::<char>::empty());
                }
                assert(msg@ =~= head + comma_joined(nf));
                found = nf;
            }
            outside = outside + 1;
        }
        k = k + 1;
    }
    assert(texts.subrange(0, texts.len() as int) =~= texts);
    if outside > 0 {
        return Err(SkillError::InvalidInput { message: string_of(msg.as_slice()) });
    }
    Ok(())
}

/// Selection only narrows the range: every commit it yields is a commit of
/// the range that was selected.
pub proof fn selection_stays_in_range(commits: Seq<char>, selected: Seq<Seq<char>>, i: int)
    requires
        0 <= i < selected_in_order(commits, selected).len(),
    ensures
        lines(commits).contains(selected_in_order(commits, selected)[i]),
        selected.contains(selected_in_order(commits, selected)[i]),
{
    let pred = |c: Seq<char>| selected.contains(c);
    let f = lines(commits).filter(pred);
    lines(commits).lemma_filter_pred(pred, i);
    assert(f.contains(f[i]));
    lines(commits).lemma_filter_contains_rev(pred, f[i]);
}

/// Keeping what every element satisfies keeps everything.
proof fn lemma_filter_all<A>(s: Seq<A>, pred: spec_fn(A) -> bool)
    requires
        forall|i: int| 0 <= i < s.len() ==> pred(#[trigger] s[i]),
    ensures
        s.filter(pred) == s,
    decreases s.len(),
{
    reveal(Seq::filter);
    if s.len() > 0 {
        lemma_filter_all(s.drop_last(), pred);
        assert(pred(s[s.len() - 1]));
        assert(s.drop_last().push(s.last()) =~= s);
    } else {
        assert(s.filter(pred) =~= s);
    }
}

/// Without requested refs the whole range is selected, in range order:
/// selecting what `requested` yields for no refs gives back every commit of
/// the range.
pub proof fn default_selection_is_whole_range(commits: Seq<char>, resolved: Seq<Seq<char>>)
    ensures
        selected_in_order(commits, requested_commits(false, commits, resolved)) == lines(commits),
{
    let all = lines(commits);
    let pred = |c: Seq<char>| all.contains(c);
    assert forall|i: int| 0 <= i < all.len() implies pred(#[trigger] all[i]) by {
        assert(all.contains(all[i]));
    }
    lemma_filter_all(all, pred);
}

/// The JSON line `resolve-targets` prints for one commit:
/// `{"commit": <commit>}`.
pub fn commit_line(commit: &str) -> (r: String)
    ensures
        r@ == json_text(JsonView::Object(seq![("commit"@, JsonView::Str(commit@))])),
{
    let fields = vec![string_member("commit", commit)];
    let ghost members = Seq::new(1, |i: int| (fields@[i].0@, member_view(fields@[i].1)));
    assert(members =~= seq![("commit"@, JsonView::Str(commit@))]);
    render_object(fields.as_slice())
}

} // verus!
