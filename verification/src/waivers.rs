//! Recorded exceptions to the assertion lints: each waiver pins one known
//! assertion by its crate, file, line, receiver, method and source text.
use vstd::prelude::*;

use crate::text::{chars_of, is_lit};

verus! {

/// One assertion the lint met, in repository-relative terms.
#[derive(Clone, Debug, PartialEq, Eq)]
pub struct AssertionHit {
    pub line: usize,
    pub method: String,
    pub path: String,
    pub receiver: String,
    pub snippet: String,
}

/// One waived assertion.
#[derive(Clone, Copy, Debug, PartialEq, Eq)]
pub struct AssertionWaiver {
    pub crate_name: &'static str,
    pub line: usize,
    pub method: &'static str,
    pub path: &'static str,
    pub receiver: &'static str,
    pub snippet: &'static str,
}

/// Whether a hit is covered by a waiver.
#[derive(Clone, Copy, Debug, PartialEq, Eq)]
pub enum WaiverStatus {
    Suppressed,
    Unwaived,
}

/// The hit is exactly the waived assertion.
pub open spec fn hit_matches(hit: AssertionHit, waiver: AssertionWaiver) -> bool {
    &&& hit.path@ == waiver.path@
    &&& hit.line == waiver.line
    &&& hit.receiver@ == waiver.receiver@
    &&& hit.method@ == waiver.method@
    &&& hit.snippet@ == waiver.snippet@
}

/// Whether the text of `s` equals the text of `t`.
fn same_text(s: &String, t: &str) -> (r: bool)
    ensures
        r == (s@ == t@),
{
    let c = chars_of(s.as_str());
    is_lit(c.as_slice(), t)
}

impl AssertionHit {
    /// Records one assertion.
    pub fn new(path: &str, line: usize, receiver: &str, method: &str, snippet: &str) -> (r: Self)
        ensures
            r.path@ == path@,
            r.line == line,
            r.receiver@ == receiver@,
            r.method@ == method@,
            r.snippet@ == snippet@,
    {
        AssertionHit {
            line,
            method: method.to_owned(),
            path: path.to_owned(),
            receiver: receiver.to_owned(),
            snippet: snippet.to_owned(),
        }
    }

    /// Whether this hit is exactly the waived assertion.
    pub fn matches_waiver(&self, waiver: AssertionWaiver) -> (r: bool)
        ensures
            r == hit_matches(*self, waiver),
    {
        same_text(&self.path, waiver.path) && self.line == waiver.line && same_text(
            &self.receiver,
            waiver.receiver,
        ) && same_text(&self.method, waiver.method) && same_text(&self.snippet, waiver.snippet)
    }
}

/// One `is_none` waiver on `output.next().await` in the bash tool adapter.
pub open spec fn adapter_is_none_waiver(line: usize) -> AssertionWaiver {
    AssertionWaiver {
        crate_name: "symbiote_tool_bash",
        line: line,
        method: "is_none",
        path: "crates/symbiote-tool-bash/src/adapter.rs",
        receiver: "output.next().await",
        snippet: "output.next().await.is_none()",
    }
}

/// The waived assertions.
pub open spec fn assertion_waivers() -> Seq<AssertionWaiver> {
    seq![
        adapter_is_none_waiver(839),
        AssertionWaiver {
            crate_name: "symbiote_tool_bash",
            line: 1413,
            method: "is_err",
            path: "crates/symbiote-tool-bash/src/adapter.rs",
            receiver: "terminal_before_second",
            snippet: "terminal_before_second.is_err()",
        },
        adapter_is_none_waiver(1448),
        adapter_is_none_waiver(1466),
        adapter_is_none_waiver(1601),
        adapter_is_none_waiver(1649),
        adapter_is_none_waiver(1693),
        adapter_is_none_waiver(1740),
        adapter_is_none_waiver(1797),
    ]
}

/// One `is_none` waiver on `output.next().await` in the bash tool adapter.
fn adapter_is_none(line: usize) -> (r: AssertionWaiver)
    ensures
        r == adapter_is_none_waiver(line),
{
    AssertionWaiver {
        crate_name: "symbiote_tool_bash",
        line,
        method: "is_none",
        path: "crates/symbiote-tool-bash/src/adapter.rs",
        receiver: "output.next().await",
        snippet: "output.next().await.is_none()",
    }
}

/// The waived assertions.
pub fn tag_only_assertion_waivers() -> (r: Vec<AssertionWaiver>)
    ensures
        r@ == assertion_waivers(),
{
    let r = vec![
        adapter_is_none(839),
        AssertionWaiver {
            crate_name: "symbiote_tool_bash",
            line: 1413,
            method: "is_err",
            path: "crates/symbiote-tool-bash/src/adapter.rs",
            receiver: "terminal_before_second",
            snippet: "terminal_before_second.is_err()",
        },
        adapter_is_none(1448),
        adapter_is_none(1466),
        adapter_is_none(1601),
        adapter_is_none(1649),
        adapter_is_none(1693),
        adapter_is_none(1740),
        adapter_is_none(1797),
    ];
    assert(r@ =~= assertion_waivers());
    r
}

/// A hit is suppressed exactly when some waiver matches it.
pub open spec fn status_of(hit: AssertionHit) -> WaiverStatus {
    if exists|i: int| 0 <= i < assertion_waivers().len() && #[trigger] hit_matches(
        hit,
        assertion_waivers()[i],
    ) {
        WaiverStatus::Suppressed
    } else {
        WaiverStatus::Unwaived
    }
}

/// Whether a waiver covers the hit.
pub fn waiver_status(hit: &AssertionHit) -> (r: WaiverStatus)
    ensures
        r == status_of(*hit),
{
    let waivers = tag_only_assertion_waivers();
    let mut k: usize = 0;
    while k < waivers.len()
        invariant
            waivers@ == assertion_waivers(),
            k <= waivers@.len(),
            forall|i: int| 0 <= i < k ==> !#[trigger] hit_matches(*hit, assertion_waivers()[i]),
        decreases waivers@.len() - k,
    {
        if hit.matches_waiver(waivers[k]) {
            return WaiverStatus::Suppressed;
        }
        k = k + 1;
    }
    WaiverStatus::Unwaived
}

/// A waiver of `crate_name` that no observed hit matched.
pub open spec fn is_stale(waiver: AssertionWaiver, crate_name: Seq<char>, observed: Seq<AssertionHit>) -> bool {
    waiver.crate_name@ == crate_name && !exists|i: int|
        0 <= i < observed.len() && #[trigger] hit_matches(observed[i], waiver)
}

/// Whether some observed hit matches the waiver.
fn observed_matches(observed: &[AssertionHit], waiver: AssertionWaiver) -> (r: bool)
    ensures
        r == exists|i: int| 0 <= i < observed@.len() && #[trigger] hit_matches(observed@[i], waiver),
{
    let mut k: usize = 0;
    while k < observed.len()
        invariant
            k <= observed@.len(),
            forall|i: int| 0 <= i < k ==> !#[trigger] hit_matches(observed@[i], waiver),
        decreases observed@.len() - k,
    {
        if observed[k].matches_waiver(waiver) {
            return true;
        }
        k = k + 1;
    }
    false
}

/// The waivers of `crate_name` that no observed hit used, in waiver order.
pub fn stale_waivers(crate_name: &str, observed: &[AssertionHit]) -> (r: Vec<AssertionWaiver>)
    ensures
        r@ == assertion_waivers().filter(|w: AssertionWaiver| is_stale(w, crate_name@, observed@)),
{
    let waivers = tag_only_assertion_waivers();
    let ghost pred = |w: AssertionWaiver| is_stale(w, crate_name@, observed@);
    let mut out: Vec<AssertionWaiver> = Vec::new();
    let mut k: usize = 0;
    while k < waivers.len()
        invariant
            waivers@ == assertion_waivers(),
            k <= waivers@.len(),
            pred == (|w: AssertionWaiver| is_stale(w, crate_name@, observed@)),
            out@ == waivers@.subrange(0, k as int).filter(pred),
        decreases waivers@.len() - k,
    {
        let waiver = waivers[k];
        let c = chars_of(waiver.crate_name);
        let stale = is_lit(c.as_slice(), crate_name) && !observed_matches(observed, waiver);
        proof {
            reveal(Seq::filter);
            let s1 = waivers@.subrange(0, k + 1);
            assert(s1.drop_last() =~= waivers@.subrange(0, k as int));
            assert(s1.last() == waiver);
            assert(stale == pred(waiver));
            assert(s1.filter(pred) == (if pred(s1.last()) {
                s1.drop_last().filter(pred).push(s1.last())
            } else {
                s1.drop_last().filter(pred)
            }));
        }
        if stale {
            out.push(waiver);
        }
        k = k + 1;
    }
    assert(waivers@.subrange(0, waivers@.len() as int) =~= waivers@);
    proof {
        reveal(Seq::filter);
        assert(waivers@.subrange(0, 0).filter(pred) =~= Seq::<AssertionWaiver>::empty());
    }
    out
}

/// A waiver that an observed hit matched is never reported stale, whatever
/// the crate: `stale_waivers` only lists waivers no observed hit used.
pub proof fn used_waiver_is_not_stale(
    crate_name: Seq<char>,
    observed: Seq<AssertionHit>,
    i: int,
    waiver: AssertionWaiver,
)
    requires
        0 <= i < observed.len(),
        hit_matches(observed[i], waiver),
    ensures
        !assertion_waivers().filter(|w: AssertionWaiver| is_stale(w, crate_name, observed)).contains(
            waiver,
        ),
{
    let pred = |w: AssertionWaiver| is_stale(w, crate_name, observed);
    let f = assertion_waivers().filter(pred);
    if f.contains(waiver) {
        let j = choose|j: int| 0 <= j < f.len() && f[j] == waiver;
        assertion_waivers().lemma_filter_pred(pred, j);
        assert(hit_matches(observed[i], waiver));
    }
}

/// Keeping what a narrower predicate accepts keeps the same items whether
/// or not the wider one filtered first.
proof fn lemma_filter_narrower<A>(s: Seq<A>, wide: spec_fn(A) -> bool, narrow: spec_fn(A) -> bool)
    requires
        forall|x: A| #[trigger] narrow(x) ==> wide(x),
    ensures
        s.filter(narrow) == s.filter(wide).filter(narrow),
    decreases s.len(),
{
    reveal(Seq::filter);
    if s.len() == 0 {
        assert(s.filter(wide) =~= Seq::<A>::empty());
        assert(s.filter(narrow) =~= Seq::<A>::empty());
        assert(s.filter(wide).filter(narrow) =~= Seq::<A>::empty());
    } else {
        lemma_filter_narrower(s.drop_last(), wide, narrow);
        let fw = s.filter(wide);
        if wide(s.last()) {
            assert(fw.drop_last() =~= s.drop_last().filter(wide));
            assert(fw.last() == s.last());
        }
    }
}

/// Observing more hits never makes a waiver stale: when every hit of
/// `observed1` is among `observed2`, the waivers stale after `observed2`
/// are those stale after `observed1` that no hit of `observed2` used, in
/// the same order.
pub proof fn stale_waivers_never_grow(
    crate_name: Seq<char>,
    observed1: Seq<AssertionHit>,
    observed2: Seq<AssertionHit>,
)
    requires
        forall|i: int| 0 <= i < observed1.len() ==> observed2.contains(#[trigger] observed1[i]),
    ensures
        assertion_waivers().filter(|w: AssertionWaiver| is_stale(w, crate_name, observed2))
            == assertion_waivers().filter(
            |w: AssertionWaiver| is_stale(w, crate_name, observed1),
        ).filter(|w: AssertionWaiver| is_stale(w, crate_name, observed2)),
{
    let wide = |w: AssertionWaiver| is_stale(w, crate_name, observed1);
    let narrow = |w: AssertionWaiver| is_stale(w, crate_name, observed2);
    assert forall|w: AssertionWaiver| #[trigger] narrow(w) implies wide(w) by {
        if exists|i: int| 0 <= i < observed1.len() && #[trigger] hit_matches(observed1[i], w) {
            let i = choose|i: int| 0 <= i < observed1.len() && #[trigger] hit_matches(observed1[i], w);
            let j = choose|j: int| 0 <= j < observed2.len() && observed2[j] == observed1[i];
            assert(hit_matches(observed2[j], w));
        }
    }
    lemma_filter_narrower(assertion_waivers(), wide, narrow);
}

/// With no hits observed, every waiver of the crate is stale.
pub proof fn no_hits_leave_every_waiver_stale(crate_name: Seq<char>)
    ensures
        assertion_waivers().filter(|w: AssertionWaiver| is_stale(w, crate_name, Seq::empty()))
            == assertion_waivers().filter(|w: AssertionWaiver| w.crate_name@ == crate_name),
{
    let p1 = |w: AssertionWaiver| is_stale(w, crate_name, Seq::<AssertionHit>::empty());
    let p2 = |w: AssertionWaiver| w.crate_name@ == crate_name;
    assert(p1 =~= p2);
}

} // verus!
