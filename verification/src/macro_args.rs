//! Locating the argument list of an enclosing macro invocation and deciding
//! whether an expression is one whole top-level argument of it.
use vstd::prelude::*;

use crate::scan::{closer_of, is_closer, ignored_end, opens_any_target_macro, target_bytes,
    frames_follow_openers, lemma_step_follows, marks_frame, scan_step, DelimiterFrame, skip_ignored_source, is_any_target_macro_delimiter_open};
use crate::text::is_ascii_ws_byte;
use vstd::string::StringSliceAdditionalSpecFns;

verus! {

/// The scan state after the byte at `k` while looking for the content range
/// of the innermost target invocation around `bi`: frames as in
/// `scan_step`, and the range of the first target frame whose content holds
/// `bi` to be closed (inner frames close first), kept once recorded.
pub open spec fn range_step(
    b: Seq<u8>,
    k: int,
    bi: int,
    targets: Seq<Seq<u8>>,
    frames: Seq<DelimiterFrame>,
    found: Option<(int, int)>,
) -> (Seq<DelimiterFrame>, Option<(int, int)>) {
    match closer_of(b[k]) {
        Some(c) => (
            frames.push(
                DelimiterFrame {
                    close: c,
                    content_start: (k + 1) as usize,
                    is_target_macro: opens_any_target_macro(b, k, targets),
                },
            ),
            found,
        ),
        None => if is_closer(b[k]) && frames.len() > 0 && frames.last().close == b[k] {
            let f = frames.last();
            (
                frames.drop_last(),
                if found is None && f.is_target_macro && f.content_start <= bi && bi < k {
                    Some((f.content_start as int, k))
                } else {
                    found
                },
            )
        } else {
            (frames, found)
        },
    }
}

/// The content range recorded by scanning `b` from `k` to its end.
pub open spec fn range_scan(
    b: Seq<u8>,
    k: int,
    bi: int,
    targets: Seq<Seq<u8>>,
    frames: Seq<DelimiterFrame>,
    found: Option<(int, int)>,
) -> Option<(int, int)>
    decreases b.len() - k,
{
    if k < 0 || k >= b.len() {
        found
    } else {
        match ignored_end(b, k) {
            Some(n) => if k < n <= b.len() {
                range_scan(b, n, bi, targets, frames, found)
            } else {
                found
            },
            None => {
                let (f2, fd2) = range_step(b, k, bi, targets, frames, found);
                range_scan(b, k + 1, bi, targets, f2, fd2)
            },
        }
    }
}

/// The content range (after the opener, up to the closer) of the innermost
/// target invocation whose content holds `bi`: the first such invocation to
/// be closed.
pub open spec fn target_content_range(b: Seq<u8>, bi: int, targets: Seq<Seq<u8>>) -> Option<
    (int, int),
> {
    range_scan(b, 0, bi, targets, Seq::empty(), None)
}

/// A recorded range `(s, e)` starts just after an opener of a target
/// invocation, ends at a closer of that opener's kind, and holds `bi`.
pub open spec fn range_facts(
    b: Seq<u8>,
    bi: int,
    targets: Seq<Seq<u8>>,
    found: Option<(int, int)>,
) -> bool {
    found matches Some((s, e)) ==> 1 <= s <= bi < e < b.len() && closer_of(b[s - 1]) == Some(b[e])
        && opens_any_target_macro(b, s - 1, targets)
}

/// Scanning on keeps the recorded range's facts.
proof fn lemma_range_scan_facts(
    b: Seq<u8>,
    k: int,
    bi: int,
    targets: Seq<Seq<u8>>,
    frames: Seq<DelimiterFrame>,
    found: Option<(int, int)>,
)
    requires
        0 <= k <= b.len() <= usize::MAX,
        frames_follow_openers(b, frames, k, targets, false),
        range_facts(b, bi, targets, found),
    ensures
        range_facts(b, bi, targets, range_scan(b, k, bi, targets, frames, found)),
    decreases b.len() - k,
{
    if k < b.len() {
        match ignored_end(b, k) {
            Some(n) => if k < n <= b.len() {
                lemma_range_scan_facts(b, n, bi, targets, frames, found);
            },
            None => {
                let (f2, fd2) = range_step(b, k, bi, targets, frames, found);
                assert(f2 == scan_step(b, k, targets, false, frames));
                lemma_step_follows(b, k, targets, false, frames);
                if closer_of(b[k]) is None && is_closer(b[k]) && frames.len() > 0
                    && frames.last().close == b[k] {
                    let f = frames.last();
                    assert(frames[frames.len() - 1] == f);
                    assert(marks_frame(b, f.content_start - 1, targets, false)
                        == opens_any_target_macro(b, f.content_start - 1, targets));
                }
                lemma_range_scan_facts(b, k + 1, bi, targets, f2, fd2);
            },
        }
    }
}

/// The content range found for `bi` starts just after the opening
/// delimiter of a target invocation, ends at a closing delimiter of that
/// opener's kind (the one the scan matched it with), and holds `bi`.
pub proof fn target_content_range_facts(b: Seq<u8>, bi: int, targets: Seq<Seq<u8>>)
    requires
        b.len() <= usize::MAX,
    ensures
        range_facts(b, bi, targets, target_content_range(b, bi, targets)),
{
    lemma_range_scan_facts(b, 0, bi, targets, Seq::empty(), None);
}

/// Finds the content range of the innermost target invocation holding
/// `byte_index`.
pub fn target_macro_content_range(bytes: &[u8], byte_index: usize, targets: &[&str]) -> (r: Option<
    (usize, usize),
>)
    ensures
        r is Some == target_content_range(bytes@, byte_index as int, target_bytes(targets@)) is Some,
        r matches Some((s, e)) ==> target_content_range(
            bytes@,
            byte_index as int,
            target_bytes(targets@),
        ) == Some((s as int, e as int)) && s <= e <= bytes@.len(),
{
    let ghost ts = target_bytes(targets@);
    let mut frames: Vec<DelimiterFrame> = Vec::new();
    let mut found: Option<(usize, usize)> = None;
    let mut index: usize = 0;
    let n = bytes.len();
    while index < n
        invariant
            n == bytes@.len(),
            ts == target_bytes(targets@),
            index <= n,
            range_scan(
                bytes@,
                index as int,
                byte_index as int,
                ts,
                frames@,
                match found {
                    Some((s, e)) => Some((s as int, e as int)),
                    None => None,
                },
            ) == target_content_range(bytes@, byte_index as int, ts),
            forall|i: int| 0 <= i < frames@.len() ==> #[trigger] frames@[i].content_start <= index,
            found matches Some((s, e)) ==> s <= e <= n,
        decreases n - index,
    {
        match skip_ignored_source(bytes, index) {
            Some(next) => {
                index = next;
            },
            None => {
                let byte = bytes[index];
                if byte == 0x28u8 || byte == 0x5bu8 || byte == 0x7bu8 {
                    let close = if byte == 0x28u8 {
                        0x29u8
                    } else if byte == 0x5bu8 {
                        0x5du8
                    } else {
                        0x7du8
                    };
                    let marked = is_any_target_macro_delimiter_open(bytes, index, targets);
                    frames.push(
                        DelimiterFrame { close, content_start: index + 1, is_target_macro: marked },
                    );
                } else if (byte == 0x29u8 || byte == 0x5du8 || byte == 0x7du8) && frames.len() > 0
                    && frames[frames.len() - 1].close == byte {
                    let frame = frames.pop().unwrap();
                    if found.is_none() && frame.is_target_macro && frame.content_start
                        <= byte_index && byte_index < index {
                        found = Some((frame.content_start, index));
                    }
                }
                index = index + 1;
            },
        }
    }
    found
}

/// First position in `[k, end)` that is not ASCII whitespace, or `end`.
pub open spec fn ws_run_end(b: Seq<u8>, k: int, end: int) -> int
    decreases end - k,
{
    if k < end && 0 <= k < b.len() && is_ascii_ws_byte(b[k]) {
        ws_run_end(b, k + 1, end)
    } else {
        k
    }
}

/// Start of the whitespace run that ends at `k`, not going below `lo`.
pub open spec fn ws_run_back(b: Seq<u8>, k: int, lo: int) -> int
    decreases k - lo,
{
    if lo < k && 0 < k <= b.len() && is_ascii_ws_byte(b[k - 1]) {
        ws_run_back(b, k - 1, lo)
    } else {
        k
    }
}

/// The bytes of `true`.
pub open spec fn true_bytes() -> Seq<u8> {
    seq![0x74u8, 0x72u8, 0x75u8, 0x65u8]
}

/// The bytes of `false`.
pub open spec fn false_bytes() -> Seq<u8> {
    seq![0x66u8, 0x61u8, 0x6cu8, 0x73u8, 0x65u8]
}

/// The argument `b[start..end]`, trimmed of ASCII whitespace, starts at
/// `bi` and is exactly `true` or `false`.
pub open spec fn exact_bool_argument(b: Seq<u8>, start: int, end: int, bi: int) -> bool {
    let ts = ws_run_end(b, start, end);
    let te = if ts < end {
        ws_run_back(b, end, ts)
    } else {
        end
    };
    &&& ts == bi
    &&& ts <= te <= b.len()
    &&& (b.subrange(ts, te) == true_bytes() || b.subrange(ts, te) == false_bytes())
}

/// Whether `b[start..end]` trimmed starts at `byte_index` and is a
/// boolean literal.
pub fn is_exact_bool_argument(bytes: &[u8], start: usize, end: usize, byte_index: usize) -> (r: bool)
    requires
        start >= end || end <= bytes@.len(),
    ensures
        r == exact_bool_argument(bytes@, start as int, end as int, byte_index as int),
{
    let mut ts = start;
    while ts < end && crate::text::is_ascii_whitespace_byte(bytes[ts])
        invariant
            start >= end || end <= bytes@.len(),
            start <= ts,
            ts <= end || ts == start,
            ws_run_end(bytes@, ts as int, end as int) == ws_run_end(bytes@, start as int, end as int),
        decreases end - ts,
    {
        ts = ts + 1;
    }
    let mut te = end;
    if ts < end {
        while ts < te && crate::text::is_ascii_whitespace_byte(bytes[te - 1])
            invariant
                ts < end <= bytes@.len(),
                ts <= te <= end,
                ws_run_back(bytes@, te as int, ts as int) == ws_run_back(
                    bytes@,
                    end as int,
                    ts as int,
                ),
            decreases te,
        {
            te = te - 1;
        }
    }
    if ts != byte_index || ts > te || te > bytes.len() {
        return false;
    }
    let t = te - ts;
    let is_true = t == 4 && bytes[ts] == 0x74u8 && bytes[ts + 1] == 0x72u8 && bytes[ts + 2]
        == 0x75u8 && bytes[ts + 3] == 0x65u8;
    let is_false = t == 5 && bytes[ts] == 0x66u8 && bytes[ts + 1] == 0x61u8 && bytes[ts + 2]
        == 0x6cu8 && bytes[ts + 3] == 0x73u8 && bytes[ts + 4] == 0x65u8;
    proof {
        let w = bytes@.subrange(ts as int, te as int);
        assert(w.len() == t);
        if is_true {
            assert(w =~= true_bytes());
        }
        if is_false {
            assert(w =~= false_bytes());
        }
        if w == true_bytes() {
            assert(t == 4);
            assert(w[0] == bytes@[ts as int] && w[1] == bytes@[ts + 1] && w[2] == bytes@[ts + 2]
                && w[3] == bytes@[ts + 3]);
            assert(w[0] == 0x74u8 && w[1] == 0x72u8 && w[2] == 0x75u8 && w[3] == 0x65u8);
        }
        if w == false_bytes() {
            assert(t == 5);
            assert(w[0] == bytes@[ts as int] && w[1] == bytes@[ts + 1] && w[2] == bytes@[ts + 2]
                && w[3] == bytes@[ts + 3] && w[4] == bytes@[ts + 4]);
            assert(w[0] == 0x66u8 && w[1] == 0x61u8 && w[2] == 0x6cu8 && w[3] == 0x73u8 && w[4]
                == 0x65u8);
        }
    }
    is_true || is_false
}

/// Scanning the content `[.., ce)` from `k` with `depth` nested delimiters
/// and the current argument starting at `arg_start`: some comma-separated
/// top-level argument is exactly a boolean literal starting at `bi`.
pub open spec fn top_level_scan(
    b: Seq<u8>,
    k: int,
    cs: int,
    ce: int,
    bi: int,
    depth: nat,
    arg_start: int,
) -> bool
    decreases b.len() - k,
{
    if k < 0 || k >= ce || ce > b.len() {
        exact_bool_argument(b, arg_start, ce, bi)
    } else {
        match ignored_end(b, k) {
            Some(n) => if k < n <= b.len() {
                top_level_scan(b, n, cs, ce, bi, depth, arg_start)
            } else {
                false
            },
            None => if b[k] == 0x2cu8 && depth == 0 {
                exact_bool_argument(b, arg_start, k, bi) || top_level_scan(
                    b,
                    k + 1,
                    cs,
                    ce,
                    bi,
                    depth,
                    k + 1,
                )
            } else if closer_of(b[k]) is Some && k != cs {
                top_level_scan(b, k + 1, cs, ce, bi, depth + 1, arg_start)
            } else if is_closer(b[k]) && depth > 0 {
                top_level_scan(b, k + 1, cs, ce, bi, (depth - 1) as nat, arg_start)
            } else {
                top_level_scan(b, k + 1, cs, ce, bi, depth, arg_start)
            },
        }
    }
}

/// Whether some top-level argument in `bytes[content_start..content_end]`
/// is a boolean literal starting exactly at `byte_index`.
pub fn is_top_level_argument_byte(
    bytes: &[u8],
    content_start: usize,
    content_end: usize,
    byte_index: usize,
) -> (r: bool)
    requires
        content_start >= content_end || content_end <= bytes@.len(),
    ensures
        r == top_level_scan(
            bytes@,
            content_start as int,
            content_start as int,
            content_end as int,
            byte_index as int,
            0,
            content_start as int,
        ),
{
    let mut depth: usize = 0;
    let mut argument_start = content_start;
    let mut index = content_start;
    while index < content_end
        invariant
            content_start >= content_end || content_end <= bytes@.len(),
            content_start <= index,
            content_start <= argument_start,
            depth <= index,
            top_level_scan(
                bytes@,
                index as int,
                content_start as int,
                content_end as int,
                byte_index as int,
                depth as nat,
                argument_start as int,
            ) == top_level_scan(
                bytes@,
                content_start as int,
                content_start as int,
                content_end as int,
                byte_index as int,
                0,
                content_start as int,
            ),
        decreases bytes@.len() - index,
    {
        if let Some(next) = skip_ignored_source(bytes, index) {
            index = next;
            continue;
        }
        if bytes[index] == 0x2cu8 && depth == 0 {
            if is_exact_bool_argument(bytes, argument_start, index, byte_index) {
                return true;
            }
            argument_start = index + 1;
            index = index + 1;
            continue;
        }
        let byte = bytes[index];
        if (byte == 0x28u8 || byte == 0x5bu8 || byte == 0x7bu8) && index != content_start {
            depth = depth + 1;
        } else if (byte == 0x29u8 || byte == 0x5du8 || byte == 0x7du8) && depth > 0 {
            depth = depth - 1;
        }
        index = index + 1;
    }
    is_exact_bool_argument(bytes, argument_start, content_end, byte_index)
}

/// The expression at `bi` is a bare boolean literal passed as one whole
/// top-level argument of an invocation of one of `targets`.
pub open spec fn direct_target_macro_argument(b: Seq<u8>, bi: int, targets: Seq<Seq<u8>>) -> bool {
    match target_content_range(b, bi, targets) {
        Some((s, e)) => top_level_scan(b, s, s, e, bi, 0, s),
        None => false,
    }
}

/// Whether the boolean literal at `byte_index` is a whole top-level
/// argument of one of the `targets` macros.
pub fn is_direct_target_macro_argument_at(source: &str, byte_index: usize, targets: &[&str]) -> (r:
    bool)
    ensures
        r == direct_target_macro_argument(
            source.spec_bytes(),
            byte_index as int,
            target_bytes(targets@),
        ),
{
    let bytes = source.as_bytes();
    match target_macro_content_range(bytes, byte_index, targets) {
        Some((content_start, content_end)) => is_top_level_argument_byte(
            bytes,
            content_start,
            content_end,
            byte_index,
        ),
        None => false,
    }
}

} // verus!
