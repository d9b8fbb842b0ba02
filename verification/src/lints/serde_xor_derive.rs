//! Deny public serde derive asymmetry without an explicit no-serde comment.
use vstd::prelude::*;

use crate::text::{after_last_path_sep, after_last_path_separator, chars_of, ends_with_lit,
    has_prefix, has_suffix, is_lit, lines, lines_of, split_chars, split_on, starts_with_lit, trim,
    trim_chars, trim_start, trim_start_chars, copy_range, chars_match_at};

verus! {

/// Which serde derives an item carries.
#[derive(Clone, Copy, Debug, PartialEq, Eq)]
pub struct SerdeDerives {
    pub deserialize: bool,
    pub serialize: bool,
}

impl SerdeDerives {
    /// The justification comment an asymmetric derive needs: `no-deserialize`
    /// when only `Serialize` is derived, `no-serialize` when only
    /// `Deserialize` is; `None` when the derives are balanced.
    pub fn missing_side(self) -> (r: Option<&'static str>)
        ensures
            r is Some == (self.serialize != self.deserialize),
            r matches Some(t) ==> t@ == (if self.serialize {
                "no-deserialize"@
            } else {
                "no-serialize"@
            }),
    {
        if self.serialize && !self.deserialize {
            Some("no-deserialize")
        } else if !self.serialize && self.deserialize {
            Some("no-serialize")
        } else {
            None
        }
    }
}

/// Item text that starts with `pub struct ` or `pub enum `.
pub open spec fn public_item_snippet(snippet: Seq<char>) -> bool {
    let t = trim_start(snippet);
    has_prefix(t, "pub struct "@) || has_prefix(t, "pub enum "@)
}

/// Returns true if the item's source text declares a public struct or enum.
pub fn is_public_item_snippet(snippet: &str) -> (r: bool)
    ensures
        r == public_item_snippet(snippet@),
{
    let c = chars_of(snippet);
    let t = trim_start_chars(c.as_slice());
    starts_with_lit(t.as_slice(), "pub struct ") || starts_with_lit(t.as_slice(), "pub enum ")
}

/// A line that may sit between an item and its attributes: blank, an
/// attribute, or a comment.
pub open spec fn item_prefix_line(line: Seq<char>) -> bool {
    let t = trim_start(line);
    t.len() == 0 || has_prefix(t, "#["@) || has_prefix(t, "///"@) || has_prefix(t, "//"@)
}

/// Returns true if the line belongs to the attribute and comment block above
/// an item.
pub fn is_item_prefix_line(line: &[char]) -> (r: bool)
    ensures
        r == item_prefix_line(line@),
{
    let t = trim_start_chars(line);
    t.len() == 0 || starts_with_lit(t.as_slice(), "#[") || starts_with_lit(t.as_slice(), "///")
        || starts_with_lit(t.as_slice(), "//")
}

/// Start of the run of prefix lines that ends at `k`.
pub open spec fn prefix_block_start(ls: Seq<Seq<char>>, k: int) -> int
    decreases k,
{
    if 0 < k <= ls.len() && item_prefix_line(ls[k - 1]) {
        prefix_block_start(ls, k - 1)
    } else {
        k
    }
}

/// The attribute block starts at or before the line it ends at.
pub proof fn lemma_prefix_block_start(ls: Seq<Seq<char>>, k: int)
    requires
        0 <= k <= ls.len(),
    ensures
        0 <= prefix_block_start(ls, k) <= k,
    decreases k,
{
    if 0 < k && item_prefix_line(ls[k - 1]) {
        lemma_prefix_block_start(ls, k - 1);
    }
}

/// The first line of the attribute block that ends `source`.
pub open spec fn attribute_block_start(source: Seq<char>) -> int {
    prefix_block_start(lines(source), lines(source).len() as int)
}

/// The contents of `#[derive(...)]` on a line.
pub open spec fn derive_payload(line: Seq<char>) -> Option<Seq<char>> {
    let t = trim(line);
    if has_prefix(t, "#[derive("@) && has_suffix(t.subrange(9, t.len() as int), ")]"@) {
        Some(t.subrange(9, t.len() - 2))
    } else {
        None
    }
}

/// Returns the contents of a `#[derive(...)]` line.
pub fn derive_attribute_payload(line: &[char]) -> (r: Option<Vec<char>>)
    ensures
        r is Some == derive_payload(line@) is Some,
        r matches Some(p) ==> derive_payload(line@) == Some(p@),
{
    proof {
        reveal_strlit("#[derive(");
        reveal_strlit(")]");
    }
    let t = trim_chars(line);
    if !starts_with_lit(t.as_slice(), "#[derive(") {
        return None;
    }
    let rest = copy_range(t.as_slice(), 9, t.len());
    if !ends_with_lit(rest.as_slice(), ")]") {
        return None;
    }
    Some(copy_range(t.as_slice(), 9, t.len() - 2))
}

/// A derive list names `name`, bare or by a path ending in it.
pub open spec fn names_derive(payload: Seq<char>, name: Seq<char>) -> bool {
    let pieces = split_on(payload, ',');
    exists|k: int| 0 <= k < pieces.len() && #[trigger] after_last_path_sep(trim(pieces[k])) == name
}

/// Returns true if the derive list names `name`.
pub fn has_derive_name(payload: &[char], name: &str) -> (r: bool)
    ensures
        r == names_derive(payload@, name@),
{
    let pieces = split_chars(payload, ',');
    let ghost sp = split_on(payload@, ',');
    let mut k: usize = 0;
    while k < pieces.len()
        invariant
            k <= pieces@.len(),
            sp == split_on(payload@, ','),
            pieces@.len() == sp.len(),
            forall|i: int| 0 <= i < pieces@.len() ==> #[trigger] pieces@[i]@ == sp[i],
            forall|i: int| 0 <= i < k ==> #[trigger] after_last_path_sep(trim(sp[i])) != name@,
        decreases pieces@.len() - k,
    {
        let segment = trim_chars(pieces[k].as_slice());
        let last = after_last_path_separator(segment.as_slice());
        if is_lit(last.as_slice(), name) {
            assert(after_last_path_sep(trim(sp[k as int])) == name@);
            return true;
        }
        k = k + 1;
    }
    false
}

/// Some line of the attribute block ending `source` derives `name`.
pub open spec fn block_derives(source: Seq<char>, name: Seq<char>) -> bool {
    let ls = lines(source);
    exists|j: int|
        attribute_block_start(source) <= j < ls.len() && (#[trigger] derive_payload(ls[j]) matches Some(
            p,
        ) && names_derive(p, name))
}

/// The serde derives in the attribute block that ends `source`.
pub open spec fn serde_derives_of(source: Seq<char>) -> SerdeDerives {
    SerdeDerives {
        deserialize: block_derives(source, "Deserialize"@),
        serialize: block_derives(source, "Serialize"@),
    }
}

/// Index of the first line of the attribute block ending `ls`.
fn attribute_block_start_of(ls: &Vec<Vec<char>>, ghost_lines: Ghost<Seq<Seq<char>>>) -> (r: usize)
    requires
        ls@.len() == ghost_lines@.len(),
        forall|i: int| 0 <= i < ls@.len() ==> #[trigger] ls@[i]@ == ghost_lines@[i],
    ensures
        r == prefix_block_start(ghost_lines@, ghost_lines@.len() as int),
        r <= ls@.len(),
{
    let mut k = ls.len();
    proof {
        lemma_prefix_block_start(ghost_lines@, k as int);
    }
    while k > 0 && is_item_prefix_line(ls[k - 1].as_slice())
        invariant
            k <= ls@.len(),
            ls@.len() == ghost_lines@.len(),
            forall|i: int| 0 <= i < ls@.len() ==> #[trigger] ls@[i]@ == ghost_lines@[i],
            prefix_block_start(ghost_lines@, k as int) == prefix_block_start(
                ghost_lines@,
                ghost_lines@.len() as int,
            ),
        decreases k,
    {
        k = k - 1;
    }
    k
}

/// Whether some line of the attribute block derives `name`.
fn block_derives_name(source: &str, name: &str) -> (r: bool)
    ensures
        r == block_derives(source@, name@),
{
    let c = chars_of(source);
    let ls = lines_of(c.as_slice());
    let ghost gl = lines(source@);
    let start = attribute_block_start_of(&ls, Ghost(gl));
    let mut j = start;
    while j < ls.len()
        invariant
            start <= j <= ls@.len(),
            gl == lines(source@),
            start == attribute_block_start(source@),
            ls@.len() == gl.len(),
            forall|i: int| 0 <= i < ls@.len() ==> #[trigger] ls@[i]@ == gl[i],
            forall|i: int|
                start <= i < j ==> !(#[trigger] derive_payload(gl[i]) matches Some(p) && names_derive(
                    p,
                    name@,
                )),
        decreases ls@.len() - j,
    {
        if let Some(payload) = derive_attribute_payload(ls[j].as_slice()) {
            if has_derive_name(payload.as_slice(), name) {
                assert(derive_payload(gl[j as int]) matches Some(p) && names_derive(p, name@));
                return true;
            }
        }
        j = j + 1;
    }
    false
}

/// Reads the serde derives from the attribute block that ends `source`.
pub fn serde_derives(source: &str) -> (r: SerdeDerives)
    ensures
        r == serde_derives_of(source@),
{
    SerdeDerives {
        deserialize: block_derives_name(source, "Deserialize"),
        serialize: block_derives_name(source, "Serialize"),
    }
}

/// Some line of the attribute block ending `source` is a `// {missing}:`
/// comment.
pub open spec fn required_justification(source: Seq<char>, missing: Seq<char>) -> bool {
    let ls = lines(source);
    exists|j: int|
        attribute_block_start(source) <= j < ls.len() && has_prefix(
            #[trigger] trim_start(ls[j]),
            "// "@ + missing + ":"@,
        )
}

/// Returns true if the attribute block carries the `// {missing}:` comment.
pub fn has_required_justification(source: &str, missing: &str) -> (r: bool)
    ensures
        r == required_justification(source@, missing@),
{
    let c = chars_of(source);
    let ls = lines_of(c.as_slice());
    let ghost gl = lines(source@);
    let mut marker = chars_of("// ");
    let m = chars_of(missing);
    let colon = chars_of(":");
    let mut k: usize = 0;
    while k < m.len()
        invariant
            k <= m@.len(),
            marker@ == "// "@ + m@.subrange(0, k as int),
        decreases m@.len() - k,
    {
        marker.push(m[k]);
        proof {
            assert(("// "@ + m@.subrange(0, k as int)).push(m@[k as int]) =~= "// "@ + m@.subrange(
                0,
                k + 1,
            ));
        }
        k = k + 1;
    }
    proof {
        reveal_strlit(":");
    }
    marker.push(colon[0]);
    proof {
        assert(m@.subrange(0, m@.len() as int) =~= m@);
        assert(marker@ =~= "// "@ + missing@ + ":"@);
    }
    let start = attribute_block_start_of(&ls, Ghost(gl));
    let mut j = start;
    while j < ls.len()
        invariant
            start <= j <= ls@.len(),
            gl == lines(source@),
            start == attribute_block_start(source@),
            marker@ == "// "@ + missing@ + ":"@,
            ls@.len() == gl.len(),
            forall|i: int| 0 <= i < ls@.len() ==> #[trigger] ls@[i]@ == gl[i],
            forall|i: int|
                start <= i < j ==> !has_prefix(#[trigger] trim_start(gl[i]), marker@),
        decreases ls@.len() - j,
    {
        let t = trim_start_chars(ls[j].as_slice());
        if chars_match_at(t.as_slice(), 0, marker.as_slice()) {
            assert(has_prefix(trim_start(gl[j as int]), marker@));
            return true;
        }
        j = j + 1;
    }
    false
}

/// The decision of the `serde_xor_derive` pass for one public struct or
/// enum outside a build script: its serde derives are asymmetric and the
/// attribute block lacks the matching justification comment.
pub fn item_is_flagged(source_before_item: &str) -> (r: bool)
    ensures
        r == (serde_derives_of(source_before_item@).serialize != serde_derives_of(
            source_before_item@,
        ).deserialize && !required_justification(
            source_before_item@,
            if serde_derives_of(source_before_item@).serialize {
                "no-deserialize"@
            } else {
                "no-serialize"@
            },
        )),
{
    let derive = serde_derives(source_before_item);
    match derive.missing_side() {
        Some(missing) => !has_required_justification(source_before_item, missing),
        None => false,
    }
}

} // verus!
