//! Flag structs whose fields encode a closed sum: two or more sibling
//! `Option<T>` fields, or a discriminator plus an optional key.
use vstd::prelude::*;

use crate::text::{chars_of, ends_with_lit, has_prefix, has_suffix, is_lit, starts_with_lit,
    trim_start, trim_start_chars};

verus! {

/// Type text that starts with `Option<` (bare or by its core/std path).
pub open spec fn option_snippet(snippet: Seq<char>) -> bool {
    let t = trim_start(snippet);
    has_prefix(t, "Option<"@) || has_prefix(t, "core::option::Option<"@) || has_prefix(
        t,
        "std::option::Option<"@,
    )
}

/// Returns true if the field type text is an `Option`.
pub fn snippet_is_option(snippet: &str) -> (r: bool)
    ensures
        r == option_snippet(snippet@),
{
    let c = chars_of(snippet);
    let t = trim_start_chars(c.as_slice());
    starts_with_lit(t.as_slice(), "Option<") || starts_with_lit(
        t.as_slice(),
        "core::option::Option<",
    ) || starts_with_lit(t.as_slice(), "std::option::Option<")
}

/// Type text that names a discriminator: a known tag type, or one whose
/// name ends in `Name`, `Kind` or `State`.
pub open spec fn discriminator_type(snippet: Seq<char>) -> bool {
    let t = trim_start(snippet);
    ||| t == "PortName"@
    ||| t == "String"@
    ||| t == "NonEmptyString"@
    ||| t == "RawDiscriminator"@
    ||| has_suffix(t, "Name"@)
    ||| has_suffix(t, "Kind"@)
    ||| has_suffix(t, "State"@)
}

/// Returns true if the field type text is a discriminator type.
pub fn snippet_is_discriminator_type(snippet: &str) -> (r: bool)
    ensures
        r == discriminator_type(snippet@),
{
    let c = chars_of(snippet);
    let t = trim_start_chars(c.as_slice());
    let t = t.as_slice();
    is_lit(t, "PortName") || is_lit(t, "String") || is_lit(t, "NonEmptyString") || is_lit(
        t,
        "RawDiscriminator",
    ) || ends_with_lit(t, "Name") || ends_with_lit(t, "Kind") || ends_with_lit(t, "State")
}

/// A field name that reads as a discriminator.
pub open spec fn discriminator_name(name: Seq<char>) -> bool {
    ||| name == "kind"@
    ||| name == "port_name"@
    ||| name == "state"@
    ||| name == "type_"@
    ||| has_suffix(name, "_kind"@)
    ||| has_suffix(name, "_name"@)
    ||| has_suffix(name, "_state"@)
}

/// Returns true if the field name reads as a discriminator.
pub fn field_name_is_discriminator(field_name: &str) -> (r: bool)
    ensures
        r == discriminator_name(field_name@),
{
    let c = chars_of(field_name);
    let t = c.as_slice();
    is_lit(t, "kind") || is_lit(t, "port_name") || is_lit(t, "state") || is_lit(t, "type_")
        || ends_with_lit(t, "_kind") || ends_with_lit(t, "_name") || ends_with_lit(t, "_state")
}

/// A field name that reads as an optional key.
pub open spec fn optional_key_name(name: Seq<char>) -> bool {
    has_suffix(name, "_id"@) || has_suffix(name, "_key"@)
}

/// Returns true if the field name reads as an optional key.
pub fn field_name_is_optional_key(field_name: &str) -> (r: bool)
    ensures
        r == optional_key_name(field_name@),
{
    let c = chars_of(field_name);
    ends_with_lit(c.as_slice(), "_id") || ends_with_lit(c.as_slice(), "_key")
}

/// One named struct field: its name and the source text of its type (`None`
/// when the type comes from a macro expansion or has no source text).
pub struct FieldShape<'a> {
    pub name: &'a str,
    pub type_snippet: Option<&'a str>,
}

/// The field's type is an `Option`.
pub open spec fn field_is_option(f: FieldShape) -> bool {
    f.type_snippet matches Some(t) && option_snippet(t@)
}

/// The field is a discriminator by name and type.
pub open spec fn field_is_discriminator(f: FieldShape) -> bool {
    discriminator_name(f.name@) && (f.type_snippet matches Some(t) && discriminator_type(t@))
}

/// The field is an optional key by name and type.
pub open spec fn field_is_optional_key(f: FieldShape) -> bool {
    optional_key_name(f.name@) && field_is_option(f)
}

/// Number of fields among the first `k` whose type is an `Option`.
pub open spec fn option_count(fields: Seq<FieldShape>, k: int) -> nat
    decreases k,
{
    if k <= 0 || k > fields.len() {
        0
    } else {
        option_count(fields, k - 1) + if field_is_option(fields[k - 1]) {
            1nat
        } else {
            0nat
        }
    }
}

/// Whether the field's type text is an `Option`.
fn is_option_field(field: &FieldShape) -> (r: bool)
    ensures
        r == field_is_option(*field),
{
    match field.type_snippet {
        Some(t) => snippet_is_option(t),
        None => false,
    }
}

/// Counts the fields whose type is an `Option`.
pub fn count_option_fields(fields: &[FieldShape]) -> (r: usize)
    ensures
        r == option_count(fields@, fields@.len() as int),
{
    let mut count: usize = 0;
    let mut k: usize = 0;
    while k < fields.len()
        invariant
            k <= fields@.len(),
            count == option_count(fields@, k as int),
            count <= k,
        decreases fields@.len() - k,
    {
        if is_option_field(&fields[k]) {
            count = count + 1;
        }
        k = k + 1;
    }
    count
}

/// Some field is an optional key and some field is a discriminator.
pub open spec fn discriminator_plus_optional_key(fields: Seq<FieldShape>) -> bool {
    &&& exists|i: int| 0 <= i < fields.len() && #[trigger] field_is_optional_key(fields[i])
    &&& exists|i: int| 0 <= i < fields.len() && #[trigger] field_is_discriminator(fields[i])
}

/// Returns true if the struct has a discriminator field and an optional key.
pub fn has_discriminator_plus_optional_key(fields: &[FieldShape]) -> (r: bool)
    ensures
        r == discriminator_plus_optional_key(fields@),
{
    let mut has_optional_key = false;
    let mut has_discriminator = false;
    let mut k: usize = 0;
    while k < fields.len()
        invariant
            k <= fields@.len(),
            has_optional_key == exists|i: int|
                0 <= i < k && #[trigger] field_is_optional_key(fields@[i]),
            has_discriminator == exists|i: int|
                0 <= i < k && #[trigger] field_is_discriminator(fields@[i]),
        decreases fields@.len() - k,
    {
        let field = &fields[k];
        let discriminator_type_ok = match field.type_snippet {
            Some(t) => snippet_is_discriminator_type(t),
            None => false,
        };
        let is_discriminator = field_name_is_discriminator(field.name) && discriminator_type_ok;
        let is_optional_key = field_name_is_optional_key(field.name) && is_option_field(field);
        assert(is_discriminator == field_is_discriminator(fields@[k as int]));
        assert(is_optional_key == field_is_optional_key(fields@[k as int]));
        if is_optional_key {
            has_optional_key = true;
        }
        if is_discriminator {
            has_discriminator = true;
        }
        k = k + 1;
    }
    has_optional_key && has_discriminator
}

/// What the lint reports about a struct.
#[derive(Clone, Copy, Debug, PartialEq, Eq)]
pub enum SiblingOptionFinding {
    /// This many sibling `Option` fields (two or more).
    SiblingOptions(usize),
    /// A discriminator plus an optional key.
    DiscriminatorOptionalKey,
    /// Nothing to report.
    Clean,
}

/// The decision of the `sibling_option_fields` pass for the named fields of
/// a struct in production source.
pub fn struct_finding(fields: &[FieldShape]) -> (r: SiblingOptionFinding)
    ensures
        option_count(fields@, fields@.len() as int) >= 2 ==> r == SiblingOptionFinding::SiblingOptions(
            option_count(fields@, fields@.len() as int) as usize,
        ),
        option_count(fields@, fields@.len() as int) < 2 ==> r == (if discriminator_plus_optional_key(
            fields@,
        ) {
            SiblingOptionFinding::DiscriminatorOptionalKey
        } else {
            SiblingOptionFinding::Clean
        }),
{
    let option_count = count_option_fields(fields);
    let has_discriminator_optional_key = has_discriminator_plus_optional_key(fields);
    if option_count >= 2 {
        return SiblingOptionFinding::SiblingOptions(option_count);
    }
    if has_discriminator_optional_key {
        SiblingOptionFinding::DiscriminatorOptionalKey
    } else {
        SiblingOptionFinding::Clean
    }
}

/// The names that read as discriminators: `kind`, `port_name`, `state`,
/// `type_`, and any name ending in `_kind`, `_name` or `_state`.
pub proof fn discriminator_names_are_recognised(name: Seq<char>)
    requires
        name == "kind"@ || name == "port_name"@ || name == "state"@ || name == "type_"@
            || has_suffix(name, "_kind"@) || has_suffix(name, "_name"@) || has_suffix(
            name,
            "_state"@,
        ),
    ensures
        discriminator_name(name),
{
}

/// The types that read as discriminators: `PortName`, `String`,
/// `NonEmptyString`, `RawDiscriminator`, and any type name ending in
/// `Name`, `Kind` or `State`, after leading whitespace.
pub proof fn discriminator_types_are_recognised(snippet: Seq<char>)
    requires
        ({
            let t = trim_start(snippet);
            t == "PortName"@ || t == "String"@ || t == "NonEmptyString"@ || t == "RawDiscriminator"@
                || has_suffix(t, "Name"@) || has_suffix(t, "Kind"@) || has_suffix(t, "State"@)
        }),
    ensures
        discriminator_type(snippet),
{
}

/// A struct with a field named like a discriminator (`kind`, `port_name`,
/// `state`, `type_`, or ending in `_kind`, `_name`, `_state`) whose type
/// is `PortName`, `String`, `NonEmptyString`, `RawDiscriminator` or ends
/// in `Name`, `Kind` or `State`, and an `Option` field whose name ends in
/// `_id` or `_key`, has a discriminator plus an optional key; with fewer
/// than two `Option` fields that is what the lint reports.
pub proof fn discriminator_with_optional_key_is_found(
    fields: Seq<FieldShape>,
    d: int,
    k: int,
)
    requires
        0 <= d < fields.len(),
        0 <= k < fields.len(),
        ({
            let name = fields[d].name@;
            name == "kind"@ || name == "port_name"@ || name == "state"@ || name == "type_"@
                || has_suffix(name, "_kind"@) || has_suffix(name, "_name"@) || has_suffix(
                name,
                "_state"@,
            )
        }),
        fields[d].type_snippet matches Some(ty) && ({
            let t = trim_start(ty@);
            t == "PortName"@ || t == "String"@ || t == "NonEmptyString"@ || t == "RawDiscriminator"@
                || has_suffix(t, "Name"@) || has_suffix(t, "Kind"@) || has_suffix(t, "State"@)
        }),
        has_suffix(fields[k].name@, "_id"@) || has_suffix(fields[k].name@, "_key"@),
        fields[k].type_snippet matches Some(ty) && ({
            let t = trim_start(ty@);
            has_prefix(t, "Option<"@) || has_prefix(t, "core::option::Option<"@) || has_prefix(
                t,
                "std::option::Option<"@,
            )
        }),
    ensures
        discriminator_plus_optional_key(fields),
{
    assert(field_is_discriminator(fields[d]));
    assert(field_is_optional_key(fields[k]));
}

} // verus!
