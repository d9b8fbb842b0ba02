use skills::lints::sibling_option_fields::{
    FieldShape, SiblingOptionFinding, count_option_fields, field_name_is_discriminator,
    field_name_is_optional_key, has_discriminator_plus_optional_key,
    snippet_is_discriminator_type, snippet_is_option, struct_finding,
};

fn field<'a>(name: &'a str, type_snippet: &'a str) -> FieldShape<'a> {
    FieldShape {
        name,
        type_snippet: Some(type_snippet),
    }
}

#[test]
fn unqualified_option_snippet_is_option() {
    assert!(snippet_is_option("Option<String>"));
}

#[test]
fn core_option_path_snippet_is_option() {
    assert!(snippet_is_option("core::option::Option<u32>"));
}

#[test]
fn std_option_path_snippet_is_option() {
    assert!(snippet_is_option("std::option::Option<u32>"));
}

#[test]
fn leading_whitespace_is_trimmed_before_option_check() {
    assert!(snippet_is_option("    Option<String>"));
}

#[test]
fn unrelated_type_is_not_option() {
    assert!(!snippet_is_option("Vec<String>"));
}

#[test]
fn empty_snippet_is_not_option() {
    assert!(!snippet_is_option(""));
}

#[test]
fn option_substring_inside_other_type_is_not_option() {
    assert!(!snippet_is_option("MyOption<String>"));
}

#[test]
fn port_name_is_discriminator_name() {
    assert!(field_name_is_discriminator("port_name"));
}

#[test]
fn state_suffix_is_discriminator_name() {
    assert!(field_name_is_discriminator("outbound_state"));
}

#[test]
fn unrelated_field_is_not_discriminator_name() {
    assert!(!field_name_is_discriminator("rendered_bytes"));
}

#[test]
fn parent_intent_id_is_optional_key_name() {
    assert!(field_name_is_optional_key("parent_intent_id"));
}

#[test]
fn rendered_bytes_is_not_optional_key_name() {
    assert!(!field_name_is_optional_key("rendered_bytes"));
}

#[test]
fn port_name_type_is_discriminator_type() {
    assert!(snippet_is_discriminator_type("PortName"));
}

#[test]
fn name_suffix_type_is_discriminator_type() {
    assert!(snippet_is_discriminator_type("OutboundState"));
}

#[test]
fn optional_key_type_is_not_discriminator_type() {
    assert!(!snippet_is_discriminator_type("Option<PositiveBigInt>"));
}

#[test]
fn option_fields_are_counted_only_with_known_type_text() {
    let fields = [
        field("a", "Option<u8>"),
        FieldShape {
            name: "b",
            type_snippet: None,
        },
        field("c", "std::option::Option<String>"),
        field("d", "u8"),
    ];
    assert_eq!(count_option_fields(&fields), 2);
    assert_eq!(count_option_fields(&[]), 0);
}

#[test]
fn two_sibling_options_are_reported_with_their_count() {
    let fields = [
        field("left", "Option<u8>"),
        field("right", "Option<u8>"),
        field("middle", "Option<u8>"),
    ];
    assert_eq!(struct_finding(&fields), SiblingOptionFinding::SiblingOptions(3));
}

#[test]
fn discriminator_with_optional_key_is_reported() {
    let fields = [field("kind", "EventKind"), field("parent_id", "Option<IntentId>")];
    assert!(has_discriminator_plus_optional_key(&fields));
    assert_eq!(
        struct_finding(&fields),
        SiblingOptionFinding::DiscriminatorOptionalKey
    );
}

#[test]
fn key_that_is_not_optional_or_tag_of_wrong_type_is_clean() {
    let plain_key = [field("kind", "EventKind"), field("parent_id", "IntentId")];
    assert!(!has_discriminator_plus_optional_key(&plain_key));
    assert_eq!(struct_finding(&plain_key), SiblingOptionFinding::Clean);
    let untyped_tag = [field("kind", "u8"), field("parent_id", "Option<IntentId>")];
    assert_eq!(struct_finding(&untyped_tag), SiblingOptionFinding::Clean);
}
