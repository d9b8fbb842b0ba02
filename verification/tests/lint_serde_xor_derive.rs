use skills::lints::serde_xor_derive::{
    SerdeDerives, derive_attribute_payload, has_derive_name, has_required_justification,
    is_item_prefix_line, is_public_item_snippet, item_is_flagged, serde_derives,
};

fn chars(text: &str) -> Vec<char> {
    text.chars().collect()
}

#[test]
fn paired_serde_derives_are_balanced() {
    let source = "#[derive(Debug, Deserialize, Serialize)]\n";
    assert_eq!(
        serde_derives(source),
        SerdeDerives {
            deserialize: true,
            serialize: true,
        }
    );
    assert_eq!(serde_derives(source).missing_side(), None);
}

#[test]
fn serialize_only_requires_no_deserialize_comment() {
    let source = "#[derive(Debug, Serialize)]\n";
    assert_eq!(serde_derives(source).missing_side(), Some("no-deserialize"));
    assert!(!has_required_justification(source, "no-deserialize"));
}

#[test]
fn deserialize_only_requires_no_serialize_comment() {
    let source = "#[derive(Debug, serde::Deserialize)]\n";
    assert_eq!(serde_derives(source).missing_side(), Some("no-serialize"));
    assert!(!has_required_justification(source, "no-serialize"));
}

#[test]
fn adjacent_no_serialize_comment_justifies_deserialize_only() {
    let source = "// no-serialize: external provider response DTO\n#[derive(Deserialize)]\n";
    assert!(has_required_justification(source, "no-serialize"));
}

#[test]
fn adjacent_no_deserialize_comment_justifies_serialize_only() {
    let source = "// no-deserialize: outbound recording payload\n#[derive(Serialize)]\n";
    assert!(has_required_justification(source, "no-deserialize"));
}

#[test]
fn public_struct_and_enum_snippets_are_linted() {
    assert!(is_public_item_snippet("pub struct Public;"));
    assert!(is_public_item_snippet("pub enum Public {}"));
    assert!(!is_public_item_snippet("pub(crate) struct CrateVisible;"));
    assert!(!is_public_item_snippet("struct Private;"));
}

#[test]
fn derive_payload_is_the_text_between_the_brackets() {
    assert_eq!(
        derive_attribute_payload(&chars("  #[derive(Debug, Clone)]  ")),
        Some(chars("Debug, Clone"))
    );
    assert_eq!(derive_attribute_payload(&chars("#[serde(rename = \"x\")]")), None);
    assert_eq!(derive_attribute_payload(&chars("#[derive(Debug)")), None);
}

#[test]
fn derive_names_match_by_their_last_path_segment() {
    assert!(has_derive_name(&chars("Debug, serde::Serialize"), "Serialize"));
    assert!(has_derive_name(&chars(" Deserialize "), "Deserialize"));
    assert!(!has_derive_name(&chars("SerializeDisplay"), "Serialize"));
    assert!(!has_derive_name(&chars(""), "Serialize"));
}

#[test]
fn attribute_block_lines_are_blank_attributes_or_comments() {
    assert!(is_item_prefix_line(&chars("")));
    assert!(is_item_prefix_line(&chars("   #[derive(Debug)]")));
    assert!(is_item_prefix_line(&chars("/// docs")));
    assert!(is_item_prefix_line(&chars("// note")));
    assert!(!is_item_prefix_line(&chars("let x = 1;")));
}

#[test]
fn justification_must_be_inside_the_attribute_block() {
    let separated = "// no-serialize: old\nfn other() {}\n#[derive(Deserialize)]\n";
    assert!(!has_required_justification(separated, "no-serialize"));
    let doc_between = "// no-serialize: reply DTO\n/// docs\n#[derive(Deserialize)]\n";
    assert!(has_required_justification(doc_between, "no-serialize"));
    assert!(!has_required_justification(doc_between, "no-deserialize"));
}

#[test]
fn only_the_attribute_block_counts_for_derives() {
    let source = "#[derive(Serialize)]\nstruct Other;\n#[derive(Deserialize)]\n";
    assert_eq!(
        serde_derives(source),
        SerdeDerives {
            deserialize: true,
            serialize: false,
        }
    );
}

#[test]
fn item_decision_needs_asymmetry_without_justification() {
    assert!(item_is_flagged("#[derive(Serialize)]\n"));
    assert!(!item_is_flagged("// no-deserialize: outbound\n#[derive(Serialize)]\n"));
    assert!(!item_is_flagged("#[derive(Serialize, Deserialize)]\n"));
    assert!(!item_is_flagged("#[derive(Debug)]\n"));
}
