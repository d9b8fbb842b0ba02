use skills::lints::result_string_error::{
    is_result_path_boundary, is_result_string_return_type, is_string_type,
    matching_angle_bracket, normalize_type_text, result_generic_arguments,
    split_result_arguments,
};

fn chars(text: &str) -> Vec<char> {
    text.chars().collect()
}

#[test]
fn result_string_return_type_is_linted() {
    assert!(is_result_string_return_type("Result<User, String>"));
}

#[test]
fn async_result_string_return_type_is_linted() {
    assert!(is_result_string_return_type("Result<Option<User>, String>"));
}

#[test]
fn qualified_result_string_return_type_is_linted() {
    assert!(is_result_string_return_type(
        "std::result::Result<User, std::string::String>"
    ));
}

#[test]
fn result_typed_error_return_type_is_skipped() {
    assert!(!is_result_string_return_type("Result<User, UserLookupError>"));
}

#[test]
fn non_result_return_type_is_skipped() {
    assert!(!is_result_string_return_type("Option<String>"));
}

#[test]
fn one_argument_result_alias_is_skipped() {
    assert!(!is_result_string_return_type("Result<User>"));
}

#[test]
fn nested_string_inside_ok_type_is_skipped() {
    assert!(!is_result_string_return_type(
        "Result<Vec<String>, UserLookupError>"
    ));
}

#[test]
fn wrapped_result_string_return_type_is_skipped() {
    assert!(!is_result_string_return_type("Option<Result<User, String>>"));
}

#[test]
fn nested_result_string_ok_type_is_skipped() {
    assert!(!is_result_string_return_type(
        "Result<Result<User, String>, UserLookupError>"
    ));
}

#[test]
fn whitespace_is_removed_before_matching() {
    assert_eq!(normalize_type_text(" Result < A ,\n\tString > "), "Result<A,String>");
    assert!(is_result_string_return_type(" Result < A ,\n alloc::string::String > "));
}

#[test]
fn angle_brackets_are_matched_by_depth() {
    let text = chars("Result<Vec<u8>,String>");
    assert_eq!(matching_angle_bracket(&text, 7), Some(21));
    assert_eq!(matching_angle_bracket(&chars("Result<A"), 7), None);
    assert_eq!(result_generic_arguments(&text), Some(chars("Vec<u8>,String")));
    assert_eq!(result_generic_arguments(&chars("MyResult<A,String>")), None);
}

#[test]
fn arguments_are_those_of_the_outermost_result() {
    assert_eq!(
        result_generic_arguments(&chars("Result<Result<A,B>,C>")),
        Some(chars("Result<A,B>,C"))
    );
    assert_eq!(
        result_generic_arguments(&chars("Option<Result<A,String>>")),
        None
    );
    assert_eq!(
        result_generic_arguments(&chars("MyResult<std::result::Result<A,String>>")),
        Some(chars("A,String"))
    );
    assert!(!is_result_string_return_type("Result<Result<A,String>,C>"));
}

#[test]
fn result_must_start_the_text_or_follow_a_path_separator() {
    assert!(is_result_path_boundary(&chars("Result<"), 0));
    assert!(is_result_path_boundary(&chars("std::result::Result<"), 13));
    assert!(!is_result_path_boundary(&chars("MyResult<"), 2));
}

#[test]
fn arguments_split_at_the_first_top_level_comma() {
    assert_eq!(
        split_result_arguments(&chars("HashMap<K,V>,String")),
        Some((chars("HashMap<K,V>"), chars("String")))
    );
    assert_eq!(split_result_arguments(&chars(",String")), None);
    assert_eq!(split_result_arguments(&chars("A,")), None);
    assert_eq!(split_result_arguments(&chars("A")), None);
}

#[test]
fn only_the_three_string_paths_count() {
    assert!(is_string_type(&chars("String")));
    assert!(is_string_type(&chars("std::string::String")));
    assert!(is_string_type(&chars("alloc::string::String")));
    assert!(!is_string_type(&chars("string::String")));
    assert!(!is_string_type(&chars("&str")));
}
