//! The review lints: each module holds the decisions one lint makes about
//! the source text and compiler facts it is given.
pub mod assert_contains;
pub mod assert_starts_with;
pub mod bare_clone;
pub mod bare_loop;
pub mod env_var;
pub mod expect_justified;
pub mod fuzzy_matcher_assertion;
pub mod get_or_insert;
pub mod inline_attr;
pub mod result_string_error;
pub mod serde_xor_derive;
pub mod sibling_option_fields;
pub mod tag_only_assertion;
pub mod unbounded_io_accumulator;
pub mod unwrap_or;
pub mod unwrap_or_else;
