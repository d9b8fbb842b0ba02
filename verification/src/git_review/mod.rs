//! The commit-review rules: the Atomic Changes message form, commit date
//! order, revision selection and base-ref precedence.
pub mod base_ref;
pub mod dates;
pub mod git;
pub mod message;
pub mod messages;
pub mod target_file;
pub mod targets;
