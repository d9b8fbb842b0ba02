//! Verified core of the agent skills tools: the code-review lint decisions
//! and the source scanners beneath them, the commit-review rules, and the
//! shared error type.
pub mod code_review;
pub mod error;
pub mod git_review;
pub mod json;
pub mod lints;
pub mod macro_args;
pub mod paths;
pub mod scan;
pub mod text;
pub mod unicode;
pub mod waivers;
