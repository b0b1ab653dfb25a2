//! The pattern compiler: from pattern strings and options to a matcher.

pub mod ast;
pub mod engine;
pub mod error;
pub mod hir;
pub mod syntax;
pub mod ban;
pub mod strip;
pub mod non_matching;
pub mod config;
pub mod literals;
pub mod matcher;
