//! Template compiler core: a position-tracking parser for tag markup with
//! embedded script expressions and string literals, and the resolver that
//! merges parent templates, blocks and fragments into a final element tree.

pub mod config;
pub mod error;
pub mod pattern;
pub mod text;
pub mod pages;
pub mod parse;
pub mod template;
