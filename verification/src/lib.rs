//! Formatted-text layout for a small fixed-size display: a brace-syntax
//! format-string tokenizer, argument resolution, greedy span fitting with
//! hyphenation, and a visitor-driven layout pass over a bounded rectangle.

pub mod display;
pub mod geometry;
pub mod layout;
pub mod op;
pub mod span;
pub mod text;
pub mod theme;
pub mod token;
