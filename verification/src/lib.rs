//! Inline-markdown tokenizing and HTML rendering.
//!
//! The crate splits a run of inline text on paired delimiter markers such as
//! `**bold**` into typed text spans, lowers each span to an HTML leaf node,
//! and serializes trees of leaf and parent nodes to HTML strings with a
//! canonical (key-sorted) rendering of attribute maps.

pub mod attributes;
pub mod nodes;
pub mod order;
pub mod text;
pub mod tokenizer;
