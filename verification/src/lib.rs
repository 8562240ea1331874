//! Picks the example input out of the markup of a puzzle page.
//!
//! A puzzle page shows its example input in one of several `<code>` blocks,
//! mixed with prose and with code samples that are not the example. This
//! crate holds the rules that choose among them, and the normalizer that
//! turns the chosen markup into plain text.

pub mod extract;
pub mod fixup;
pub mod laws;
pub mod page;
pub mod select;
pub mod text;
