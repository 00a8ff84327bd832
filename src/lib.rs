//! Wiki-link aware document intelligence for a markdown notes vault.

pub mod text;
pub mod wikilink;
pub mod headings;
pub mod transform;
pub mod directives;
pub mod session;
pub mod formatting;
pub mod completion;
