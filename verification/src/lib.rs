//! A compiler front-end and interpreter for a small data description
//! language: surface modules declare named binary formats, a bidirectional
//! elaborator turns them into a well-typed core, a normaliser reduces core
//! terms, and a format interpreter reads a byte stream under the guidance of
//! a core type.

pub mod ast;
pub mod check;
pub mod delaborate;
pub mod diagnostics;
pub mod elaborate;
pub mod integer;
pub mod parser;
pub mod print;
pub mod semantics;
pub mod span;
pub mod surface;
