//! A macro-expanding document compiler for a small markup language.
//!
//! A document is handed over as a tagged parse tree. Its named definitions are
//! collected first; what is left of the document is then expanded into concrete
//! elements, with every reference to a definition resolved.

pub mod parser;
