//! A small typesetting library: a markup parser, a command interpreter with
//! macro substitution, and a layout engine that word-wraps and paginates the
//! resulting document into positioned text draw instructions.

pub mod document;
pub mod errors;
pub mod parser;
pub mod renderer;
pub mod styles;
pub mod text;

pub use document::{Document, DocumentElement, Paragraph, Section, Style, Subsection};
