//! A macro processor in the style of M4: text with macro calls, quoted
//! spans and positional references is parsed into a token tree and expanded
//! against a registry of definitions, and what a macro gives is scanned
//! again. The parser is proved against the grammar in [`grammar`], the
//! expander against the meaning of expansion in [`semantics`].

pub mod ast;
pub mod grammar;
pub mod laws;
pub mod nesting;
pub mod parser;
pub mod processor;
pub mod registry;
pub mod semantics;
pub mod text;

pub use ast::{Group, MacroCall, Token};
pub use grammar::ParseError;
pub use parser::M4Parser;
pub use processor::{Expander, ExpandingReader};
pub use registry::MacroRegistry;
pub use semantics::{ExpandError, MAX_DEPTH};
