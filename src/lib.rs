//! Front end of a small experimental language: a tokenizer that turns source
//! text into tokens, and a recursive-descent builder that turns tokens into a
//! tree of declarations, statements and precedence-tagged expression fragments.
pub mod ast;
pub mod lexer;
