//! Front end of a small concatenative, stack-based language: word
//! resolution, preprocessing (definitions, includes, expansion), block
//! cross-referencing and stack-effect type checking.

pub mod constants;
pub mod text;
pub mod parser;
pub mod crossref;
pub mod precompiler;
pub mod tables;
pub mod args;
pub mod preprocessor;
pub mod typechecker;
pub mod lexer;
pub mod interpret;
pub mod errors;
