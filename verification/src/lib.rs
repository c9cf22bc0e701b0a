pub mod text;
pub mod error;
pub mod token;
pub mod ast;
pub mod lexer;
pub mod module;
pub mod semantic;
pub mod optimizer;
pub mod codegen;
pub mod build;
pub mod runtime;
pub mod debug;
pub mod macro_system;
pub mod parser;
pub mod package;
pub mod compiler;
pub mod memory;
pub mod analysis;
pub mod doc;
pub mod pattern;
pub mod lsp;
pub mod source_location;
pub mod style;
pub mod diagnostics;
pub mod testing;
