pub mod ast;
pub mod cli;
pub mod ast_dump;
pub mod diagnostic;
pub mod diagnostics;
pub mod dump;
pub mod lexer;
pub mod pymod;
pub mod source;
pub mod span;
pub mod text;
pub mod sema;
pub mod runtime;
