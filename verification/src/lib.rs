//! A compiler from a small markup language, written with `#`-tags, to HTML.
//!
//! Three stages run one after the other: the lexical analyzer cuts the
//! source into tokens, the syntax analyzer checks them against the grammar
//! and flattens the document into a sequence of symbols, and the semantic
//! analyzer resolves variables and writes the markup.
//!
//! ```
//! use lolcode::{Compiler, LolcodeCompiler};
//!
//! let mut compiler = LolcodeCompiler::new();
//! let html = compiler.compile("#HAI #GIMMEH BOLD hi #MKAY #KTHXBYE").unwrap();
//! assert_eq!(html, "<html><b> hi </b></html>");
//! ```
//!
//! What each stage computes is stated as a function on sequences of
//! characters: [`lexer::tokens_of`], [`grammar::document`],
//! [`semantics::markup_of`] and, for the whole, [`compiler::html_of`].
//! The first fault stops the compilation and is returned as a
//! [`CompileError`].

pub mod compiler;
pub mod error;
pub mod flow;
pub mod grammar;
pub mod keywords;
pub mod lexer;
pub mod nesting;
pub mod parser;
pub mod scope;
pub mod semantics;
pub mod text;

pub use compiler::{Compiler, LolcodeCompiler};
pub use error::{CompileError, ErrorKind};
pub use lexer::{LexicalAnalyzer, LolcodeLexicalAnalyzer};
pub use parser::{LolcodeSyntaxAnalyzer, SyntaxAnalyzer};
pub use semantics::{LolcodeSemanticAnalyzer, SemanticAnalyzer};
