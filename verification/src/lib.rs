//! Verified core of a ripgrep-style file search library: regular-expression
//! search over the files of a directory tree, and syntax-aware search for
//! the definitions of functions, classes and imports in several programming
//! languages.
//!
//! The caller walks the tree and reads the files; this crate decides which
//! files are searched, what each yields, in which order, and how many hits
//! are kept.

pub mod ast;
pub mod ast_search;
pub mod csv;
pub mod glob;
pub mod matcher;
pub mod search;
pub mod syntax;
pub mod text;

pub use ast::TargetLanguage;
pub use ast_search::{
    search_ast, search_classes, search_functions, search_imports, AstHit, AstQueryType, SourceEntry,
};
pub use search::{search, FileEntry, SearchConfig, SearchHit};
