//! Parsing source text into a syntax tree and running a syntax query over
//! it, through the tree-sitter library and its grammar crates.
//!
//! The outside values (grammars, parsers, trees, compiled queries) are
//! opaque here; each is held together with the plain values it was made
//! from, so that what a later call returns can be named as a function of
//! those plain values.

use vstd::prelude::*;
use tree_sitter::{Language, Parser, Query, QueryCursor, Tree};
use crate::ast::{TargetLanguage, spec_function_query, spec_class_query, spec_import_query};

verus! {

#[verifier::external_type_specification]
#[verifier::external_body]
pub struct ExLanguage(Language);

#[verifier::external_type_specification]
#[verifier::external_body]
pub struct ExParser(Parser);

#[verifier::external_type_specification]
#[verifier::external_body]
pub struct ExTree(Tree);

#[verifier::external_type_specification]
#[verifier::external_body]
pub struct ExQuery(Query);

#[verifier::external_type_specification]
#[verifier::external_body]
pub struct ExQueryCursor(QueryCursor);

/// `tree_sitter::Parser::new`: a fresh parser with no grammar assigned.
pub assume_specification[ Parser::new ]() -> Parser;

/// `tree_sitter::QueryCursor::new`: a fresh cursor with the default match limit.
pub assume_specification[ QueryCursor::new ]() -> QueryCursor;

/// The grammar of one language, together with the language it belongs to.
/// Only the grammar functions below make one, each pairing its grammar with
/// its own language.
pub struct Grammar {
    lang: TargetLanguage,
    language: Language,
}

impl Grammar {
    /// The language whose grammar this is.
    pub closed spec fn target(&self) -> TargetLanguage {
        self.lang
    }
}

/// `tree_sitter_rust::language`: the Rust grammar, paired with `Rust`.
#[verifier::external_body]
fn rust_grammar() -> (g: Grammar)
    ensures
        g.target() == TargetLanguage::Rust,
{
    Grammar { lang: TargetLanguage::Rust, language: tree_sitter_rust::language() }
}

/// `tree_sitter_python::language`: the Python grammar, paired with `Python`.
#[verifier::external_body]
fn python_grammar() -> (g: Grammar)
    ensures
        g.target() == TargetLanguage::Python,
{
    Grammar { lang: TargetLanguage::Python, language: tree_sitter_python::language() }
}

/// `tree_sitter_c::language`: the C grammar, paired with `C`.
#[verifier::external_body]
fn c_grammar() -> (g: Grammar)
    ensures
        g.target() == TargetLanguage::C,
{
    Grammar { lang: TargetLanguage::C, language: tree_sitter_c::language() }
}

/// `tree_sitter_cpp::language`: the C++ grammar, paired with `Cpp`.
#[verifier::external_body]
fn cpp_grammar() -> (g: Grammar)
    ensures
        g.target() == TargetLanguage::Cpp,
{
    Grammar { lang: TargetLanguage::Cpp, language: tree_sitter_cpp::language() }
}

/// `tree_sitter_go::language`: the Go grammar, paired with `Go`.
#[verifier::external_body]
fn go_grammar() -> (g: Grammar)
    ensures
        g.target() == TargetLanguage::Go,
{
    Grammar { lang: TargetLanguage::Go, language: tree_sitter_go::language() }
}

/// `tree_sitter_javascript::language`: the JavaScript grammar, paired with
/// `Javascript`.
#[verifier::external_body]
fn javascript_grammar() -> (g: Grammar)
    ensures
        g.target() == TargetLanguage::Javascript,
{
    Grammar { lang: TargetLanguage::Javascript, language: tree_sitter_javascript::language() }
}

/// `tree_sitter_typescript::language_typescript`: the TypeScript grammar,
/// paired with `Typescript`.
#[verifier::external_body]
fn typescript_grammar() -> (g: Grammar)
    ensures
        g.target() == TargetLanguage::Typescript,
{
    Grammar { lang: TargetLanguage::Typescript, language: tree_sitter_typescript::language_typescript() }
}

impl TargetLanguage {
    /// The tree-sitter grammar that parses files of this language.
    pub fn get_parser_language(&self) -> (r: Grammar)
        ensures
            r.target() == *self,
    {
        match self {
            TargetLanguage::Rust => rust_grammar(),
            TargetLanguage::Python => python_grammar(),
            TargetLanguage::C => c_grammar(),
            TargetLanguage::Cpp => cpp_grammar(),
            TargetLanguage::Go => go_grammar(),
            TargetLanguage::Javascript => javascript_grammar(),
            TargetLanguage::Typescript => typescript_grammar(),
        }
    }
}

/// Whether `tree_sitter::Query::new` compiles this query text against the
/// grammar of this language.
pub uninterp spec fn query_compiles(lang: TargetLanguage, query: Seq<char>) -> bool;

/// What `tree_sitter::QueryCursor::matches` yields when the compiled query is
/// run over the syntax tree of `source` in this language: the captured nodes,
/// match by match and capture by capture, each as its text and start row.
pub uninterp spec fn query_captures(
    lang: TargetLanguage,
    query: Seq<char>,
    source: Seq<char>,
) -> Seq<(Seq<char>, usize)>;

/// A parser together with the language of the grammar assigned to it, if any.
/// Only `SourceParser::new` and `set_language` set `lang`, each as the parser
/// changes.
pub struct SourceParser {
    parser: Parser,
    lang: Option<TargetLanguage>,
}

impl SourceParser {
    /// The language of the grammar assigned to this parser.
    pub closed spec fn grammar(&self) -> Option<TargetLanguage> {
        self.lang
    }

    /// A parser that has no grammar yet.
    pub fn new() -> (r: SourceParser)
        ensures
            r.grammar() is None,
    {
        SourceParser { parser: Parser::new(), lang: None }
    }
}

/// `tree_sitter::Parser::set_language`: assigns the grammar to the parser.
/// It refuses only grammars whose ABI version lies outside the versions this
/// tree-sitter supports (13 to 14); every grammar here is of version 14, so
/// it always succeeds and the parser then parses with that grammar.
#[verifier::external_body]
pub(crate) fn set_language(parser: &mut SourceParser, grammar: &Grammar) -> (ok: bool)
    ensures
        ok,
        final(parser).grammar() == Some(grammar.target()),
{
    match parser.parser.set_language(grammar.language) {
        Ok(()) => {
            parser.lang = Some(grammar.lang);
            true
        },
        Err(_) => false,
    }
}

/// Source text together with its syntax tree in one language. Only
/// `parse_source` makes one, from the text it holds.
pub struct ParsedSource {
    lang: TargetLanguage,
    tree: Tree,
    source: String,
}

impl ParsedSource {
    /// The language the text was parsed as.
    pub closed spec fn target(&self) -> TargetLanguage {
        self.lang
    }

    /// The parsed text.
    pub closed spec fn source(&self) -> Seq<char> {
        self.source@
    }

    /// Gives the parsed text back, dropping the tree.
    pub fn into_text(self) -> (r: String)
        ensures
            r@ == self.source(),
    {
        self.source
    }
}

/// `tree_sitter::Parser::parse`: parses the text with the parser's grammar.
/// With a grammar assigned, and with no timeout and no cancellation flag set
/// (this library sets neither), a tree always comes back; the parser keeps
/// its grammar.
#[verifier::external_body]
pub(crate) fn parse_source(parser: &mut SourceParser, grammar: &Grammar, source: String) -> (r: Option<ParsedSource>)
    requires
        old(parser).grammar() == Some(grammar.target()),
    ensures
        final(parser).grammar() == old(parser).grammar(),
        r is Some,
        r matches Some(t) ==> t.target() == grammar.target() && t.source() == source@,
{
    match parser.parser.parse(&source, None) {
        Some(tree) => Some(ParsedSource { lang: grammar.lang, tree, source }),
        None => None,
    }
}

/// A compiled syntax query, with the language and text it was compiled from.
/// Only `compile_query` makes one.
pub struct CompiledQuery {
    lang: TargetLanguage,
    text: &'static str,
    query: Query,
}

impl CompiledQuery {
    /// The language the query was compiled for.
    pub closed spec fn target(&self) -> TargetLanguage {
        self.lang
    }

    /// The query text.
    pub closed spec fn text(&self) -> Seq<char> {
        self.text@
    }
}

/// `tree_sitter::Query::new`: compiles the query text against the grammar.
/// It succeeds exactly when the text is a valid query for that grammar. Only
/// the library's own query texts are admitted: on some malformed texts (an
/// unknown name that runs to the end of the text) `Query::new` panics, and
/// none of those texts is one of them.
#[verifier::external_body]
pub(crate) fn compile_query(grammar: &Grammar, text: &'static str) -> (r: Option<CompiledQuery>)
    requires
        text@ == spec_function_query(grammar.target()) || text@ == spec_class_query(grammar.target())
            || text@ == spec_import_query(grammar.target()),
    ensures
        r is Some <==> query_compiles(grammar.target(), text@),
        r matches Some(q) ==> q.target() == grammar.target() && q.text() == text@,
{
    match Query::new(grammar.language, text) {
        Ok(query) => Some(CompiledQuery { lang: grammar.lang, text, query }),
        Err(_) => None,
    }
}

/// One captured syntax node: its text and the (zero-based) row it starts on.
pub struct Capture {
    pub text: String,
    pub row: usize,
}

impl View for Capture {
    type V = (Seq<char>, usize);

    open spec fn view(&self) -> (Seq<char>, usize) {
        (self.text@, self.row)
    }
}

/// `tree_sitter::QueryCursor::matches`: runs the query over the whole tree
/// and hands out every capture of every match, in order, as its node's text
/// and start row. The cursor keeps its default settings (every cursor here
/// comes from `QueryCursor::new` and nothing changes them), and a run does not
/// depend on earlier runs of the same cursor. Rows count line breaks of the source text, which holds at
/// most `isize::MAX` bytes, so a row is below `usize::MAX`.
#[verifier::external_body]
pub(crate) fn run_query(cursor: &mut QueryCursor, query: &CompiledQuery, parsed: &ParsedSource) -> (r: Vec<Capture>)
    requires
        query.target() == parsed.target(),
    ensures
        r@.map_values(|c: Capture| c@) == query_captures(parsed.target(), query.text(), parsed.source()),
        forall|i: int| 0 <= i < r@.len() ==> #[trigger] r@[i].row < usize::MAX,
{
    let mut out: Vec<Capture> = Vec::new();
    for m in cursor.matches(&query.query, parsed.tree.root_node(), parsed.source.as_bytes()) {
        for c in m.captures {
            let text = parsed.source[c.node.byte_range()].to_string();
            out.push(Capture { text, row: c.node.start_position().row });
        }
    }
    out
}

} // verus!
