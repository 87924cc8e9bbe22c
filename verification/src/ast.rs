//! The programming languages understood by syntax search, how a file
//! extension selects one, and the query that finds each kind of item.

use vstd::prelude::*;
use crate::text::{has_infix, str_eq};

verus! {

/// A language whose files can be searched by syntax.
#[derive(Clone, Copy, Debug, PartialEq, Eq, Structural)]
pub enum TargetLanguage {
    Rust,
    Python,
    C,
    Cpp,
    Go,
    Javascript,
    Typescript,
}

/// The language that a file extension (without the dot) selects.
pub open spec fn spec_from_extension(ext: Seq<char>) -> Option<TargetLanguage> {
    if ext == "rs"@ {
        Some(TargetLanguage::Rust)
    } else if ext == "py"@ {
        Some(TargetLanguage::Python)
    } else if ext == "c"@ || ext == "h"@ {
        Some(TargetLanguage::C)
    } else if ext == "cpp"@ || ext == "hpp"@ || ext == "cc"@ || ext == "cxx"@ {
        Some(TargetLanguage::Cpp)
    } else if ext == "go"@ {
        Some(TargetLanguage::Go)
    } else if ext == "js"@ || ext == "jsx"@ {
        Some(TargetLanguage::Javascript)
    } else if ext == "ts"@ || ext == "tsx"@ {
        Some(TargetLanguage::Typescript)
    } else {
        None
    }
}

/// The usual file extension of each language.
pub open spec fn usual_extension(lang: TargetLanguage) -> Seq<char> {
    match lang {
        TargetLanguage::Rust => "rs"@,
        TargetLanguage::Python => "py"@,
        TargetLanguage::C => "c"@,
        TargetLanguage::Cpp => "cpp"@,
        TargetLanguage::Go => "go"@,
        TargetLanguage::Javascript => "js"@,
        TargetLanguage::Typescript => "ts"@,
    }
}

/// Every supported language is selected by its usual extension, so files of
/// each of them are searched.
pub proof fn lemma_every_language_is_reachable(lang: TargetLanguage)
    ensures
        spec_from_extension(usual_extension(lang)) == Some(lang),
{
    reveal_strlit("rs");
    reveal_strlit("py");
    reveal_strlit("c");
    reveal_strlit("h");
    reveal_strlit("cpp");
    reveal_strlit("hpp");
    reveal_strlit("cc");
    reveal_strlit("cxx");
    reveal_strlit("go");
    reveal_strlit("js");
    reveal_strlit("jsx");
    reveal_strlit("ts");
    reveal_strlit("tsx");
    assert("rs"@.len() == 2 && "rs"@[0] == 'r' && "rs"@[1] == 's');
    assert("py"@.len() == 2 && "py"@[0] == 'p' && "py"@[1] == 'y');
    assert("c"@.len() == 1 && "c"@[0] == 'c');
    assert("h"@.len() == 1 && "h"@[0] == 'h');
    assert("cpp"@.len() == 3 && "cpp"@[0] == 'c' && "cpp"@[2] == 'p');
    assert("hpp"@.len() == 3 && "hpp"@[0] == 'h' && "hpp"@[2] == 'p');
    assert("cc"@.len() == 2 && "cc"@[0] == 'c' && "cc"@[1] == 'c');
    assert("cxx"@.len() == 3 && "cxx"@[0] == 'c' && "cxx"@[2] == 'x');
    assert("go"@.len() == 2 && "go"@[0] == 'g' && "go"@[1] == 'o');
    assert("js"@.len() == 2 && "js"@[0] == 'j' && "js"@[1] == 's');
    assert("jsx"@.len() == 3 && "jsx"@[0] == 'j' && "jsx"@[2] == 'x');
    assert("ts"@.len() == 2 && "ts"@[0] == 't' && "ts"@[1] == 's');
    assert("tsx"@.len() == 3 && "tsx"@[0] == 't' && "tsx"@[2] == 'x');
}

/// How much a query character changes the depth of node patterns: an opening
/// parenthesis enters one, a closing one leaves it.
pub open spec fn paren_weight(c: char) -> int {
    if c == '(' {
        1
    } else if c == ')' {
        -1
    } else {
        0
    }
}

/// The depth of node patterns at the end of a piece of query text: how many
/// patterns opened in it are still open.
pub open spec fn nesting(s: Seq<char>) -> int
    decreases s.len(),
{
    if s.len() == 0 {
        0
    } else {
        nesting(s.drop_last()) + paren_weight(s.last())
    }
}

/// The text that opens a node pattern for nodes of a kind: `(kind `.
pub open spec fn node_pattern_open(kind: Seq<char>) -> Seq<char> {
    seq!['('] + kind + seq![' ']
}

/// Whether the query holds a pattern for nodes of this kind at its top level,
/// inside no other node pattern (on its own, or as one alternative of a
/// top-level `[...]`). Tree-sitter matches such a pattern against every node
/// of that kind wherever the node lies in the tree, not only at the root.
pub open spec fn top_level_pattern(query: Seq<char>, kind: Seq<char>) -> bool {
    exists|i: int|
        0 <= i && i + kind.len() + 2 <= query.len() && #[trigger] nesting(query.take(i)) == 0
            && query.subrange(i, i + kind.len() + 2) == node_pattern_open(kind)
}

/// One more character of a query changes the depth by its weight.
proof fn lemma_nesting_step(q: Seq<char>, k: int)
    requires
        0 <= k < q.len(),
    ensures
        nesting(q.take(k + 1)) == nesting(q.take(k)) + paren_weight(q[k]),
{
    assert(q.take(k + 1).drop_last() =~= q.take(k));
}

/// The depth after each prefix of a query, up to `n` characters, is the
/// depth after the prefix one shorter plus the weight of its last character;
/// the empty prefix lies at depth 0.
proof fn lemma_nesting_prefixes(q: Seq<char>, n: int)
    requires
        0 <= n <= q.len(),
    ensures
        nesting(q.take(0)) == 0,
        forall|k: int| 0 < k <= n ==> #[trigger] nesting(q.take(k)) == nesting(q.take(k - 1)) + paren_weight(q[k - 1]),
    decreases n,
{
    assert(q.take(0) =~= Seq::<char>::empty());
    if n > 0 {
        lemma_nesting_prefixes(q, n - 1);
        lemma_nesting_step(q, n - 1);
    }
}

impl TargetLanguage {
    /// Selects the language of a file by its extension.
    pub fn from_extension(ext: &str) -> (r: Option<Self>)
        ensures
            r == spec_from_extension(ext@),
    {
        if str_eq(ext, "rs") {
            Some(TargetLanguage::Rust)
        } else if str_eq(ext, "py") {
            Some(TargetLanguage::Python)
        } else if str_eq(ext, "c") || str_eq(ext, "h") {
            Some(TargetLanguage::C)
        } else if str_eq(ext, "cpp") || str_eq(ext, "hpp") || str_eq(ext, "cc") || str_eq(ext, "cxx") {
            Some(TargetLanguage::Cpp)
        } else if str_eq(ext, "go") {
            Some(TargetLanguage::Go)
        } else if str_eq(ext, "js") || str_eq(ext, "jsx") {
            Some(TargetLanguage::Javascript)
        } else if str_eq(ext, "ts") || str_eq(ext, "tsx") {
            Some(TargetLanguage::Typescript)
        } else {
            None
        }
    }

    /// The syntax query that captures the names of function definitions.
    pub fn function_query(&self) -> (r: &'static str)
        ensures
            r@ == spec_function_query(*self),
    {
        match self {
            TargetLanguage::Rust => "(function_item name: (identifier) @name)",
            TargetLanguage::Python => "(function_definition name: (identifier) @name)",
            TargetLanguage::Go => "(function_declaration name: (identifier) @name)",
            TargetLanguage::C | TargetLanguage::Cpp => "(function_declarator declarator: (identifier) @name)",
            TargetLanguage::Javascript | TargetLanguage::Typescript => "(function_declaration name: (identifier) @name)",
        }
    }

    /// The syntax query that captures the names of classes and structs.
    pub fn class_query(&self) -> (r: &'static str)
        ensures
            r@ == spec_class_query(*self),
    {
        match self {
            TargetLanguage::Rust => "(struct_item name: (type_identifier) @name)",
            TargetLanguage::Python => "(class_definition name: (identifier) @name)",
            TargetLanguage::Go => "(type_spec name: (type_identifier) @name)",
            TargetLanguage::C => "(struct_specifier name: (type_identifier) @name)",
            TargetLanguage::Cpp => "[(struct_specifier name: (type_identifier) @name) (class_specifier name: (type_identifier) @name)]",
            TargetLanguage::Javascript => "(class_declaration name: (identifier) @name)",
            TargetLanguage::Typescript => "(class_declaration name: (type_identifier) @name)",
        }
    }

    /// The syntax query that captures what an import or include names.
    pub fn import_query(&self) -> (r: &'static str)
        ensures
            r@ == spec_import_query(*self),
    {
        match self {
            TargetLanguage::Rust => "(use_declaration argument: (_) @name)",
            TargetLanguage::Python => "[(import_statement name: (_) @name) (import_from_statement module_name: (_) @name)]",
            TargetLanguage::Go => "(import_spec path: (_) @name)",
            TargetLanguage::C | TargetLanguage::Cpp => "(preproc_include path: (_) @name)",
            TargetLanguage::Javascript | TargetLanguage::Typescript => "(import_statement source: (string) @name)",
        }
    }
}

/// The query text for function definitions in each language.
pub open spec fn spec_function_query(lang: TargetLanguage) -> Seq<char> {
    match lang {
        TargetLanguage::Rust => "(function_item name: (identifier) @name)"@,
        TargetLanguage::Python => "(function_definition name: (identifier) @name)"@,
        TargetLanguage::Go => "(function_declaration name: (identifier) @name)"@,
        TargetLanguage::C | TargetLanguage::Cpp => "(function_declarator declarator: (identifier) @name)"@,
        TargetLanguage::Javascript | TargetLanguage::Typescript => "(function_declaration name: (identifier) @name)"@,
    }
}

/// The query text for class and struct definitions in each language.
pub open spec fn spec_class_query(lang: TargetLanguage) -> Seq<char> {
    match lang {
        TargetLanguage::Rust => "(struct_item name: (type_identifier) @name)"@,
        TargetLanguage::Python => "(class_definition name: (identifier) @name)"@,
        TargetLanguage::Go => "(type_spec name: (type_identifier) @name)"@,
        TargetLanguage::C => "(struct_specifier name: (type_identifier) @name)"@,
        TargetLanguage::Cpp => "[(struct_specifier name: (type_identifier) @name) (class_specifier name: (type_identifier) @name)]"@,
        TargetLanguage::Javascript => "(class_declaration name: (identifier) @name)"@,
        TargetLanguage::Typescript => "(class_declaration name: (type_identifier) @name)"@,
    }
}

/// The query text for imports and includes in each language.
pub open spec fn spec_import_query(lang: TargetLanguage) -> Seq<char> {
    match lang {
        TargetLanguage::Rust => "(use_declaration argument: (_) @name)"@,
        TargetLanguage::Python => "[(import_statement name: (_) @name) (import_from_statement module_name: (_) @name)]"@,
        TargetLanguage::Go => "(import_spec path: (_) @name)"@,
        TargetLanguage::C | TargetLanguage::Cpp => "(preproc_include path: (_) @name)"@,
        TargetLanguage::Javascript | TargetLanguage::Typescript => "(import_statement source: (string) @name)"@,
    }
}

/// The function query of each language holds, at its top level, a pattern
/// for that language's function definitions (in C and C++, for function
/// declarators) that captures the defined name. So it finds every function
/// definition of the file wherever it stands: at the top of the module,
/// inside a class body (methods), under a decorator, or nested in another
/// function.
pub proof fn lemma_function_query_shape(lang: TargetLanguage)
    ensures
        lang == TargetLanguage::Rust ==> top_level_pattern(spec_function_query(lang), "function_item"@)
            && has_infix(spec_function_query(lang), "function_item name: (identifier) @name"@),
        lang == TargetLanguage::Python ==> top_level_pattern(spec_function_query(lang), "function_definition"@)
            && has_infix(spec_function_query(lang), "function_definition name: (identifier) @name"@),
        lang == TargetLanguage::C ==> top_level_pattern(spec_function_query(lang), "function_declarator"@)
            && has_infix(spec_function_query(lang), "function_declarator declarator: (identifier) @name"@),
        lang == TargetLanguage::Cpp ==> top_level_pattern(spec_function_query(lang), "function_declarator"@)
            && has_infix(spec_function_query(lang), "function_declarator declarator: (identifier) @name"@),
        lang == TargetLanguage::Go ==> top_level_pattern(spec_function_query(lang), "function_declaration"@)
            && has_infix(spec_function_query(lang), "function_declaration name: (identifier) @name"@),
        lang == TargetLanguage::Javascript ==> top_level_pattern(spec_function_query(lang), "function_declaration"@)
            && has_infix(spec_function_query(lang), "function_declaration name: (identifier) @name"@),
        lang == TargetLanguage::Typescript ==> top_level_pattern(spec_function_query(lang), "function_declaration"@)
            && has_infix(spec_function_query(lang), "function_declaration name: (identifier) @name"@),
{
    match lang {
        TargetLanguage::Rust => {
            let q = spec_function_query(lang);
            reveal_strlit("(function_item name: (identifier) @name)");
            reveal_strlit("function_item");
            reveal_strlit("function_item name: (identifier) @name");
            assert(q.subrange(0int, 0int + "function_item"@.len() + 2) =~= node_pattern_open("function_item"@));
            lemma_nesting_prefixes(q, 0);
            assert(nesting(q.take(0)) == 0);
            assert(q.subrange(1int, 1int + "function_item name: (identifier) @name"@.len()) =~= "function_item name: (identifier) @name"@);
        },
        TargetLanguage::Python => {
            let q = spec_function_query(lang);
            reveal_strlit("(function_definition name: (identifier) @name)");
            reveal_strlit("function_definition");
            reveal_strlit("function_definition name: (identifier) @name");
            assert(q.subrange(0int, 0int + "function_definition"@.len() + 2) =~= node_pattern_open("function_definition"@));
            lemma_nesting_prefixes(q, 0);
            assert(nesting(q.take(0)) == 0);
            assert(q.subrange(1int, 1int + "function_definition name: (identifier) @name"@.len()) =~= "function_definition name: (identifier) @name"@);
        },
        TargetLanguage::C => {
            let q = spec_function_query(lang);
            reveal_strlit("(function_declarator declarator: (identifier) @name)");
            reveal_strlit("function_declarator");
            reveal_strlit("function_declarator declarator: (identifier) @name");
            assert(q.subrange(0int, 0int + "function_declarator"@.len() + 2) =~= node_pattern_open("function_declarator"@));
            lemma_nesting_prefixes(q, 0);
            assert(nesting(q.take(0)) == 0);
            assert(q.subrange(1int, 1int + "function_declarator declarator: (identifier) @name"@.len()) =~= "function_declarator declarator: (identifier) @name"@);
        },
        TargetLanguage::Cpp => {
            let q = spec_function_query(lang);
            reveal_strlit("(function_declarator declarator: (identifier) @name)");
            reveal_strlit("function_declarator");
            reveal_strlit("function_declarator declarator: (identifier) @name");
            assert(q.subrange(0int, 0int + "function_declarator"@.len() + 2) =~= node_pattern_open("function_declarator"@));
            lemma_nesting_prefixes(q, 0);
            assert(nesting(q.take(0)) == 0);
            assert(q.subrange(1int, 1int + "function_declarator declarator: (identifier) @name"@.len()) =~= "function_declarator declarator: (identifier) @name"@);
        },
        TargetLanguage::Go => {
            let q = spec_function_query(lang);
            reveal_strlit("(function_declaration name: (identifier) @name)");
            reveal_strlit("function_declaration");
            reveal_strlit("function_declaration name: (identifier) @name");
            assert(q.subrange(0int, 0int + "function_declaration"@.len() + 2) =~= node_pattern_open("function_declaration"@));
            lemma_nesting_prefixes(q, 0);
            assert(nesting(q.take(0)) == 0);
            assert(q.subrange(1int, 1int + "function_declaration name: (identifier) @name"@.len()) =~= "function_declaration name: (identifier) @name"@);
        },
        TargetLanguage::Javascript => {
            let q = spec_function_query(lang);
            reveal_strlit("(function_declaration name: (identifier) @name)");
            reveal_strlit("function_declaration");
            reveal_strlit("function_declaration name: (identifier) @name");
            assert(q.subrange(0int, 0int + "function_declaration"@.len() + 2) =~= node_pattern_open("function_declaration"@));
            lemma_nesting_prefixes(q, 0);
            assert(nesting(q.take(0)) == 0);
            assert(q.subrange(1int, 1int + "function_declaration name: (identifier) @name"@.len()) =~= "function_declaration name: (identifier) @name"@);
        },
        TargetLanguage::Typescript => {
            let q = spec_function_query(lang);
            reveal_strlit("(function_declaration name: (identifier) @name)");
            reveal_strlit("function_declaration");
            reveal_strlit("function_declaration name: (identifier) @name");
            assert(q.subrange(0int, 0int + "function_declaration"@.len() + 2) =~= node_pattern_open("function_declaration"@));
            lemma_nesting_prefixes(q, 0);
            assert(nesting(q.take(0)) == 0);
            assert(q.subrange(1int, 1int + "function_declaration name: (identifier) @name"@.len()) =~= "function_declaration name: (identifier) @name"@);
        },
    }
}

/// The class query of each language holds, at its top level, a pattern for
/// that language's class (struct, type) definitions, one for each kind in
/// C++, that captures the defined name; so it finds every such definition
/// wherever it stands in the file.
#[verifier::spinoff_prover]
#[verifier::rlimit(40)]
pub proof fn lemma_class_query_shape(lang: TargetLanguage)
    ensures
        lang == TargetLanguage::Rust ==> top_level_pattern(spec_class_query(lang), "struct_item"@)
            && has_infix(spec_class_query(lang), "struct_item name: (type_identifier) @name"@),
        lang == TargetLanguage::Python ==> top_level_pattern(spec_class_query(lang), "class_definition"@)
            && has_infix(spec_class_query(lang), "class_definition name: (identifier) @name"@),
        lang == TargetLanguage::C ==> top_level_pattern(spec_class_query(lang), "struct_specifier"@)
            && has_infix(spec_class_query(lang), "struct_specifier name: (type_identifier) @name"@),
        lang == TargetLanguage::Cpp ==> top_level_pattern(spec_class_query(lang), "struct_specifier"@)
            && top_level_pattern(spec_class_query(lang), "class_specifier"@)
            && has_infix(spec_class_query(lang), "struct_specifier name: (type_identifier) @name"@)
            && has_infix(spec_class_query(lang), "class_specifier name: (type_identifier) @name"@),
        lang == TargetLanguage::Go ==> top_level_pattern(spec_class_query(lang), "type_spec"@)
            && has_infix(spec_class_query(lang), "type_spec name: (type_identifier) @name"@),
        lang == TargetLanguage::Javascript ==> top_level_pattern(spec_class_query(lang), "class_declaration"@)
            && has_infix(spec_class_query(lang), "class_declaration name: (identifier) @name"@),
        lang == TargetLanguage::Typescript ==> top_level_pattern(spec_class_query(lang), "class_declaration"@)
            && has_infix(spec_class_query(lang), "class_declaration name: (type_identifier) @name"@),
{
    match lang {
        TargetLanguage::Rust => {
            let q = spec_class_query(lang);
            reveal_strlit("(struct_item name: (type_identifier) @name)");
            reveal_strlit("struct_item");
            reveal_strlit("struct_item name: (type_identifier) @name");
            assert(q.subrange(0int, 0int + "struct_item"@.len() + 2) =~= node_pattern_open("struct_item"@));
            lemma_nesting_prefixes(q, 0);
            assert(nesting(q.take(0)) == 0);
            assert(q.subrange(1int, 1int + "struct_item name: (type_identifier) @name"@.len()) =~= "struct_item name: (type_identifier) @name"@);
        },
        TargetLanguage::Python => {
            let q = spec_class_query(lang);
            reveal_strlit("(class_definition name: (identifier) @name)");
            reveal_strlit("class_definition");
            reveal_strlit("class_definition name: (identifier) @name");
            assert(q.subrange(0int, 0int + "class_definition"@.len() + 2) =~= node_pattern_open("class_definition"@));
            lemma_nesting_prefixes(q, 0);
            assert(nesting(q.take(0)) == 0);
            assert(q.subrange(1int, 1int + "class_definition name: (identifier) @name"@.len()) =~= "class_definition name: (identifier) @name"@);
        },
        TargetLanguage::C => {
            let q = spec_class_query(lang);
            reveal_strlit("(struct_specifier name: (type_identifier) @name)");
            reveal_strlit("struct_specifier");
            reveal_strlit("struct_specifier name: (type_identifier) @name");
            assert(q.subrange(0int, 0int + "struct_specifier"@.len() + 2) =~= node_pattern_open("struct_specifier"@));
            lemma_nesting_prefixes(q, 0);
            assert(nesting(q.take(0)) == 0);
            assert(q.subrange(1int, 1int + "struct_specifier name: (type_identifier) @name"@.len()) =~= "struct_specifier name: (type_identifier) @name"@);
        },
        TargetLanguage::Cpp => {
            let q = spec_class_query(lang);
            reveal_strlit("[(struct_specifier name: (type_identifier) @name) (class_specifier name: (type_identifier) @name)]");
            reveal_strlit("struct_specifier");
            reveal_strlit("class_specifier");
            reveal_strlit("struct_specifier name: (type_identifier) @name");
            reveal_strlit("class_specifier name: (type_identifier) @name");
            assert(q.subrange(1int, 1int + "struct_specifier"@.len() + 2) =~= node_pattern_open("struct_specifier"@));
            assert(q.subrange(50int, 50int + "class_specifier"@.len() + 2) =~= node_pattern_open("class_specifier"@));
            lemma_nesting_prefixes(q, 50);
            assert(nesting(q.take(1)) == 0);
            assert(nesting(q.take(50)) == 0);
            assert(q.subrange(2int, 2int + "struct_specifier name: (type_identifier) @name"@.len()) =~= "struct_specifier name: (type_identifier) @name"@);
            assert(q.subrange(51int, 51int + "class_specifier name: (type_identifier) @name"@.len()) =~= "class_specifier name: (type_identifier) @name"@);
        },
        TargetLanguage::Go => {
            let q = spec_class_query(lang);
            reveal_strlit("(type_spec name: (type_identifier) @name)");
            reveal_strlit("type_spec");
            reveal_strlit("type_spec name: (type_identifier) @name");
            assert(q.subrange(0int, 0int + "type_spec"@.len() + 2) =~= node_pattern_open("type_spec"@));
            lemma_nesting_prefixes(q, 0);
            assert(nesting(q.take(0)) == 0);
            assert(q.subrange(1int, 1int + "type_spec name: (type_identifier) @name"@.len()) =~= "type_spec name: (type_identifier) @name"@);
        },
        TargetLanguage::Javascript => {
            let q = spec_class_query(lang);
            reveal_strlit("(class_declaration name: (identifier) @name)");
            reveal_strlit("class_declaration");
            reveal_strlit("class_declaration name: (identifier) @name");
            assert(q.subrange(0int, 0int + "class_declaration"@.len() + 2) =~= node_pattern_open("class_declaration"@));
            lemma_nesting_prefixes(q, 0);
            assert(nesting(q.take(0)) == 0);
            assert(q.subrange(1int, 1int + "class_declaration name: (identifier) @name"@.len()) =~= "class_declaration name: (identifier) @name"@);
        },
        TargetLanguage::Typescript => {
            let q = spec_class_query(lang);
            reveal_strlit("(class_declaration name: (type_identifier) @name)");
            reveal_strlit("class_declaration");
            reveal_strlit("class_declaration name: (type_identifier) @name");
            assert(q.subrange(0int, 0int + "class_declaration"@.len() + 2) =~= node_pattern_open("class_declaration"@));
            lemma_nesting_prefixes(q, 0);
            assert(nesting(q.take(0)) == 0);
            assert(q.subrange(1int, 1int + "class_declaration name: (type_identifier) @name"@.len()) =~= "class_declaration name: (type_identifier) @name"@);
        },
    }
}

/// The import query of each language holds, at its top level, a pattern for
/// that language's import (use, include) items that captures the whole
/// imported part, whatever its form: in Rust the entire argument of every
/// `use` (a path, a `{...}` group, an alias, a glob or a single name), in
/// Python the imported names and the module of a `from` import, in Go, C and
/// C++ the path, in JavaScript and TypeScript the source string.
pub proof fn lemma_import_query_shape(lang: TargetLanguage)
    ensures
        lang == TargetLanguage::Rust ==> top_level_pattern(spec_import_query(lang), "use_declaration"@)
            && has_infix(spec_import_query(lang), "use_declaration argument: (_) @name"@),
        lang == TargetLanguage::Python ==> top_level_pattern(spec_import_query(lang), "import_statement"@)
            && top_level_pattern(spec_import_query(lang), "import_from_statement"@)
            && has_infix(spec_import_query(lang), "import_statement name: (_) @name"@)
            && has_infix(spec_import_query(lang), "import_from_statement module_name: (_) @name"@),
        lang == TargetLanguage::C ==> top_level_pattern(spec_import_query(lang), "preproc_include"@)
            && has_infix(spec_import_query(lang), "preproc_include path: (_) @name"@),
        lang == TargetLanguage::Cpp ==> top_level_pattern(spec_import_query(lang), "preproc_include"@)
            && has_infix(spec_import_query(lang), "preproc_include path: (_) @name"@),
        lang == TargetLanguage::Go ==> top_level_pattern(spec_import_query(lang), "import_spec"@)
            && has_infix(spec_import_query(lang), "import_spec path: (_) @name"@),
        lang == TargetLanguage::Javascript ==> top_level_pattern(spec_import_query(lang), "import_statement"@)
            && has_infix(spec_import_query(lang), "import_statement source: (string) @name"@),
        lang == TargetLanguage::Typescript ==> top_level_pattern(spec_import_query(lang), "import_statement"@)
            && has_infix(spec_import_query(lang), "import_statement source: (string) @name"@),
{
    match lang {
        TargetLanguage::Rust => {
            let q = spec_import_query(lang);
            reveal_strlit("(use_declaration argument: (_) @name)");
            reveal_strlit("use_declaration");
            reveal_strlit("use_declaration argument: (_) @name");
            assert(q.subrange(0int, 0int + "use_declaration"@.len() + 2) =~= node_pattern_open("use_declaration"@));
            lemma_nesting_prefixes(q, 0);
            assert(nesting(q.take(0)) == 0);
            assert(q.subrange(1int, 1int + "use_declaration argument: (_) @name"@.len()) =~= "use_declaration argument: (_) @name"@);
        },
        TargetLanguage::Python => {
            let q = spec_import_query(lang);
            reveal_strlit("[(import_statement name: (_) @name) (import_from_statement module_name: (_) @name)]");
            reveal_strlit("import_statement");
            reveal_strlit("import_from_statement");
            reveal_strlit("import_statement name: (_) @name");
            reveal_strlit("import_from_statement module_name: (_) @name");
            assert(q.subrange(1int, 1int + "import_statement"@.len() + 2) =~= node_pattern_open("import_statement"@));
            assert(q.subrange(36int, 36int + "import_from_statement"@.len() + 2) =~= node_pattern_open("import_from_statement"@));
            lemma_nesting_prefixes(q, 36);
            assert(nesting(q.take(1)) == 0);
            assert(nesting(q.take(36)) == 0);
            assert(q.subrange(2int, 2int + "import_statement name: (_) @name"@.len()) =~= "import_statement name: (_) @name"@);
            assert(q.subrange(37int, 37int + "import_from_statement module_name: (_) @name"@.len()) =~= "import_from_statement module_name: (_) @name"@);
        },
        TargetLanguage::C => {
            let q = spec_import_query(lang);
            reveal_strlit("(preproc_include path: (_) @name)");
            reveal_strlit("preproc_include");
            reveal_strlit("preproc_include path: (_) @name");
            assert(q.subrange(0int, 0int + "preproc_include"@.len() + 2) =~= node_pattern_open("preproc_include"@));
            lemma_nesting_prefixes(q, 0);
            assert(nesting(q.take(0)) == 0);
            assert(q.subrange(1int, 1int + "preproc_include path: (_) @name"@.len()) =~= "preproc_include path: (_) @name"@);
        },
        TargetLanguage::Cpp => {
            let q = spec_import_query(lang);
            reveal_strlit("(preproc_include path: (_) @name)");
            reveal_strlit("preproc_include");
            reveal_strlit("preproc_include path: (_) @name");
            assert(q.subrange(0int, 0int + "preproc_include"@.len() + 2) =~= node_pattern_open("preproc_include"@));
            lemma_nesting_prefixes(q, 0);
            assert(nesting(q.take(0)) == 0);
            assert(q.subrange(1int, 1int + "preproc_include path: (_) @name"@.len()) =~= "preproc_include path: (_) @name"@);
        },
        TargetLanguage::Go => {
            let q = spec_import_query(lang);
            reveal_strlit("(import_spec path: (_) @name)");
            reveal_strlit("import_spec");
            reveal_strlit("import_spec path: (_) @name");
            assert(q.subrange(0int, 0int + "import_spec"@.len() + 2) =~= node_pattern_open("import_spec"@));
            lemma_nesting_prefixes(q, 0);
            assert(nesting(q.take(0)) == 0);
            assert(q.subrange(1int, 1int + "import_spec path: (_) @name"@.len()) =~= "import_spec path: (_) @name"@);
        },
        TargetLanguage::Javascript => {
            let q = spec_import_query(lang);
            reveal_strlit("(import_statement source: (string) @name)");
            reveal_strlit("import_statement");
            reveal_strlit("import_statement source: (string) @name");
            assert(q.subrange(0int, 0int + "import_statement"@.len() + 2) =~= node_pattern_open("import_statement"@));
            lemma_nesting_prefixes(q, 0);
            assert(nesting(q.take(0)) == 0);
            assert(q.subrange(1int, 1int + "import_statement source: (string) @name"@.len()) =~= "import_statement source: (string) @name"@);
        },
        TargetLanguage::Typescript => {
            let q = spec_import_query(lang);
            reveal_strlit("(import_statement source: (string) @name)");
            reveal_strlit("import_statement");
            reveal_strlit("import_statement source: (string) @name");
            assert(q.subrange(0int, 0int + "import_statement"@.len() + 2) =~= node_pattern_open("import_statement"@));
            lemma_nesting_prefixes(q, 0);
            assert(nesting(q.take(0)) == 0);
            assert(q.subrange(1int, 1int + "import_statement source: (string) @name"@.len()) =~= "import_statement source: (string) @name"@);
        },
    }
}

} // verus!
