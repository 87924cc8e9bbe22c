use pyfastgrep::ast::TargetLanguage;
use pyfastgrep::ast_search::{query_for, syntax_captures, AstQueryType};

#[test]
fn extension_selects_language() {
    assert_eq!(TargetLanguage::from_extension("rs"), Some(TargetLanguage::Rust));
    assert_eq!(TargetLanguage::from_extension("py"), Some(TargetLanguage::Python));
    assert_eq!(TargetLanguage::from_extension("c"), Some(TargetLanguage::C));
    assert_eq!(TargetLanguage::from_extension("h"), Some(TargetLanguage::C));
    assert_eq!(TargetLanguage::from_extension("cpp"), Some(TargetLanguage::Cpp));
    assert_eq!(TargetLanguage::from_extension("hpp"), Some(TargetLanguage::Cpp));
    assert_eq!(TargetLanguage::from_extension("cc"), Some(TargetLanguage::Cpp));
    assert_eq!(TargetLanguage::from_extension("cxx"), Some(TargetLanguage::Cpp));
    assert_eq!(TargetLanguage::from_extension("go"), Some(TargetLanguage::Go));
    assert_eq!(TargetLanguage::from_extension("js"), Some(TargetLanguage::Javascript));
    assert_eq!(TargetLanguage::from_extension("jsx"), Some(TargetLanguage::Javascript));
    assert_eq!(TargetLanguage::from_extension("ts"), Some(TargetLanguage::Typescript));
    assert_eq!(TargetLanguage::from_extension("tsx"), Some(TargetLanguage::Typescript));
}

#[test]
fn unknown_extensions_select_nothing() {
    assert_eq!(TargetLanguage::from_extension(""), None);
    assert_eq!(TargetLanguage::from_extension("RS"), None);
    assert_eq!(TargetLanguage::from_extension("r"), None);
    assert_eq!(TargetLanguage::from_extension("rss"), None);
    assert_eq!(TargetLanguage::from_extension("txt"), None);
}

#[test]
fn query_texts_per_language() {
    assert_eq!(TargetLanguage::Rust.function_query(), "(function_item name: (identifier) @name)");
    assert_eq!(TargetLanguage::Cpp.function_query(), "(function_declarator declarator: (identifier) @name)");
    assert_eq!(TargetLanguage::Typescript.function_query(), "(function_declaration name: (identifier) @name)");
    assert_eq!(TargetLanguage::Go.class_query(), "(type_spec name: (type_identifier) @name)");
    assert_eq!(TargetLanguage::Python.class_query(), "(class_definition name: (identifier) @name)");
    assert_eq!(
        TargetLanguage::Python.import_query(),
        "[(import_statement name: (_) @name) (import_from_statement module_name: (_) @name)]"
    );
    assert_eq!(TargetLanguage::C.import_query(), "(preproc_include path: (_) @name)");
    assert_eq!(query_for(TargetLanguage::Javascript, AstQueryType::Class), "(class_declaration name: (identifier) @name)");
    assert_eq!(query_for(TargetLanguage::Typescript, AstQueryType::Class), "(class_declaration name: (type_identifier) @name)");
    assert_eq!(
        TargetLanguage::Cpp.class_query(),
        "[(struct_specifier name: (type_identifier) @name) (class_specifier name: (type_identifier) @name)]"
    );
    assert_eq!(TargetLanguage::Go.import_query(), "(import_spec path: (_) @name)");
}

#[test]
fn every_grammar_parses_and_queries() {
    let langs = [
        TargetLanguage::Rust,
        TargetLanguage::Python,
        TargetLanguage::C,
        TargetLanguage::Cpp,
        TargetLanguage::Go,
        TargetLanguage::Javascript,
        TargetLanguage::Typescript,
    ];
    for lang in langs {
        for kind in [AstQueryType::Function, AstQueryType::Class, AstQueryType::Import] {
            let (caps, src) = syntax_captures(lang, kind, String::from("x"));
            assert_eq!(src, "x");
            assert!(caps.is_empty());
        }
    }
}

#[test]
fn every_function_query_finds_a_definition() {
    let samples = [
        (TargetLanguage::Rust, "fn run() {}\n"),
        (TargetLanguage::Python, "def run():\n    pass\n"),
        (TargetLanguage::C, "void run(void) {}\n"),
        (TargetLanguage::Cpp, "void run() {}\n"),
        (TargetLanguage::Go, "package a\nfunc run() {}\n"),
        (TargetLanguage::Javascript, "function run() {}\n"),
        (TargetLanguage::Typescript, "function run(): void {}\n"),
    ];
    for (lang, source) in samples {
        let (caps, _) = syntax_captures(lang, AstQueryType::Function, source.to_string());
        let names: Vec<String> = caps.into_iter().map(|c| c.text).collect();
        assert_eq!(names, vec!["run".to_string()], "{:?}", lang);
    }
}

#[test]
fn rust_function_captures() {
    let source = String::from("fn alpha() {}\n\nfn beta() {}\n");
    let (caps, src) = syntax_captures(TargetLanguage::Rust, AstQueryType::Function, source.clone());
    assert_eq!(src, source);
    let got: Vec<(String, usize)> = caps.into_iter().map(|c| (c.text, c.row)).collect();
    assert_eq!(got, vec![(String::from("alpha"), 0), (String::from("beta"), 2)]);
}

#[test]
fn python_class_and_import_captures() {
    let source = String::from("import os\nfrom sys import path\nclass Foo:\n    pass\n");
    let (caps, _) = syntax_captures(TargetLanguage::Python, AstQueryType::Class, source.clone());
    let got: Vec<(String, usize)> = caps.into_iter().map(|c| (c.text, c.row)).collect();
    assert_eq!(got, vec![(String::from("Foo"), 2)]);
    let (caps, _) = syntax_captures(TargetLanguage::Python, AstQueryType::Import, source);
    let got: Vec<(String, usize)> = caps.into_iter().map(|c| (c.text, c.row)).collect();
    assert_eq!(got, vec![(String::from("os"), 0), (String::from("sys"), 1)]);
}
