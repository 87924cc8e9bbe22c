use pyfastgrep::ast_search::capture_hits_of;
use pyfastgrep::syntax::Capture;
use pyfastgrep::ast_search::{
    entry_hits_of, search_ast_entry, search_ast, search_classes, search_functions, search_imports, AstQueryType, SourceEntry,
};

fn src(path: &str, text: &str) -> SourceEntry {
    SourceEntry { path: path.to_string(), is_file: true, text: Some(text.to_string()) }
}

fn t(p: &str, l: usize, s: &str) -> (String, usize, String) {
    (p.to_string(), l, s.to_string())
}

fn sample() -> Vec<SourceEntry> {
    vec![
        src("src/lib.rs", "use std::collections::HashMap;\n\npub fn main() {}\nstruct Main;\nfn main_loop() {}\n"),
        src("app.py", "import os\nfrom os import path\n\ndef main():\n    pass\n\nclass Main:\n    pass\n"),
        src("notes.txt", "fn main() {}\n"),
        SourceEntry { path: "dir.rs".to_string(), is_file: false, text: None },
        SourceEntry { path: "binary.rs".to_string(), is_file: true, text: None },
        src("web/app.ts", "import { x } from \"./os_helpers\";\nfunction main() {}\nclass Main {}\n"),
        src("lib/x.go", "package x\nimport \"os\"\ntype Main struct{}\nfunc main() {}\n"),
        src("inc/a.c", "#include <stdio.h>\nint main(void) { return 0; }\nstruct Main { int x; };\n"),
    ]
}

#[test]
fn functions_match_exact_names() {
    let r = search_functions("main", &sample(), &None).unwrap();
    assert_eq!(
        r,
        vec![
            t("src/lib.rs", 3, "pub fn main() {}"),
            t("app.py", 4, "def main():"),
            t("web/app.ts", 2, "function main() {}"),
            t("lib/x.go", 4, "func main() {}"),
            t("inc/a.c", 2, "int main(void) { return 0; }"),
        ]
    );
}

#[test]
fn classes_match_exact_names() {
    let r = search_classes("Main", &sample(), &None).unwrap();
    assert_eq!(
        r,
        vec![
            t("src/lib.rs", 4, "struct Main;"),
            t("app.py", 7, "class Main:"),
            t("web/app.ts", 3, "class Main {}"),
            t("lib/x.go", 3, "type Main struct{}"),
            t("inc/a.c", 3, "struct Main { int x; };"),
        ]
    );
}

#[test]
fn imports_match_by_substring() {
    let r = search_imports("os", &sample(), &None).unwrap();
    assert_eq!(
        r,
        vec![
            t("app.py", 1, "import os"),
            t("app.py", 2, "from os import path"),
            t("web/app.ts", 1, "import { x } from \"./os_helpers\";"),
            t("lib/x.go", 2, "import \"os\""),
        ]
    );
    let r = search_imports("collections", &sample(), &None).unwrap();
    assert_eq!(r, vec![t("src/lib.rs", 1, "use std::collections::HashMap;")]);
}

#[test]
fn javascript_classes_are_found() {
    let entries = vec![src("ui/view.jsx", "class Main {}\nclass Other {}\n")];
    assert_eq!(search_classes("Main", &entries, &None).unwrap(), vec![t("ui/view.jsx", 1, "class Main {}")]);
}

#[test]
fn every_language_finds_classes_and_imports() {
    let entries = vec![
        src("a.rs", "use shapes::Area;\nstruct Shape {}\n"),
        src("a.py", "import shapes\nclass Shape:\n    pass\n"),
        src("a.c", "#include \"shapes.h\"\nstruct Shape { int x; };\n"),
        src("a.cpp", "#include <shapes.hpp>\nclass Shape {};\n"),
        src("a.go", "package a\nimport `shapes`\ntype Shape struct{}\n"),
        src("a.js", "import x from 'shapes';\nclass Shape {}\n"),
        src("a.ts", "import x from 'shapes';\nclass Shape {}\n"),
    ];
    let classes = search_classes("Shape", &entries, &None).unwrap();
    let files: Vec<&str> = classes.iter().map(|h| h.0.as_str()).collect();
    assert_eq!(files, vec!["a.rs", "a.py", "a.c", "a.cpp", "a.go", "a.js", "a.ts"]);
    let lines: Vec<usize> = classes.iter().map(|h| h.1).collect();
    assert_eq!(lines, vec![2, 2, 2, 2, 3, 2, 2]);
    let imports = search_imports("shapes", &entries, &None).unwrap();
    let files: Vec<&str> = imports.iter().map(|h| h.0.as_str()).collect();
    assert_eq!(files, vec!["a.rs", "a.py", "a.c", "a.cpp", "a.go", "a.js", "a.ts"]);
    let lines: Vec<usize> = imports.iter().map(|h| h.1).collect();
    assert_eq!(lines, vec![1, 1, 1, 1, 2, 1, 1]);
}

#[test]
fn cpp_structs_and_classes_are_found() {
    let entries = vec![src("src/shapes.cpp", "class Shape {};\nstruct Point { int x; };\n")];
    assert_eq!(search_classes("Shape", &entries, &None).unwrap(), vec![t("src/shapes.cpp", 1, "class Shape {};")]);
    assert_eq!(search_classes("Point", &entries, &None).unwrap(), vec![t("src/shapes.cpp", 2, "struct Point { int x; };")]);
}

#[test]
fn repeated_hits_are_reported_once() {
    let entries = vec![
        src("a.rs", "use a::x; use a::y;\n"),
        src("a.rs", "use a::x; use a::y;\n"),
    ];
    let all = entry_hits_of(&entries[0], "a", AstQueryType::Import);
    assert_eq!(all.len(), 2);
    let r = search_ast("a", &entries, &None, AstQueryType::Import).unwrap();
    assert_eq!(r, vec![t("a.rs", 1, "use a::x; use a::y;")]);
}

#[test]
fn glob_restricts_files() {
    let r = search_functions("main", &sample(), &Some("*.py".to_string())).unwrap();
    assert_eq!(r, vec![t("app.py", 4, "def main():")]);
    assert!(search_functions("main", &sample(), &Some("[".to_string())).is_err());
}

#[test]
fn no_hits_for_missing_name() {
    assert!(search_functions("absent", &sample(), &None).unwrap().is_empty());
    assert!(search_ast("", &sample(), &None, AstQueryType::Class).unwrap().is_empty());
}

#[test]
fn reported_lines_hold_no_line_feed_and_no_repeats() {
    let r = search_imports("", &sample(), &None).unwrap();
    assert!(!r.is_empty());
    for (i, h) in r.iter().enumerate() {
        assert!(!h.2.contains('\n'));
        for other in &r[i + 1..] {
            assert_ne!(h, other);
        }
    }
}

#[test]
fn crlf_sources_report_lines_without_carriage_return() {
    let entries = vec![src("w.py", "import os\r\ndef main():\r\n    pass\r\n")];
    assert_eq!(search_functions("main", &entries, &None).unwrap(), vec![t("w.py", 2, "def main():")]);
}

#[test]
fn capture_hits_follow_the_captures() {
    let source = "line zero\nfn target() {}\r\nlast";
    let caps = vec![
        Capture { text: "target".to_string(), row: 1 },
        Capture { text: "other".to_string(), row: 0 },
        Capture { text: "target".to_string(), row: 7 },
        Capture { text: "target".to_string(), row: 2 },
    ];
    let path = "f.rs".to_string();
    let r = capture_hits_of(&path, source, &caps, "target", AstQueryType::Function);
    assert_eq!(r, vec![t("f.rs", 2, "fn target() {}"), t("f.rs", 8, ""), t("f.rs", 3, "last")]);
    let r = capture_hits_of(&path, source, &caps, "arg", AstQueryType::Import);
    assert_eq!(r.len(), 3);
    let r = capture_hits_of(&path, source, &caps, "arg", AstQueryType::Class);
    assert!(r.is_empty());
}

#[test]
fn upper_case_extensions_are_not_searched() {
    let entries = vec![src("MAIN.RS", "fn main() {}\n")];
    assert!(search_functions("main", &entries, &None).unwrap().is_empty());
}

#[test]
fn streaming_steps_give_the_hits_with_repeats() {
    let entries = vec![src("a.rs", "use a::x; use a::y;\n"), src("b.txt", "use a::z;\n")];
    let g = pyfastgrep::search::build_glob(&None).unwrap();
    let mut streamed = Vec::new();
    for e in entries.iter() {
        streamed.extend(search_ast_entry(e, &g, "a", AstQueryType::Import));
    }
    assert_eq!(streamed, vec![t("a.rs", 1, "use a::x; use a::y;"), t("a.rs", 1, "use a::x; use a::y;")]);
    assert_eq!(search_ast("a", &entries, &None, AstQueryType::Import).unwrap(), vec![t("a.rs", 1, "use a::x; use a::y;")]);
}
