use pyfastgrep::text::{chars_of, contains_str, extension_of, line_at, str_eq};

fn line(source: &str, row: usize) -> String {
    let chars = chars_of(source);
    line_at(source, &chars, row)
}

#[test]
fn lines_split_at_line_feeds() {
    let s = "alpha\nbeta\r\ngamma";
    assert_eq!(line(s, 0), "alpha");
    assert_eq!(line(s, 1), "beta");
    assert_eq!(line(s, 2), "gamma");
    assert_eq!(line(s, 3), "");
}

#[test]
fn lines_edge_cases() {
    assert_eq!(line("", 0), "");
    assert_eq!(line("\n", 0), "");
    assert_eq!(line("\n", 1), "");
    assert_eq!(line("a\n", 0), "a");
    assert_eq!(line("a\n", 1), "");
    assert_eq!(line("a\r", 0), "a\r");
    assert_eq!(line("a\r\r\n", 0), "a\r");
    assert_eq!(line("\n\nx", 2), "x");
    assert_eq!(line("héllo\nwörld", 1), "wörld");
}

#[test]
fn lines_agree_with_std() {
    let samples = ["", "a", "a\n", "a\nb", "a\r\nb\r\n", "\r\n\r\n", "x\ry\n\nz\r", "α\nβγ\r\nδ"];
    for s in samples {
        let std_lines: Vec<&str> = s.lines().collect();
        for row in 0..std_lines.len() + 2 {
            let want = s.lines().nth(row).unwrap_or("");
            assert_eq!(line(s, row), want, "sample {:?} row {}", s, row);
        }
    }
}

#[test]
fn extension_follows_path_rules() {
    assert_eq!(extension_of("src/main.rs"), "rs");
    assert_eq!(extension_of("./a/b.tar.gz"), "gz");
    assert_eq!(extension_of("Makefile"), "");
    assert_eq!(extension_of(".bashrc"), "");
    assert_eq!(extension_of("dir/.hidden"), "");
    assert_eq!(extension_of("dir/.hidden.py"), "py");
    assert_eq!(extension_of("a."), "");
    assert_eq!(extension_of("dir.d/file"), "");
    assert_eq!(extension_of("x/y.go/"), "go");
    assert_eq!(extension_of("x/y.go/."), "go");
    assert_eq!(extension_of("x/.."), "");
    assert_eq!(extension_of(""), "");
    assert_eq!(extension_of("/"), "");
}

#[test]
fn extension_agrees_with_std() {
    let samples = [
        "a.rs", "a/b/c.py", ".x", "..", ".", "a..b", "a.b.", "/r/s.t/", "x/./y.h", "x/y.h/.", "//a.c//", "a/../b.ts",
    ];
    for p in samples {
        let want = std::path::Path::new(p).extension().and_then(|e| e.to_str()).unwrap_or("");
        assert_eq!(extension_of(p), want, "path {:?}", p);
    }
}

#[test]
fn substring_and_equality() {
    assert!(contains_str("std::collections::HashMap", "collections"));
    assert!(contains_str("abc", ""));
    assert!(contains_str("abc", "abc"));
    assert!(!contains_str("abc", "abcd"));
    assert!(!contains_str("abc", "ac"));
    assert!(str_eq("main", "main"));
    assert!(!str_eq("main", "Main"));
    assert!(!str_eq("main", "mai"));
    assert_eq!(chars_of("hé"), vec!['h', 'é']);
}
