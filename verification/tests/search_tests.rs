use pyfastgrep::matcher::LineHit;
use pyfastgrep::search::hits_from_lines;
use pyfastgrep::search::{build_glob, build_matcher, collect_paths, search, search_entry, search_file, FileEntry, SearchConfig};

fn entry(path: &str, content: &str) -> FileEntry {
    FileEntry {
        path: path.to_string(),
        is_file: true,
        size: Some(content.len() as u64),
        content: Some(content.as_bytes().to_vec()),
    }
}

fn hits(r: &[pyfastgrep::SearchHit]) -> Vec<(String, usize, String)> {
    r.iter().map(|h| (h.file.clone(), h.line, h.content.clone())).collect()
}

fn sample() -> Vec<FileEntry> {
    vec![
        entry("src/lib.rs", "fn one() {}\nlet x = 1;\nfn two() {}\n"),
        FileEntry { path: "src".to_string(), is_file: false, size: Some(4096), content: None },
        entry("README.md", "Use fn here\n"),
        entry("empty.rs", ""),
        FileEntry { path: "locked.rs".to_string(), is_file: true, size: Some(10), content: None },
        entry("src/main.rs", "FN upper\nfn lower\n"),
    ]
}

#[test]
fn config_defaults() {
    let c = SearchConfig::new("fn".to_string(), ".".to_string());
    assert_eq!(c.pattern, "fn");
    assert_eq!(c.root, ".");
    assert!(c.glob.is_none());
    assert!(c.max_results.is_none());
    assert!(!c.ignore_case);
}

#[test]
fn search_reports_matching_lines_in_walk_order() {
    let c = SearchConfig::new("fn".to_string(), ".".to_string());
    let r = search(&c, &sample()).unwrap();
    assert_eq!(
        hits(&r),
        vec![
            ("src/lib.rs".to_string(), 1, "fn one() {}\n".to_string()),
            ("src/lib.rs".to_string(), 3, "fn two() {}\n".to_string()),
            ("README.md".to_string(), 1, "Use fn here\n".to_string()),
            ("src/main.rs".to_string(), 2, "fn lower\n".to_string()),
        ]
    );
}

#[test]
fn search_ignore_case() {
    let mut c = SearchConfig::new("fn".to_string(), ".".to_string());
    c.ignore_case = true;
    c.glob = Some("*main.rs".to_string());
    let r = search(&c, &sample()).unwrap();
    assert_eq!(
        hits(&r),
        vec![
            ("src/main.rs".to_string(), 1, "FN upper\n".to_string()),
            ("src/main.rs".to_string(), 2, "fn lower\n".to_string()),
        ]
    );
}

#[test]
fn search_glob_filters_paths() {
    let mut c = SearchConfig::new("fn".to_string(), ".".to_string());
    c.glob = Some("*.md".to_string());
    let r = search(&c, &sample()).unwrap();
    assert_eq!(hits(&r), vec![("README.md".to_string(), 1, "Use fn here\n".to_string())]);
}

#[test]
fn search_limit_keeps_first_hits() {
    let mut c = SearchConfig::new("fn".to_string(), ".".to_string());
    c.max_results = Some(2);
    let r = search(&c, &sample()).unwrap();
    assert_eq!(r.len(), 2);
    assert_eq!(r[1].line, 3);
    c.max_results = Some(0);
    assert!(search(&c, &sample()).unwrap().is_empty());
    c.max_results = Some(100);
    assert_eq!(search(&c, &sample()).unwrap().len(), 4);
}

#[test]
fn search_reports_bad_pattern_first() {
    let mut c = SearchConfig::new("(".to_string(), ".".to_string());
    c.glob = Some("[".to_string());
    let e = search(&c, &sample()).unwrap_err();
    assert_eq!(e, build_matcher("(", false).err().unwrap());
    let mut c = SearchConfig::new("fn".to_string(), ".".to_string());
    c.glob = Some("[".to_string());
    let e = search(&c, &sample()).unwrap_err();
    assert_eq!(e, build_glob(&Some("[".to_string())).err().unwrap());
    assert!(!e.is_empty());
}

#[test]
fn build_glob_cases() {
    assert!(matches!(build_glob(&None), Ok(None)));
    assert!(matches!(build_glob(&Some("*.rs".to_string())), Ok(Some(_))));
    assert!(build_glob(&Some("a[".to_string())).is_err());
}

#[test]
fn collect_paths_selects_globbed_files() {
    let g = build_glob(&Some("*.rs".to_string())).unwrap();
    assert_eq!(
        collect_paths(&sample(), &g),
        vec!["src/lib.rs".to_string(), "empty.rs".to_string(), "locked.rs".to_string(), "src/main.rs".to_string()]
    );
    assert_eq!(collect_paths(&sample(), &None).len(), 5);
}

#[test]
fn search_file_cases() {
    let m = build_matcher("b+", false).unwrap();
    let path = "f.txt".to_string();
    let bytes = Some(b"abb\nxyz\nb".to_vec());
    assert!(search_file(&path, Some(10), &None, &m).is_empty());
    assert!(search_file(&path, None, &bytes, &m).is_empty());
    assert!(search_file(&path, Some(0), &bytes, &m).is_empty());
    let r = search_file(&path, Some(10), &bytes, &m);
    assert_eq!(hits(&r), vec![(path.clone(), 1, "abb\n".to_string()), (path.clone(), 3, "b".to_string())]);
}

#[test]
fn zero_length_metadata_means_no_hits() {
    // Like a procfs file: the metadata says 0 bytes though the read gave some.
    let entries = vec![FileEntry {
        path: "proc.txt".to_string(),
        is_file: true,
        size: Some(0),
        content: Some(b"fn here\n".to_vec()),
    }];
    let c = SearchConfig::new("fn".to_string(), ".".to_string());
    assert!(search(&c, &entries).unwrap().is_empty());
}

#[test]
fn streaming_steps_give_the_batch_hits() {
    let c = SearchConfig::new("fn".to_string(), ".".to_string());
    let m = build_matcher("fn", false).unwrap();
    let g = build_glob(&None).unwrap();
    let mut streamed = Vec::new();
    for e in sample().iter() {
        streamed.extend(search_entry(e, &g, &m));
    }
    assert_eq!(hits(&streamed), hits(&search(&c, &sample()).unwrap()));
}

#[test]
fn limited_search_is_a_prefix_of_the_full_search() {
    let full = search(&SearchConfig::new("fn".to_string(), ".".to_string()), &sample()).unwrap();
    for n in 0..6 {
        let mut c = SearchConfig::new("fn".to_string(), ".".to_string());
        c.max_results = Some(n);
        let part = search(&c, &sample()).unwrap();
        assert!(part.len() <= n);
        assert_eq!(hits(&part), hits(&full[..part.len()]));
    }
}

#[test]
fn refused_pattern_is_reported_whatever_the_files() {
    let c = SearchConfig::new("a(".to_string(), ".".to_string());
    let with_files = search(&c, &sample()).unwrap_err();
    let without = search(&c, &Vec::new()).unwrap_err();
    assert_eq!(with_files, without);
}

#[test]
fn hits_name_searched_files_only() {
    let mut c = SearchConfig::new(".".to_string(), ".".to_string());
    c.glob = Some("*.rs".to_string());
    let r = search(&c, &sample()).unwrap();
    assert!(!r.is_empty());
    for h in &r {
        assert!(h.file == "src/lib.rs" || h.file == "src/main.rs");
        assert!(h.line >= 1);
    }
}

#[test]
fn hits_from_lines_attach_the_path() {
    let lines = vec![
        LineHit { line: 4, text: "alpha\n".to_string() },
        LineHit { line: 9, text: "beta".to_string() },
    ];
    let r = hits_from_lines(&"p/q.txt".to_string(), &lines);
    assert_eq!(hits(&r), vec![("p/q.txt".to_string(), 4, "alpha\n".to_string()), ("p/q.txt".to_string(), 9, "beta".to_string())]);
    assert!(hits_from_lines(&"x".to_string(), &Vec::new()).is_empty());
}
