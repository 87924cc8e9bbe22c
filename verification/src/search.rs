//! Regular-expression search over the files of a directory tree.
//!
//! Walking the tree and reading the files is the caller's part; what is
//! decided here is which entries are searched, what each one yields, in
//! which order, and how many hits are kept.

use vstd::prelude::*;
use crate::glob::{parse_glob, glob_set_of, glob_refusal, glob_set_refusal, glob_matches, GlobFilter};
use crate::matcher::{compile_regex, search_bytes, regex_refusal, matching_lines, LineMatcher, LineHit};

verus! {

/// What to search for and where.
#[derive(Clone, Debug)]
pub struct SearchConfig {
    /// The regular expression.
    pub pattern: String,
    /// The directory the search starts from.
    pub root: String,
    /// A glob that the searched paths must match.
    pub glob: Option<String>,
    /// The most hits to report.
    pub max_results: Option<usize>,
    /// Whether letters match regardless of case.
    pub ignore_case: bool,
}

impl SearchConfig {
    /// A search for `pattern` under `root`, with no glob, no limit and
    /// case-sensitive matching.
    pub fn new(pattern: String, root: String) -> (r: Self)
        ensures
            r.pattern == pattern,
            r.root == root,
            r.glob is None,
            r.max_results is None,
            !r.ignore_case,
    {
        SearchConfig { pattern, root, glob: None, max_results: None, ignore_case: false }
    }
}

/// One matching line of one file.
#[derive(Clone, Debug)]
pub struct SearchHit {
    /// The path of the file.
    pub file: String,
    /// The (one-based) line number.
    pub line: usize,
    /// The text of the line, line terminator included.
    pub content: String,
}

impl View for SearchHit {
    type V = (Seq<char>, usize, Seq<char>);

    open spec fn view(&self) -> (Seq<char>, usize, Seq<char>) {
        (self.file@, self.line, self.content@)
    }
}

/// An entry met while walking the directory tree: its path, whether it is a
/// regular file, its length as its metadata gives it (none where the metadata
/// could not be read), and its bytes where they were read.
pub struct FileEntry {
    pub path: String,
    pub is_file: bool,
    pub size: Option<u64>,
    pub content: Option<Vec<u8>>,
}

/// The view of an optional string.
pub open spec fn opt_chars(o: Option<String>) -> Option<Seq<char>> {
    match o {
        Some(s) => Some(s@),
        None => None,
    }
}

/// What is wrong with a glob pattern, if anything: the first refusal among
/// parsing the glob and building its set.
pub open spec fn glob_problem(g: Seq<char>) -> Option<Seq<char>> {
    match glob_refusal(g) {
        Some(e) => Some(e),
        None => glob_set_refusal(g),
    }
}

/// What is wrong with a search configuration, if anything: the regular
/// expression is checked first, then the glob.
pub open spec fn config_problem(c: SearchConfig) -> Option<Seq<char>> {
    match regex_refusal(c.pattern@, c.ignore_case) {
        Some(e) => Some(e),
        None => match c.glob {
            Some(g) => glob_problem(g@),
            None => None,
        },
    }
}

/// Whether the glob (if any) lets a path through.
pub open spec fn glob_admits(glob: Option<Seq<char>>, path: Seq<char>) -> bool {
    match glob {
        None => true,
        Some(g) => glob_matches(g, path),
    }
}

/// Whether a walked entry is searched: it is a regular file whose path the
/// glob lets through.
pub open spec fn entry_selected(e: FileEntry, glob: Option<Seq<char>>) -> bool {
    e.is_file && glob_admits(glob, e.path@)
}

/// The hits of one file: nothing when its metadata could not be read, when
/// the metadata gives length 0, or when its bytes could not be read; else
/// each matching line with the file's path.
pub open spec fn file_hits(
    path: Seq<char>,
    size: Option<u64>,
    content: Option<Vec<u8>>,
    pattern: Seq<char>,
    ignore_case: bool,
) -> Seq<(Seq<char>, usize, Seq<char>)> {
    match size {
        None => Seq::empty(),
        Some(n) => if n == 0 {
            Seq::empty()
        } else {
            match content {
                None => Seq::empty(),
                Some(bytes) => matching_lines(pattern, ignore_case, bytes@).map_values(
                    |h: (usize, Seq<char>)| (path, h.0, h.1),
                ),
            }
        },
    }
}

/// The hits of one walked entry: those of its file where the glob selects
/// it, nothing otherwise.
pub open spec fn entry_step_hits(
    e: FileEntry,
    glob: Option<Seq<char>>,
    pattern: Seq<char>,
    ignore_case: bool,
) -> Seq<(Seq<char>, usize, Seq<char>)> {
    if entry_selected(e, glob) {
        file_hits(e.path@, e.size, e.content, pattern, ignore_case)
    } else {
        Seq::empty()
    }
}

/// The hits of all selected entries, entry after entry, in walk order.
pub open spec fn all_hits(
    entries: Seq<FileEntry>,
    glob: Option<Seq<char>>,
    pattern: Seq<char>,
    ignore_case: bool,
) -> Seq<(Seq<char>, usize, Seq<char>)>
    decreases entries.len(),
{
    if entries.len() == 0 {
        Seq::empty()
    } else {
        let e = entries.last();
        all_hits(entries.drop_last(), glob, pattern, ignore_case) + if entry_selected(e, glob) {
            file_hits(e.path@, e.size, e.content, pattern, ignore_case)
        } else {
            Seq::empty()
        }
    }
}

/// The first `max` elements of `s` where a limit is given and `s` is longer.
pub open spec fn limited<T>(s: Seq<T>, max: Option<usize>) -> Seq<T> {
    match max {
        Some(n) => if n < s.len() {
            s.take(n as int)
        } else {
            s
        },
        None => s,
    }
}

/// The outcome of a search over the walked entries: the configuration's
/// problem, or the hits of the selected entries cut to the limit.
pub open spec fn search_outcome(c: SearchConfig, entries: Seq<FileEntry>) -> Result<
    Seq<(Seq<char>, usize, Seq<char>)>,
    Seq<char>,
> {
    match config_problem(c) {
        Some(e) => Err(e),
        None => Ok(
            limited(all_hits(entries, opt_chars(c.glob), c.pattern@, c.ignore_case), c.max_results),
        ),
    }
}

/// Compiles the regular expression, folding case if asked.
pub fn build_matcher(pattern: &str, ignore_case: bool) -> (r: Result<LineMatcher, String>)
    ensures
        r is Ok <==> regex_refusal(pattern@, ignore_case) is None,
        r matches Ok(m) ==> m.pattern() == pattern@ && m.ignore_case() == ignore_case,
        r matches Err(e) ==> regex_refusal(pattern@, ignore_case) == Some(e@),
{
    compile_regex(pattern, ignore_case)
}

/// Compiles the glob, if one is given, into a set that paths are matched
/// against.
pub fn build_glob(glob: &Option<String>) -> (r: Result<Option<GlobFilter>, String>)
    ensures
        glob is None ==> r matches Ok(None),
        glob matches Some(g) ==> match glob_problem(g@) {
            Some(e) => r matches Err(m) && m@ == e,
            None => r matches Ok(Some(f)) && f.pattern() == g@,
        },
{
    match glob {
        Some(g) => {
            let parsed = match parse_glob(g.as_str()) {
                Ok(p) => p,
                Err(e) => {
                    return Err(e);
                },
            };
            match glob_set_of(parsed) {
                Ok(f) => Ok(Some(f)),
                Err(e) => Err(e),
            }
        },
        None => Ok(None),
    }
}

/// The view of an optional compiled glob: the pattern it was made from.
pub open spec fn filter_pattern(glob: Option<GlobFilter>) -> Option<Seq<char>> {
    match glob {
        Some(f) => Some(f.pattern()),
        None => None,
    }
}

/// Whether a walked entry is searched under the compiled glob.
pub fn is_selected(entry: &FileEntry, glob: &Option<GlobFilter>) -> (r: bool)
    ensures
        r == entry_selected(*entry, filter_pattern(*glob)),
{
    if !entry.is_file {
        return false;
    }
    match glob {
        Some(f) => f.is_match(entry.path.as_str()),
        None => true,
    }
}

/// The paths of the walked entries that are searched, in walk order.
pub fn collect_paths(entries: &Vec<FileEntry>, glob: &Option<GlobFilter>) -> (r: Vec<String>)
    ensures
        r@.map_values(|p: String| p@) == entries@.filter(
            |e: FileEntry| entry_selected(e, filter_pattern(*glob)),
        ).map_values(|e: FileEntry| e.path@),
{
    let ghost sel = |e: FileEntry| entry_selected(e, filter_pattern(*glob));
    let mut out: Vec<String> = Vec::new();
    let mut i: usize = 0;
    while i < entries.len()
        invariant
            i <= entries@.len(),
            sel == (|e: FileEntry| entry_selected(e, filter_pattern(*glob))),
            out@.map_values(|p: String| p@) == entries@.take(i as int).filter(sel).map_values(
                |e: FileEntry| e.path@,
            ),
        decreases entries@.len() - i,
    {
        proof {
            reveal_with_fuel(Seq::filter, 1);
            assert(entries@.take(i + 1).drop_last() =~= entries@.take(i as int));
        }
        let ghost before = out@;
        let ghost prev = entries@.take(i as int).filter(sel);
        assert(entries@.take(i + 1).filter(sel) == if sel(entries@[i as int]) {
            prev.push(entries@[i as int])
        } else {
            prev
        });
        if is_selected(&entries[i], glob) {
            out.push(entries[i].path.clone());
            assert(prev.push(entries@[i as int]).map_values(|e: FileEntry| e.path@)
                =~= prev.map_values(|e: FileEntry| e.path@).push(entries@[i as int].path@));
            assert(out@.map_values(|p: String| p@) =~= before.map_values(|p: String| p@).push(entries@[i as int].path@));
        }
        proof {
            assert(out@.map_values(|p: String| p@) =~= entries@.take(i + 1).filter(sel).map_values(
                |e: FileEntry| e.path@,
            ));
        }
        i = i + 1;
    }
    assert(entries@.take(entries@.len() as int) =~= entries@);
    out
}

/// The hits that the matching lines of one file give: each line, in order,
/// with the file's path.
pub fn hits_from_lines(path: &String, lines: &Vec<LineHit>) -> (r: Vec<SearchHit>)
    ensures
        r@.map_values(|h: SearchHit| h@) == lines@.map_values(|h: LineHit| h@).map_values(
            |h: (usize, Seq<char>)| (path@, h.0, h.1),
        ),
        forall|i: int| 0 <= i < r@.len() ==> #[trigger] r@[i].line == lines@[i].line,
{
    let ghost expected = lines@.map_values(|h: LineHit| h@);
    let mut out: Vec<SearchHit> = Vec::new();
    let mut k: usize = 0;
    while k < lines.len()
        invariant
            k <= lines@.len(),
            expected == lines@.map_values(|h: LineHit| h@),
            out@.len() == k,
            forall|j: int| 0 <= j < k ==> #[trigger] out@[j]@ == (path@, lines@[j].line, lines@[j].text@),
        decreases lines@.len() - k,
    {
        out.push(SearchHit { file: path.clone(), line: lines[k].line, content: lines[k].text.clone() });
        k = k + 1;
    }
    assert forall|j: int| 0 <= j < out@.len() implies
        #[trigger] out@[j]@ == (path@, expected[j].0, expected[j].1) by {
        assert(expected[j] == lines@.map_values(|h: LineHit| h@)[j]);
    }
    assert(out@.map_values(|h: SearchHit| h@) =~= expected.map_values(
        |h: (usize, Seq<char>)| (path@, h.0, h.1),
    ));
    assert forall|i: int| 0 <= i < out@.len() implies #[trigger] out@[i].line == lines@[i].line by {
        assert(out@[i]@ == (path@, lines@[i].line, lines@[i].text@));
    }
    out
}

/// The hits of one file, given its path, its length as its metadata gives
/// it, and its bytes: nothing where the metadata could not be read or gives
/// length 0, or the bytes could not be read; else each matching line in order,
/// with line numbers from 1 that rise strictly.
pub fn search_file(path: &String, size: Option<u64>, content: &Option<Vec<u8>>, matcher: &LineMatcher) -> (r: Vec<SearchHit>)
    ensures
        r@.map_values(|h: SearchHit| h@) == file_hits(path@, size, *content, matcher.pattern(), matcher.ignore_case()),
        forall|i: int| 0 <= i < r@.len() ==> 1 <= #[trigger] r@[i].line,
        forall|i: int, j: int| 0 <= i < j < r@.len() ==> #[trigger] r@[i].line < #[trigger] r@[j].line,
{
    match size {
        None => {
            return Vec::new();
        },
        Some(n) => {
            if n == 0 {
                return Vec::new();
            }
        },
    }
    match content {
        None => Vec::new(),
        Some(bytes) => {
            let lines = search_bytes(matcher, bytes.as_slice());
            hits_from_lines(path, &lines)
        },
    }
}

/// One step of a streaming search: the hits of one walked entry, which are
/// those of its file where the glob selects it and nothing otherwise. The
/// hits of a whole walk are these steps' hits, entry after entry
/// (`lemma_search_steps_make_all_hits`).
pub fn search_entry(entry: &FileEntry, glob: &Option<GlobFilter>, matcher: &LineMatcher) -> (r: Vec<SearchHit>)
    ensures
        r@.map_values(|h: SearchHit| h@) == entry_step_hits(
            *entry,
            filter_pattern(*glob),
            matcher.pattern(),
            matcher.ignore_case(),
        ),
{
    if is_selected(entry, glob) {
        search_file(&entry.path, entry.size, &entry.content, matcher)
    } else {
        let out: Vec<SearchHit> = Vec::new();
        assert(out@.map_values(|h: SearchHit| h@) =~= Seq::<(Seq<char>, usize, Seq<char>)>::empty());
        out
    }
}

/// Searches the walked entries: compiles the regular expression and the
/// glob (reporting the first one refused), then collects, entry after entry,
/// the hits of every regular file whose path the glob lets through, and
/// keeps at most `max_results` of them.
pub fn search(config: &SearchConfig, entries: &Vec<FileEntry>) -> (r: Result<Vec<SearchHit>, String>)
    ensures
        match search_outcome(*config, entries@) {
            Ok(hits) => r matches Ok(v) && v@.map_values(|h: SearchHit| h@) == hits,
            Err(e) => r matches Err(m) && m@ == e,
        },
{
    let matcher = match build_matcher(config.pattern.as_str(), config.ignore_case) {
        Ok(m) => m,
        Err(e) => {
            return Err(e);
        },
    };
    let glob = match build_glob(&config.glob) {
        Ok(g) => g,
        Err(e) => {
            return Err(e);
        },
    };
    assert(filter_pattern(glob) == opt_chars(config.glob));
    let ghost pattern = config.pattern@;
    let ghost gview = opt_chars(config.glob);
    let mut results: Vec<SearchHit> = Vec::new();
    let mut i: usize = 0;
    while i < entries.len()
        invariant
            i <= entries@.len(),
            matcher.pattern() == pattern,
            matcher.ignore_case() == config.ignore_case,
            filter_pattern(glob) == gview,
            results@.map_values(|h: SearchHit| h@) == all_hits(entries@.take(i as int), gview, pattern, config.ignore_case),
        decreases entries@.len() - i,
    {
        assert(entries@.take(i + 1).drop_last() =~= entries@.take(i as int));
        assert(entries@.take(i + 1).last() == entries@[i as int]);
        let ghost before = results@;
        if is_selected(&entries[i], &glob) {
            let mut hits = search_file(&entries[i].path, entries[i].size, &entries[i].content, &matcher);
            let ghost added = hits@;
            results.append(&mut hits);
            assert(results@.map_values(|h: SearchHit| h@) =~= before.map_values(|h: SearchHit| h@)
                + added.map_values(|h: SearchHit| h@));
        } else {
            assert(results@.map_values(|h: SearchHit| h@) =~= before.map_values(|h: SearchHit| h@)
                + Seq::<(Seq<char>, usize, Seq<char>)>::empty());
        }
        i = i + 1;
    }
    assert(entries@.take(entries@.len() as int) =~= entries@);
    if let Some(max) = config.max_results {
        let ghost before = results@;
        results.truncate(max);
        assert(results@.map_values(|h: SearchHit| h@) =~= limited(before.map_values(|h: SearchHit| h@), config.max_results));
    }
    Ok(results)
}

/// A limit only cuts the hit list: with `max_results` set to `n`, a search
/// reports at most `n` hits, and they are the first hits of the same search
/// without a limit.
pub proof fn lemma_limit_keeps_a_prefix(
    limited_config: SearchConfig,
    unlimited_config: SearchConfig,
    entries: Seq<FileEntry>,
    n: usize,
)
    requires
        limited_config.max_results == Some(n),
        unlimited_config.max_results is None,
        unlimited_config.pattern == limited_config.pattern,
        unlimited_config.glob == limited_config.glob,
        unlimited_config.ignore_case == limited_config.ignore_case,
    ensures
        search_outcome(limited_config, entries) matches Ok(hits) ==> {
            &&& hits.len() <= n
            &&& search_outcome(unlimited_config, entries) matches Ok(all) && hits == all.take(hits.len() as int)
        },
{
    let all = all_hits(entries, opt_chars(limited_config.glob), limited_config.pattern@, limited_config.ignore_case);
    if n >= all.len() {
        assert(all == all.take(all.len() as int));
    }
}

/// A refused pattern or glob is reported whatever the walk found.
pub proof fn lemma_problem_ignores_files(c: SearchConfig, some: Seq<FileEntry>, other: Seq<FileEntry>)
    ensures
        search_outcome(c, some) is Err ==> search_outcome(c, other) == search_outcome(c, some),
{
}

/// Every hit of the selected entries comes from one selected entry.
proof fn lemma_all_hits_origin(
    entries: Seq<FileEntry>,
    glob: Option<Seq<char>>,
    pattern: Seq<char>,
    ignore_case: bool,
    x: (Seq<char>, usize, Seq<char>),
)
    requires
        all_hits(entries, glob, pattern, ignore_case).contains(x),
    ensures
        exists|i: int| 0 <= i < entries.len() && entry_selected(#[trigger] entries[i], glob)
            && file_hits(entries[i].path@, entries[i].size, entries[i].content, pattern, ignore_case).contains(x),
    decreases entries.len(),
{
    let rest = entries.drop_last();
    let prior = all_hits(rest, glob, pattern, ignore_case);
    let e = entries.last();
    if prior.contains(x) {
        lemma_all_hits_origin(rest, glob, pattern, ignore_case, x);
        let i = choose|i: int| 0 <= i < rest.len() && entry_selected(#[trigger] rest[i], glob)
            && file_hits(rest[i].path@, rest[i].size, rest[i].content, pattern, ignore_case).contains(x);
        assert(entries[i] == rest[i]);
    } else {
        let all = all_hits(entries, glob, pattern, ignore_case);
        let k = choose|k: int| 0 <= k < all.len() && all[k] == x;
        if entry_selected(e, glob) {
            let added = file_hits(e.path@, e.size, e.content, pattern, ignore_case);
            assert(all == prior + added);
            assert(added[k - prior.len()] == x);
            assert(added.contains(x));
        } else {
            assert(all =~= prior);
        }
        assert(entries[entries.len() - 1] == e);
    }
}

/// Each reported hit names a searched entry (a regular file that the glob
/// lets through, whose metadata gives a length above 0, and that was read)
/// and is one of that file's matching lines, with its number and text.
pub proof fn lemma_hit_origin(c: SearchConfig, entries: Seq<FileEntry>, x: (Seq<char>, usize, Seq<char>))
    requires
        search_outcome(c, entries) matches Ok(hits) && hits.contains(x),
    ensures
        exists|i: int| 0 <= i < entries.len() && {
            let e = #[trigger] entries[i];
            &&& entry_selected(e, opt_chars(c.glob))
            &&& e.path@ == x.0
            &&& e.size matches Some(n) && n > 0
            &&& e.content matches Some(bytes) && matching_lines(c.pattern@, c.ignore_case, bytes@).contains((x.1, x.2))
        },
{
    let g = opt_chars(c.glob);
    let all = all_hits(entries, g, c.pattern@, c.ignore_case);
    let hits = limited(all, c.max_results);
    let k = choose|k: int| 0 <= k < hits.len() && hits[k] == x;
    assert(all[k] == x);
    assert(all.contains(x));
    lemma_all_hits_origin(entries, g, c.pattern@, c.ignore_case, x);
    let i = choose|i: int| 0 <= i < entries.len() && entry_selected(#[trigger] entries[i], g)
        && file_hits(entries[i].path@, entries[i].size, entries[i].content, c.pattern@, c.ignore_case).contains(x);
    let e = entries[i];
    let fh = file_hits(e.path@, e.size, e.content, c.pattern@, c.ignore_case);
    let j = choose|j: int| 0 <= j < fh.len() && fh[j] == x;
    let bytes = e.content.unwrap();
    let ml = matching_lines(c.pattern@, c.ignore_case, bytes@);
    assert(ml[j] == (x.1, x.2));
    assert(ml.contains((x.1, x.2)));
}

/// A walked entry is searched exactly when it is a regular file that the glob
/// (if any) matches: without a glob every regular file is searched, whatever
/// its path looks like (`./src/lib.rs`, `../x`, `.hidden`), and with one,
/// every regular file whose path the glob matches.
pub proof fn lemma_selection_is_file_and_glob(e: FileEntry, g: Seq<char>)
    ensures
        entry_selected(e, None) == e.is_file,
        entry_selected(e, Some(g)) == (e.is_file && glob_matches(g, e.path@)),
{
}

/// A hit of one selected entry is a hit of the selected entries.
proof fn lemma_file_hits_reach_all(
    entries: Seq<FileEntry>,
    glob: Option<Seq<char>>,
    pattern: Seq<char>,
    ignore_case: bool,
    i: int,
    x: (Seq<char>, usize, Seq<char>),
)
    requires
        0 <= i < entries.len(),
        entry_selected(entries[i], glob),
        file_hits(entries[i].path@, entries[i].size, entries[i].content, pattern, ignore_case).contains(x),
    ensures
        all_hits(entries, glob, pattern, ignore_case).contains(x),
    decreases entries.len(),
{
    let rest = entries.drop_last();
    let prior = all_hits(rest, glob, pattern, ignore_case);
    let all = all_hits(entries, glob, pattern, ignore_case);
    if i < entries.len() - 1 {
        assert(rest[i] == entries[i]);
        lemma_file_hits_reach_all(rest, glob, pattern, ignore_case, i, x);
        let k = choose|k: int| 0 <= k < prior.len() && prior[k] == x;
        assert(all[k] == prior[k]);
    } else {
        let e = entries[i];
        let added = file_hits(e.path@, e.size, e.content, pattern, ignore_case);
        let k = choose|k: int| 0 <= k < added.len() && added[k] == x;
        assert(all == prior + added);
        assert(all[prior.len() + k] == x);
    }
}

/// A search without a limit loses no match: every matching line of every
/// walked regular file that the glob (if any) matches, whose metadata gives a
/// length above 0 and whose bytes were read, is reported with that file's
/// path, the line's number and its text.
pub proof fn lemma_search_reports_every_match(c: SearchConfig, entries: Seq<FileEntry>, i: int, k: int)
    requires
        config_problem(c) is None,
        c.max_results is None,
        0 <= i < entries.len(),
        entries[i].is_file,
        c.glob matches Some(g) ==> glob_matches(g@, entries[i].path@),
        entries[i].size matches Some(n) && n > 0,
        entries[i].content matches Some(b) && 0 <= k < matching_lines(c.pattern@, c.ignore_case, b@).len(),
    ensures
        search_outcome(c, entries) matches Ok(hits) && hits.contains(
            (
                entries[i].path@,
                matching_lines(c.pattern@, c.ignore_case, entries[i].content.unwrap()@)[k].0,
                matching_lines(c.pattern@, c.ignore_case, entries[i].content.unwrap()@)[k].1,
            ),
        ),
{
    let e = entries[i];
    let g = opt_chars(c.glob);
    let ml = matching_lines(c.pattern@, c.ignore_case, e.content.unwrap()@);
    let fh = file_hits(e.path@, e.size, e.content, c.pattern@, c.ignore_case);
    let x = (e.path@, ml[k].0, ml[k].1);
    assert(fh[k] == x);
    assert(fh.contains(x));
    lemma_file_hits_reach_all(entries, g, c.pattern@, c.ignore_case, i, x);
}

/// Whether a hit names a path that the glob matches.
pub open spec fn hit_in_glob(g: Seq<char>) -> spec_fn((Seq<char>, usize, Seq<char>)) -> bool {
    |h: (Seq<char>, usize, Seq<char>)| glob_matches(g, h.0)
}

/// Filtering keeps a sequence whose elements all pass, and empties one whose
/// elements all fail.
pub proof fn lemma_filter_uniform<T>(s: Seq<T>, pred: spec_fn(T) -> bool)
    ensures
        (forall|i: int| 0 <= i < s.len() ==> #[trigger] pred(s[i])) ==> s.filter(pred) == s,
        (forall|i: int| 0 <= i < s.len() ==> !#[trigger] pred(s[i])) ==> s.filter(pred) == Seq::<T>::empty(),
    decreases s.len(),
{
    reveal(Seq::filter);
    if s.len() > 0 {
        lemma_filter_uniform(s.drop_last(), pred);
        if forall|i: int| 0 <= i < s.len() ==> #[trigger] pred(s[i]) {
            assert forall|i: int| 0 <= i < s.drop_last().len() implies #[trigger] pred(s.drop_last()[i]) by {
                assert(s.drop_last()[i] == s[i]);
            }
            assert(pred(s[s.len() - 1]));
            assert(s.drop_last().push(s.last()) =~= s);
        }
        if forall|i: int| 0 <= i < s.len() ==> !#[trigger] pred(s[i]) {
            assert forall|i: int| 0 <= i < s.drop_last().len() implies !#[trigger] pred(s.drop_last()[i]) by {
                assert(s.drop_last()[i] == s[i]);
            }
            assert(!pred(s[s.len() - 1]));
        }
    }
}

/// The hits of one file all name that file.
pub proof fn lemma_file_hits_name_the_file(
    path: Seq<char>,
    size: Option<u64>,
    content: Option<Vec<u8>>,
    pattern: Seq<char>,
    ignore_case: bool,
)
    ensures
        forall|k: int| 0 <= k < file_hits(path, size, content, pattern, ignore_case).len()
            ==> (#[trigger] file_hits(path, size, content, pattern, ignore_case)[k]).0 == path,
{
}

/// Giving a search a glob keeps exactly the hits, in order, whose file the
/// glob matches: on the walked entries, the hits of the files selected by
/// the glob are the hits of all files filtered by the glob.
proof fn lemma_all_hits_under_glob(entries: Seq<FileEntry>, g: Seq<char>, pattern: Seq<char>, ignore_case: bool)
    ensures
        all_hits(entries, Some(g), pattern, ignore_case) == all_hits(entries, None, pattern, ignore_case).filter(
            hit_in_glob(g),
        ),
    decreases entries.len(),
{
    broadcast use Seq::filter_distributes_over_add;
    reveal(Seq::filter);
    if entries.len() == 0 {
    } else {
        let e = entries.last();
        lemma_all_hits_under_glob(entries.drop_last(), g, pattern, ignore_case);
        let fh = file_hits(e.path@, e.size, e.content, pattern, ignore_case);
        let ungated = if entry_selected(e, None) { fh } else { Seq::empty() };
        let gated = if entry_selected(e, Some(g)) { fh } else { Seq::empty() };
        lemma_file_hits_name_the_file(e.path@, e.size, e.content, pattern, ignore_case);
        lemma_filter_uniform(ungated, hit_in_glob(g));
        if entry_selected(e, None) && glob_matches(g, e.path@) {
            assert forall|i: int| 0 <= i < ungated.len() implies #[trigger] hit_in_glob(g)(ungated[i]) by {
                assert(ungated[i].0 == e.path@);
            }
        } else if entry_selected(e, None) {
            assert forall|i: int| 0 <= i < ungated.len() implies !#[trigger] hit_in_glob(g)(ungated[i]) by {
                assert(ungated[i].0 == e.path@);
            }
        }
        assert(ungated.filter(hit_in_glob(g)) == gated);
        let rest = all_hits(entries.drop_last(), None, pattern, ignore_case);
        assert((rest + ungated).filter(hit_in_glob(g)) == rest.filter(hit_in_glob(g)) + ungated.filter(hit_in_glob(g)));
    }
}

/// A glob only filters the hits of a search: with a valid glob and no limit,
/// the search reports exactly the hits of the same search without a glob
/// whose file the glob matches, in the same order.
pub proof fn lemma_glob_filters_hits(
    unfiltered: SearchConfig,
    filtered: SearchConfig,
    entries: Seq<FileEntry>,
    g: String,
)
    requires
        unfiltered.glob is None,
        filtered.glob == Some(g),
        glob_problem(g@) is None,
        filtered.pattern == unfiltered.pattern,
        filtered.ignore_case == unfiltered.ignore_case,
        unfiltered.max_results is None,
        filtered.max_results is None,
    ensures
        search_outcome(filtered, entries) == match search_outcome(unfiltered, entries) {
            Ok(hits) => Ok(hits.filter(hit_in_glob(g@))),
            Err(e) => Err(e),
        },
{
    lemma_all_hits_under_glob(entries, g@, unfiltered.pattern@, unfiltered.ignore_case);
}

/// No two entries share a path.
pub open spec fn paths_distinct(entries: Seq<FileEntry>) -> bool {
    forall|i: int, j: int| 0 <= i < j < entries.len() ==> entries[i].path@ != entries[j].path@
}

/// Collecting the searched paths of entries whose paths are distinct gives
/// distinct paths.
pub proof fn lemma_collected_paths_distinct(entries: Seq<FileEntry>, glob: Option<Seq<char>>)
    requires
        paths_distinct(entries),
    ensures
        ({
            let out = entries.filter(|e: FileEntry| entry_selected(e, glob)).map_values(|e: FileEntry| e.path@);
            forall|i: int, j: int| 0 <= i < j < out.len() ==> out[i] != out[j]
        }),
    decreases entries.len(),
{
    broadcast use Seq::lemma_filter_contains_rev;
    reveal(Seq::filter);
    let sel = |e: FileEntry| entry_selected(e, glob);
    if entries.len() > 0 {
        let rest = entries.drop_last();
        assert(paths_distinct(rest)) by {
            assert forall|i: int, j: int| 0 <= i < j < rest.len() implies rest[i].path@ != rest[j].path@ by {
                assert(rest[i] == entries[i] && rest[j] == entries[j]);
            }
        }
        lemma_collected_paths_distinct(rest, glob);
        let f = rest.filter(sel);
        let last = entries.last();
        if sel(last) {
            let out = f.push(last).map_values(|e: FileEntry| e.path@);
            let prev = f.map_values(|e: FileEntry| e.path@);
            assert forall|i: int, j: int| 0 <= i < j < out.len() implies out[i] != out[j] by {
                if j == out.len() - 1 {
                    assert(out[i] == prev[i]);
                    assert(f.contains(f[i]));
                    assert(rest.contains(f[i]));
                    let k = choose|k: int| 0 <= k < rest.len() && rest[k] == f[i];
                    assert(entries[k] == rest[k]);
                    assert(entries[entries.len() - 1] == last);
                } else {
                    assert(out[i] == prev[i] && out[j] == prev[j]);
                }
            }
        }
    }
}

/// A streaming search that hands out the hits of each walked entry in turn
/// hands out exactly the hits of the batch search without a limit: after
/// one more entry, the hits so far grow by that entry's step.
pub proof fn lemma_search_steps_make_all_hits(
    entries: Seq<FileEntry>,
    e: FileEntry,
    glob: Option<Seq<char>>,
    pattern: Seq<char>,
    ignore_case: bool,
)
    ensures
        all_hits(Seq::<FileEntry>::empty(), glob, pattern, ignore_case) == Seq::<(Seq<char>, usize, Seq<char>)>::empty(),
        all_hits(entries.push(e), glob, pattern, ignore_case) == all_hits(entries, glob, pattern, ignore_case)
            + entry_step_hits(e, glob, pattern, ignore_case),
{
    assert(entries.push(e).drop_last() =~= entries);
}

} // verus!
