//! Syntax-aware search: finds where functions, classes or imports with a
//! given name are defined, in the files of the languages that
//! `TargetLanguage` covers.
//!
//! Walking the tree and reading the files is the caller's part; what is
//! decided here is which files are searched, in which language, which
//! captured names count as a hit, what each hit reports, and that no hit is
//! reported twice.

use vstd::prelude::*;
use crate::ast::{TargetLanguage, spec_from_extension, spec_function_query, spec_class_query, spec_import_query};
use crate::glob::GlobFilter;
use crate::search::{build_glob, glob_admits, glob_problem, filter_pattern, opt_chars, hit_in_glob, lemma_filter_uniform};
use crate::glob::glob_matches;
use crate::syntax::{
    Capture, SourceParser, compile_query, parse_source, query_captures,
    query_compiles, run_query, set_language,
};
use crate::text::{chars_of, contains_str, extension_of, has_infix, lemma_has_infix_transitive, line_at, nth_line, path_extension, str_eq};
use tree_sitter::QueryCursor;

verus! {

/// The kind of definition a syntax search looks for.
#[derive(Clone, Copy, Debug, PartialEq, Eq, Structural)]
pub enum AstQueryType {
    Function,
    Class,
    Import,
}

/// A file met while walking the directory tree: its path, whether it is a
/// regular file, and its text where it could be read as UTF-8.
pub struct SourceEntry {
    pub path: String,
    pub is_file: bool,
    pub text: Option<String>,
}

/// A reported definition: file path, one-based line number, and the text of
/// that line.
pub type AstHit = (String, usize, String);

/// The view of a reported definition.
pub open spec fn hit_view(h: AstHit) -> (Seq<char>, usize, Seq<char>) {
    (h.0@, h.1, h.2@)
}

/// The query text for a kind of definition in a language.
pub open spec fn query_text(lang: TargetLanguage, kind: AstQueryType) -> Seq<char> {
    match kind {
        AstQueryType::Function => spec_function_query(lang),
        AstQueryType::Class => spec_class_query(lang),
        AstQueryType::Import => spec_import_query(lang),
    }
}

/// Each kind of syntax search runs the query of its own kind: function
/// searches the function query, class searches the class query, import
/// searches the import query (whose shapes `lemma_function_query_shape`,
/// `lemma_class_query_shape` and `lemma_import_query_shape` state).
pub proof fn lemma_each_kind_runs_its_query(lang: TargetLanguage)
    ensures
        query_text(lang, AstQueryType::Function) == spec_function_query(lang),
        query_text(lang, AstQueryType::Class) == spec_class_query(lang),
        query_text(lang, AstQueryType::Import) == spec_import_query(lang),
{
}

/// The captures that searching one text in a language yields: none when the
/// query does not compile, else what the query finds in the parsed text.
pub open spec fn file_captures(lang: TargetLanguage, kind: AstQueryType, source: Seq<char>) -> Seq<(Seq<char>, usize)> {
    if !query_compiles(lang, query_text(lang, kind)) {
        Seq::empty()
    } else {
        query_captures(lang, query_text(lang, kind), source)
    }
}

/// Whether a captured name counts: for imports, the target occurs in it;
/// for functions and classes, it is the target exactly.
pub open spec fn name_matches(text: Seq<char>, target: Seq<char>, kind: AstQueryType) -> bool {
    match kind {
        AstQueryType::Import => has_infix(text, target),
        _ => text == target,
    }
}

/// The hits that a list of captures of one file gives, in order: each
/// capture whose name counts, as the path, its row plus one, and that line.
pub open spec fn capture_hits(
    path: Seq<char>,
    source: Seq<char>,
    caps: Seq<(Seq<char>, usize)>,
    target: Seq<char>,
    kind: AstQueryType,
) -> Seq<(Seq<char>, usize, Seq<char>)>
    decreases caps.len(),
{
    if caps.len() == 0 {
        Seq::empty()
    } else {
        let c = caps.last();
        capture_hits(path, source, caps.drop_last(), target, kind) + if name_matches(c.0, target, kind) {
            seq![(path, (c.1 + 1) as usize, nth_line(source, c.1 as int))]
        } else {
            Seq::empty()
        }
    }
}

/// Whether a walked entry is searched: a regular file whose path the glob
/// lets through.
pub open spec fn source_selected(e: SourceEntry, glob: Option<Seq<char>>) -> bool {
    e.is_file && glob_admits(glob, e.path@)
}

/// The hits of one entry: none when its extension names no supported
/// language or its text could not be read.
pub open spec fn entry_hits(e: SourceEntry, target: Seq<char>, kind: AstQueryType) -> Seq<(Seq<char>, usize, Seq<char>)> {
    match spec_from_extension(path_extension(e.path@)) {
        None => Seq::empty(),
        Some(lang) => match e.text {
            None => Seq::empty(),
            Some(t) => capture_hits(e.path@, t@, file_captures(lang, kind, t@), target, kind),
        },
    }
}

/// The hits of all selected entries, entry after entry.
pub open spec fn all_entry_hits(
    entries: Seq<SourceEntry>,
    glob: Option<Seq<char>>,
    target: Seq<char>,
    kind: AstQueryType,
) -> Seq<(Seq<char>, usize, Seq<char>)>
    decreases entries.len(),
{
    if entries.len() == 0 {
        Seq::empty()
    } else {
        let e = entries.last();
        all_entry_hits(entries.drop_last(), glob, target, kind) + if source_selected(e, glob) {
            entry_hits(e, target, kind)
        } else {
            Seq::empty()
        }
    }
}

/// `acc` followed by the elements of `items` that are not already present,
/// each first occurrence kept in order.
pub open spec fn dedup_extend<T>(acc: Seq<T>, items: Seq<T>) -> Seq<T>
    decreases items.len(),
{
    if items.len() == 0 {
        acc
    } else {
        let a = dedup_extend(acc, items.drop_last());
        if a.contains(items.last()) {
            a
        } else {
            a.push(items.last())
        }
    }
}

/// Extending by two lists in turn is extending by their concatenation.
pub proof fn lemma_dedup_extend_append<T>(acc: Seq<T>, a: Seq<T>, b: Seq<T>)
    ensures
        dedup_extend(acc, a + b) == dedup_extend(dedup_extend(acc, a), b),
    decreases b.len(),
{
    if b.len() == 0 {
        assert(a + b =~= a);
    } else {
        assert((a + b).drop_last() =~= a + b.drop_last());
        assert((a + b).last() == b.last());
        lemma_dedup_extend_append(acc, a, b.drop_last());
    }
}

/// Searches for definitions of functions named `target_name`.
pub fn search_functions(target_name: &str, entries: &Vec<SourceEntry>, glob: &Option<String>) -> (r: Result<Vec<AstHit>, String>)
    ensures
        match ast_outcome(target_name@, entries@, *glob, AstQueryType::Function) {
            Ok(hits) => r matches Ok(v) && v@.map_values(|h: AstHit| hit_view(h)) == hits,
            Err(e) => r matches Err(m) && m@ == e,
        },
{
    search_ast(target_name, entries, glob, AstQueryType::Function)
}

/// Searches for definitions of classes (structs, types) named `target_name`.
pub fn search_classes(target_name: &str, entries: &Vec<SourceEntry>, glob: &Option<String>) -> (r: Result<Vec<AstHit>, String>)
    ensures
        match ast_outcome(target_name@, entries@, *glob, AstQueryType::Class) {
            Ok(hits) => r matches Ok(v) && v@.map_values(|h: AstHit| hit_view(h)) == hits,
            Err(e) => r matches Err(m) && m@ == e,
        },
{
    search_ast(target_name, entries, glob, AstQueryType::Class)
}

/// Searches for imports (use declarations, includes) that mention `target_name`.
pub fn search_imports(target_name: &str, entries: &Vec<SourceEntry>, glob: &Option<String>) -> (r: Result<Vec<AstHit>, String>)
    ensures
        match ast_outcome(target_name@, entries@, *glob, AstQueryType::Import) {
            Ok(hits) => r matches Ok(v) && v@.map_values(|h: AstHit| hit_view(h)) == hits,
            Err(e) => r matches Err(m) && m@ == e,
        },
{
    search_ast(target_name, entries, glob, AstQueryType::Import)
}

/// A sequence in which no element occurs twice.
pub open spec fn no_repeats<T>(s: Seq<T>) -> bool {
    forall|i: int, j: int| 0 <= i < j < s.len() ==> s[i] != s[j]
}

/// Extending keeps a repeat-free sequence repeat-free, and what it holds is
/// exactly what the start and the added items hold.
pub proof fn lemma_dedup_extend_props<T>(acc: Seq<T>, items: Seq<T>)
    requires
        no_repeats(acc),
    ensures
        no_repeats(dedup_extend(acc, items)),
        forall|x: T| #[trigger] dedup_extend(acc, items).contains(x) <==> (acc.contains(x) || items.contains(x)),
    decreases items.len(),
{
    if items.len() > 0 {
        let rest = items.drop_last();
        let a = dedup_extend(acc, rest);
        lemma_dedup_extend_props(acc, rest);
        assert forall|x: T| #[trigger] items.contains(x) <==> (rest.contains(x) || x == items.last()) by {
            if items.contains(x) {
                let i = choose|i: int| 0 <= i < items.len() && items[i] == x;
                if i < items.len() - 1 {
                    assert(rest[i] == x);
                }
            }
            if rest.contains(x) {
                let i = choose|i: int| 0 <= i < rest.len() && rest[i] == x;
                assert(items[i] == x);
            }
            if x == items.last() {
                assert(items[items.len() - 1] == x);
            }
        }
        if !a.contains(items.last()) {
            let b = a.push(items.last());
            assert forall|i: int, j: int| 0 <= i < j < b.len() implies b[i] != b[j] by {
                if j == b.len() - 1 {
                    assert(a[i] == b[i]);
                }
            }
            assert forall|x: T| #[trigger] b.contains(x) <==> (a.contains(x) || x == items.last()) by {
                if b.contains(x) {
                    let i = choose|i: int| 0 <= i < b.len() && b[i] == x;
                    if i < a.len() {
                        assert(a[i] == x);
                    }
                }
                if a.contains(x) {
                    let i = choose|i: int| 0 <= i < a.len() && a[i] == x;
                    assert(b[i] == x);
                }
                if x == items.last() {
                    assert(b[b.len() - 1] == x);
                }
            }
        }
    }
}

/// The outcome of a syntax search: the glob's problem, or the hits of all
/// selected entries with repeats left out.
pub open spec fn ast_outcome(
    target: Seq<char>,
    entries: Seq<SourceEntry>,
    glob: Option<String>,
    kind: AstQueryType,
) -> Result<Seq<(Seq<char>, usize, Seq<char>)>, Seq<char>> {
    match glob {
        Some(g) => match glob_problem(g@) {
            Some(e) => Err(e),
            None => Ok(dedup_extend(Seq::empty(), all_entry_hits(entries, Some(g@), target, kind))),
        },
        None => Ok(dedup_extend(Seq::empty(), all_entry_hits(entries, None, target, kind))),
    }
}

/// The query text of a kind of definition in a language.
pub fn query_for(lang: TargetLanguage, kind: AstQueryType) -> (r: &'static str)
    ensures
        r@ == query_text(lang, kind),
{
    match kind {
        AstQueryType::Function => lang.function_query(),
        AstQueryType::Class => lang.class_query(),
        AstQueryType::Import => lang.import_query(),
    }
}

/// Parses a text in a language and runs the query for a kind of definition
/// over it, handing the text back with the captures.
pub fn syntax_captures(lang: TargetLanguage, kind: AstQueryType, source: String) -> (r: (Vec<Capture>, String))
    ensures
        r.1@ == source@,
        r.0@.map_values(|c: Capture| c@) == file_captures(lang, kind, source@),
        forall|i: int| 0 <= i < r.0@.len() ==> #[trigger] r.0@[i].row < usize::MAX,
{
    let grammar = lang.get_parser_language();
    let mut parser = SourceParser::new();
    let _ = set_language(&mut parser, &grammar);
    let parsed = match parse_source(&mut parser, &grammar, source) {
        Some(t) => t,
        None => {
            return (Vec::new(), String::new());
        },
    };
    let query = match compile_query(&grammar, query_for(lang, kind)) {
        Some(q) => q,
        None => {
            assert(Seq::<Capture>::empty().map_values(|c: Capture| c@) =~= Seq::<(Seq<char>, usize)>::empty());
            return (Vec::new(), parsed.into_text());
        },
    };
    let mut cursor = QueryCursor::new();
    let captures = run_query(&mut cursor, &query, &parsed);
    (captures, parsed.into_text())
}

/// Whether `results` already holds this hit.
fn holds_hit(results: &Vec<AstHit>, path: &String, line: usize, text: &String) -> (r: bool)
    ensures
        r == results@.map_values(|h: AstHit| hit_view(h)).contains((path@, line, text@)),
{
    let ghost want = (path@, line, text@);
    let ghost views = results@.map_values(|h: AstHit| hit_view(h));
    let mut i: usize = 0;
    while i < results.len()
        invariant
            i <= results@.len(),
            views == results@.map_values(|h: AstHit| hit_view(h)),
            want == (path@, line, text@),
            forall|j: int| 0 <= j < i ==> views[j] != want,
        decreases results@.len() - i,
    {
        let h = &results[i];
        assert(views[i as int] == hit_view(results@[i as int]));
        if h.1 == line && h.0 == *path && h.2 == *text {
            assert(views[i as int] == want);
            return true;
        }
        i = i + 1;
    }
    assert(!views.contains(want)) by {
        if views.contains(want) {
            let j = choose|j: int| 0 <= j < views.len() && views[j] == want;
            assert(views[j] != want);
        }
    }
    false
}

/// The hits that the captures of one file give, in order: each capture
/// whose name counts (contains the target, for imports; equals it, for
/// functions and classes), as the file's path, the capture's row plus one,
/// and the text of that line.
pub fn capture_hits_of(
    path: &String,
    source: &str,
    captures: &Vec<Capture>,
    target: &str,
    kind: AstQueryType,
) -> (r: Vec<AstHit>)
    requires
        forall|i: int| 0 <= i < captures@.len() ==> #[trigger] captures@[i].row < usize::MAX,
    ensures
        r@.map_values(|h: AstHit| hit_view(h)) == capture_hits(
            path@,
            source@,
            captures@.map_values(|c: Capture| c@),
            target@,
            kind,
        ),
{
    let chars = chars_of(source);
    let ghost caps = captures@.map_values(|c: Capture| c@);
    let mut out: Vec<AstHit> = Vec::new();
    let mut k: usize = 0;
    assert(caps.take(0) =~= Seq::<(Seq<char>, usize)>::empty());
    assert(out@.map_values(|h: AstHit| hit_view(h)) =~= Seq::<(Seq<char>, usize, Seq<char>)>::empty());
    while k < captures.len()
        invariant
            k <= captures@.len(),
            chars@ == source@,
            caps == captures@.map_values(|c: Capture| c@),
            forall|i: int| 0 <= i < captures@.len() ==> #[trigger] captures@[i].row < usize::MAX,
            out@.map_values(|h: AstHit| hit_view(h)) == capture_hits(
                path@,
                source@,
                caps.take(k as int),
                target@,
                kind,
            ),
        decreases captures@.len() - k,
    {
        let ghost before = out@.map_values(|h: AstHit| hit_view(h));
        assert(caps.take(k + 1).drop_last() =~= caps.take(k as int));
        assert(caps.take(k + 1).last() == caps[k as int]);
        let cap = &captures[k];
        assert(caps[k as int] == (cap.text@, cap.row));
        let is_match = match kind {
            AstQueryType::Import => contains_str(cap.text.as_str(), target),
            _ => str_eq(cap.text.as_str(), target),
        };
        if is_match {
            let line = cap.row + 1;
            let text = line_at(source, &chars, cap.row);
            out.push((path.clone(), line, text));
            assert(out@.map_values(|h: AstHit| hit_view(h)) =~= before.push((path@, line, text@)));
        } else {
            assert(out@.map_values(|h: AstHit| hit_view(h)) =~= before + Seq::<(Seq<char>, usize, Seq<char>)>::empty());
        }
        k = k + 1;
    }
    assert(caps.take(captures@.len() as int) =~= caps);
    out
}

/// The hits of one walked entry (repeats kept): none when its extension
/// names no supported language or its text could not be read, else the hits
/// of its captures.
pub fn entry_hits_of(entry: &SourceEntry, target: &str, kind: AstQueryType) -> (r: Vec<AstHit>)
    ensures
        r@.map_values(|h: AstHit| hit_view(h)) == entry_hits(*entry, target@, kind),
{
    let ext = extension_of(entry.path.as_str());
    match TargetLanguage::from_extension(ext.as_str()) {
        Some(lang) => match &entry.text {
            Some(text) => {
                let (captures, source) = syntax_captures(lang, kind, text.clone());
                capture_hits_of(&entry.path, source.as_str(), &captures, target, kind)
            },
            None => {
                let out: Vec<AstHit> = Vec::new();
                assert(out@.map_values(|h: AstHit| hit_view(h)) =~= Seq::<(Seq<char>, usize, Seq<char>)>::empty());
                out
            },
        },
        None => {
            let out: Vec<AstHit> = Vec::new();
            assert(out@.map_values(|h: AstHit| hit_view(h)) =~= Seq::<(Seq<char>, usize, Seq<char>)>::empty());
            out
        },
    }
}

/// Appends to `results` each of `items` that `results` does not hold yet,
/// in order.
pub fn extend_unique(results: &mut Vec<AstHit>, items: Vec<AstHit>)
    ensures
        final(results)@.map_values(|h: AstHit| hit_view(h)) == dedup_extend(
            old(results)@.map_values(|h: AstHit| hit_view(h)),
            items@.map_values(|h: AstHit| hit_view(h)),
        ),
{
    let ghost start = results@.map_values(|h: AstHit| hit_view(h));
    let ghost views = items@.map_values(|h: AstHit| hit_view(h));
    let mut k: usize = 0;
    assert(views.take(0) =~= Seq::<(Seq<char>, usize, Seq<char>)>::empty());
    while k < items.len()
        invariant
            k <= items@.len(),
            views == items@.map_values(|h: AstHit| hit_view(h)),
            results@.map_values(|h: AstHit| hit_view(h)) == dedup_extend(start, views.take(k as int)),
        decreases items@.len() - k,
    {
        let ghost before = results@.map_values(|h: AstHit| hit_view(h));
        assert(views.take(k + 1).drop_last() =~= views.take(k as int));
        assert(views.take(k + 1).last() == views[k as int]);
        let item = &items[k];
        assert(views[k as int] == (item.0@, item.1, item.2@));
        if !holds_hit(results, &item.0, item.1, &item.2) {
            results.push((item.0.clone(), item.1, item.2.clone()));
            assert(results@.map_values(|h: AstHit| hit_view(h)) =~= before.push(views[k as int]));
        }
        k = k + 1;
    }
    assert(views.take(items@.len() as int) =~= views);
}

/// Whether a walked entry is searched under the compiled glob.
pub fn source_is_selected(entry: &SourceEntry, glob: &Option<GlobFilter>) -> (r: bool)
    ensures
        r == source_selected(*entry, filter_pattern(*glob)),
{
    if !entry.is_file {
        return false;
    }
    match glob {
        Some(f) => f.is_match(entry.path.as_str()),
        None => true,
    }
}

/// Whether the text of a walked entry is needed: it is searched (a regular
/// file that the glob lets through) and its extension names a supported
/// language.
pub fn needs_text(entry: &SourceEntry, glob: &Option<GlobFilter>) -> (r: bool)
    ensures
        r == (source_selected(*entry, filter_pattern(*glob))
            && spec_from_extension(path_extension(entry.path@)) is Some),
{
    if !source_is_selected(entry, glob) {
        return false;
    }
    let ext = extension_of(entry.path.as_str());
    TargetLanguage::from_extension(ext.as_str()).is_some()
}

/// The hits of one walked entry in a syntax search, repeats kept: those of
/// the entry where the glob selects it, nothing otherwise.
pub open spec fn ast_step_hits(
    e: SourceEntry,
    glob: Option<Seq<char>>,
    target: Seq<char>,
    kind: AstQueryType,
) -> Seq<(Seq<char>, usize, Seq<char>)> {
    if source_selected(e, glob) {
        entry_hits(e, target, kind)
    } else {
        Seq::empty()
    }
}

/// One step of a streaming syntax search: the hits of one walked entry,
/// repeats kept. The hits of a whole walk are these steps' hits, entry after
/// entry (`lemma_ast_steps_make_all_hits`).
pub fn search_ast_entry(
    entry: &SourceEntry,
    glob: &Option<GlobFilter>,
    target: &str,
    kind: AstQueryType,
) -> (r: Vec<AstHit>)
    ensures
        r@.map_values(|h: AstHit| hit_view(h)) == ast_step_hits(*entry, filter_pattern(*glob), target@, kind),
{
    if source_is_selected(entry, glob) {
        entry_hits_of(entry, target, kind)
    } else {
        let out: Vec<AstHit> = Vec::new();
        assert(out@.map_values(|h: AstHit| hit_view(h)) =~= Seq::<(Seq<char>, usize, Seq<char>)>::empty());
        out
    }
}

/// Searches the walked entries for definitions of `target_name`: compiles
/// the glob (reporting a refusal), then, entry after entry, takes every
/// regular file whose path the glob lets through and whose extension names a
/// supported language, runs the query for `query_type` over its text, and
/// reports each capture whose name counts, leaving out repeats.
pub fn search_ast(
    target_name: &str,
    entries: &Vec<SourceEntry>,
    glob: &Option<String>,
    query_type: AstQueryType,
) -> (r: Result<Vec<AstHit>, String>)
    ensures
        match ast_outcome(target_name@, entries@, *glob, query_type) {
            Ok(hits) => r matches Ok(v) && v@.map_values(|h: AstHit| hit_view(h)) == hits,
            Err(e) => r matches Err(m) && m@ == e,
        },
{
    let filter = match build_glob(glob) {
        Ok(f) => f,
        Err(e) => {
            return Err(e);
        },
    };
    let ghost gview = filter_pattern(filter);
    assert(gview == match *glob { Some(g) => Some(g@), None => None::<Seq<char>> });
    let mut results: Vec<AstHit> = Vec::new();
    assert(results@.map_values(|h: AstHit| hit_view(h)) =~= Seq::<(Seq<char>, usize, Seq<char>)>::empty());
    let mut i: usize = 0;
    while i < entries.len()
        invariant
            i <= entries@.len(),
            gview == filter_pattern(filter),
            results@.map_values(|h: AstHit| hit_view(h)) == dedup_extend(
                Seq::empty(),
                all_entry_hits(entries@.take(i as int), gview, target_name@, query_type),
            ),
        decreases entries@.len() - i,
    {
        let ghost prior = all_entry_hits(entries@.take(i as int), gview, target_name@, query_type);
        assert(entries@.take(i + 1).drop_last() =~= entries@.take(i as int));
        assert(entries@.take(i + 1).last() == entries@[i as int]);
        let entry = &entries[i];
        let ghost added = if source_selected(*entry, gview) {
            entry_hits(*entry, target_name@, query_type)
        } else {
            Seq::empty()
        };
        proof {
            lemma_dedup_extend_append(Seq::empty(), prior, added);
        }
        if source_is_selected(entry, &filter) {
            let hits = entry_hits_of(entry, target_name, query_type);
            extend_unique(&mut results, hits);
        } else {
            assert(dedup_extend(results@.map_values(|h: AstHit| hit_view(h)), added)
                == results@.map_values(|h: AstHit| hit_view(h)));
        }
        i = i + 1;
    }
    assert(entries@.take(entries@.len() as int) =~= entries@);
    Ok(results)
}

/// A syntax search reports no hit twice, and it loses none: what it reports
/// is exactly what the selected files give, each hit once.
pub proof fn lemma_ast_hits_unique_and_complete(
    target: Seq<char>,
    entries: Seq<SourceEntry>,
    glob: Option<String>,
    kind: AstQueryType,
)
    ensures
        ast_outcome(target, entries, glob, kind) matches Ok(hits) ==> {
            &&& no_repeats(hits)
            &&& forall|x: (Seq<char>, usize, Seq<char>)| #[trigger] hits.contains(x) <==> all_entry_hits(
                entries,
                opt_chars(glob),
                target,
                kind,
            ).contains(x)
        },
{
    let e = Seq::<(Seq<char>, usize, Seq<char>)>::empty();
    assert(no_repeats(e));
    lemma_dedup_extend_props(e, all_entry_hits(entries, opt_chars(glob), target, kind));
}

/// Which captured names count: for functions and classes the name must be
/// the target exactly (a longer or shorter name does not count), and for
/// imports the target must occur somewhere in the captured text.
pub proof fn lemma_name_rule(text: Seq<char>, target: Seq<char>)
    ensures
        name_matches(text, target, AstQueryType::Function) == (text == target),
        name_matches(text, target, AstQueryType::Class) == (text == target),
        name_matches(text, target, AstQueryType::Import) == exists|i: int|
            0 <= i && i + target.len() <= text.len() && #[trigger] text.subrange(i, i + target.len()) == target,
{
}

/// A walked entry is searched by syntax exactly when it is a regular file
/// that the glob (if any) matches, whatever its path looks like.
pub proof fn lemma_source_selection_is_file_and_glob(e: SourceEntry, g: Seq<char>)
    ensures
        source_selected(e, None) == e.is_file,
        source_selected(e, Some(g)) == (e.is_file && glob_matches(g, e.path@)),
{
}

/// Every capture of a file whose name counts gives a hit of that file.
proof fn lemma_capture_gives_hit(
    path: Seq<char>,
    source: Seq<char>,
    caps: Seq<(Seq<char>, usize)>,
    target: Seq<char>,
    kind: AstQueryType,
    c: (Seq<char>, usize),
)
    requires
        caps.contains(c),
        name_matches(c.0, target, kind),
    ensures
        capture_hits(path, source, caps, target, kind).contains((path, (c.1 + 1) as usize, nth_line(source, c.1 as int))),
    decreases caps.len(),
{
    let rest = caps.drop_last();
    let prior = capture_hits(path, source, rest, target, kind);
    let all = capture_hits(path, source, caps, target, kind);
    let x = (path, (c.1 + 1) as usize, nth_line(source, c.1 as int));
    let j = choose|j: int| 0 <= j < caps.len() && caps[j] == c;
    if j < caps.len() - 1 {
        assert(rest[j] == c);
        lemma_capture_gives_hit(path, source, rest, target, kind, c);
        let k = choose|k: int| 0 <= k < prior.len() && prior[k] == x;
        if name_matches(caps.last().0, target, kind) {
            assert(all[k] == prior[k]);
        } else {
            assert(all =~= prior);
        }
        assert(all[k] == x);
    } else {
        assert(caps.last() == c);
        assert(all[all.len() - 1] == x);
    }
}

/// A syntax search loses no definition: in every regular file that the glob
/// (if any) matches, whose extension names a supported language and whose
/// text was read, each capture of the query whose text is the target
/// (functions and classes) or contains it (imports) is reported, as the
/// file's path, the capture's row plus one and the text of that line.
pub proof fn lemma_ast_search_reports_every_definition(
    target: Seq<char>,
    entries: Seq<SourceEntry>,
    glob: Option<String>,
    kind: AstQueryType,
    i: int,
    c: (Seq<char>, usize),
)
    requires
        glob matches Some(g) ==> glob_problem(g@) is None,
        0 <= i < entries.len(),
        entries[i].is_file,
        glob matches Some(g) ==> glob_matches(g@, entries[i].path@),
        spec_from_extension(path_extension(entries[i].path@)) is Some,
        entries[i].text is Some,
        file_captures(
            spec_from_extension(path_extension(entries[i].path@)).unwrap(),
            kind,
            entries[i].text.unwrap()@,
        ).contains(c),
        kind == AstQueryType::Import ==> exists|j: int|
            0 <= j && j + target.len() <= c.0.len() && #[trigger] c.0.subrange(j, j + target.len()) == target,
        kind != AstQueryType::Import ==> c.0 == target,
    ensures
        ast_outcome(target, entries, glob, kind) matches Ok(hits) && hits.contains(
            (entries[i].path@, (c.1 + 1) as usize, nth_line(entries[i].text.unwrap()@, c.1 as int)),
        ),
{
    let e = entries[i];
    let g = opt_chars(glob);
    let lang = spec_from_extension(path_extension(e.path@)).unwrap();
    let src = e.text.unwrap()@;
    let x = (e.path@, (c.1 + 1) as usize, nth_line(src, c.1 as int));
    lemma_name_rule(c.0, target);
    lemma_capture_gives_hit(e.path@, src, file_captures(lang, kind, src), target, kind, c);
    lemma_entry_hits_reach_all(entries, g, target, kind, i, x);
    lemma_ast_hits_unique_and_complete(target, entries, glob, kind);
}

/// Whether a hit is what a capture gives: the capture's name counts, and the
/// hit reports the path, the capture's row plus one, and that line's text.
pub open spec fn hit_of_capture(
    hit: (Seq<char>, usize, Seq<char>),
    path: Seq<char>,
    source: Seq<char>,
    c: (Seq<char>, usize),
    target: Seq<char>,
    kind: AstQueryType,
) -> bool {
    &&& name_matches(c.0, target, kind)
    &&& hit == (path, (c.1 + 1) as usize, nth_line(source, c.1 as int))
}

/// Every hit of one file comes from one of its captures whose name counts:
/// equal to the target for functions and classes, containing it for imports.
pub proof fn lemma_capture_hit_origin(
    path: Seq<char>,
    source: Seq<char>,
    caps: Seq<(Seq<char>, usize)>,
    target: Seq<char>,
    kind: AstQueryType,
    x: (Seq<char>, usize, Seq<char>),
)
    requires
        capture_hits(path, source, caps, target, kind).contains(x),
    ensures
        exists|c: (Seq<char>, usize)| #[trigger] caps.contains(c) && hit_of_capture(x, path, source, c, target, kind),
    decreases caps.len(),
{
    let rest = caps.drop_last();
    let c = caps.last();
    let prior = capture_hits(path, source, rest, target, kind);
    if prior.contains(x) {
        lemma_capture_hit_origin(path, source, rest, target, kind, x);
        let d = choose|d: (Seq<char>, usize)| #[trigger] rest.contains(d) && hit_of_capture(x, path, source, d, target, kind);
        let i = choose|i: int| 0 <= i < rest.len() && rest[i] == d;
        assert(caps[i] == d);
        assert(caps.contains(d));
    } else {
        let i = choose|i: int| 0 <= i < capture_hits(path, source, caps, target, kind).len()
            && capture_hits(path, source, caps, target, kind)[i] == x;
        if name_matches(c.0, target, kind) {
            assert(i >= prior.len());
        } else {
            assert(capture_hits(path, source, caps, target, kind) =~= prior);
        }
        assert(caps[caps.len() - 1] == c);
        assert(caps.contains(c));
    }
}

/// Every hit of the selected files comes from one selected entry.
pub proof fn lemma_entry_hit_origin(
    entries: Seq<SourceEntry>,
    glob: Option<Seq<char>>,
    target: Seq<char>,
    kind: AstQueryType,
    x: (Seq<char>, usize, Seq<char>),
)
    requires
        all_entry_hits(entries, glob, target, kind).contains(x),
    ensures
        exists|i: int| 0 <= i < entries.len() && source_selected(#[trigger] entries[i], glob)
            && entry_hits(entries[i], target, kind).contains(x),
    decreases entries.len(),
{
    let rest = entries.drop_last();
    let prior = all_entry_hits(rest, glob, target, kind);
    let e = entries.last();
    if prior.contains(x) {
        lemma_entry_hit_origin(rest, glob, target, kind, x);
        let i = choose|i: int| 0 <= i < rest.len() && source_selected(#[trigger] rest[i], glob)
            && entry_hits(rest[i], target, kind).contains(x);
        assert(entries[i] == rest[i]);
    } else {
        let all = all_entry_hits(entries, glob, target, kind);
        let k = choose|k: int| 0 <= k < all.len() && all[k] == x;
        if source_selected(e, glob) {
            let added = entry_hits(e, target, kind);
            assert(all == prior + added);
            assert(added[k - prior.len()] == x);
            assert(added.contains(x));
        } else {
            assert(all =~= prior);
        }
        assert(entries[entries.len() - 1] == e);
    }
}

/// Each hit that a syntax search reports names a selected file whose
/// extension names a supported language and whose text was read, and it is
/// what one of that file's captures gives: a captured name equal to the
/// target (functions and classes) or containing it (imports), reported with
/// its row plus one and the text of that line.
pub proof fn lemma_ast_hit_origin(
    target: Seq<char>,
    entries: Seq<SourceEntry>,
    glob: Option<String>,
    kind: AstQueryType,
    x: (Seq<char>, usize, Seq<char>),
)
    requires
        ast_outcome(target, entries, glob, kind) matches Ok(hits) && hits.contains(x),
    ensures
        exists|i: int| 0 <= i < entries.len() && {
            let e = #[trigger] entries[i];
            &&& source_selected(e, opt_chars(glob))
            &&& e.path@ == x.0
            &&& spec_from_extension(path_extension(e.path@)) is Some
            &&& e.text is Some
            &&& exists|c: (Seq<char>, usize)| #[trigger] file_captures(
                spec_from_extension(path_extension(e.path@)).unwrap(),
                kind,
                e.text.unwrap()@,
            ).contains(c) && hit_of_capture(x, e.path@, e.text.unwrap()@, c, target, kind)
        },
{
    let g = opt_chars(glob);
    lemma_ast_hits_unique_and_complete(target, entries, glob, kind);
    assert(ast_outcome(target, entries, glob, kind) == Ok::<_, Seq<char>>(dedup_extend(Seq::empty(), all_entry_hits(entries, g, target, kind))));
    lemma_entry_hit_origin(entries, g, target, kind, x);
    let i = choose|i: int| 0 <= i < entries.len() && source_selected(#[trigger] entries[i], g)
        && entry_hits(entries[i], target, kind).contains(x);
    let e = entries[i];
    let lang = spec_from_extension(path_extension(e.path@)).unwrap();
    let src = e.text.unwrap()@;
    lemma_capture_hit_origin(e.path@, src, file_captures(lang, kind, src), target, kind, x);
}

/// The hits that captures give all name the file they were captured from.
pub proof fn lemma_capture_hits_name_the_file(
    path: Seq<char>,
    source: Seq<char>,
    caps: Seq<(Seq<char>, usize)>,
    target: Seq<char>,
    kind: AstQueryType,
)
    ensures
        forall|k: int| 0 <= k < capture_hits(path, source, caps, target, kind).len()
            ==> (#[trigger] capture_hits(path, source, caps, target, kind)[k]).0 == path,
    decreases caps.len(),
{
    if caps.len() > 0 {
        lemma_capture_hits_name_the_file(path, source, caps.drop_last(), target, kind);
        let prior = capture_hits(path, source, caps.drop_last(), target, kind);
        assert forall|k: int| 0 <= k < capture_hits(path, source, caps, target, kind).len()
            implies (#[trigger] capture_hits(path, source, caps, target, kind)[k]).0 == path by {
            if k < prior.len() {
                assert(capture_hits(path, source, caps, target, kind)[k] == prior[k]);
            }
        }
    }
}

/// Giving a syntax search a glob keeps exactly the hits, in order, whose file
/// the glob matches (before repeats are left out).
proof fn lemma_all_entry_hits_under_glob(entries: Seq<SourceEntry>, g: Seq<char>, target: Seq<char>, kind: AstQueryType)
    ensures
        all_entry_hits(entries, Some(g), target, kind) == all_entry_hits(entries, None, target, kind).filter(
            hit_in_glob(g),
        ),
    decreases entries.len(),
{
    broadcast use Seq::filter_distributes_over_add;
    reveal(Seq::filter);
    if entries.len() > 0 {
        let e = entries.last();
        lemma_all_entry_hits_under_glob(entries.drop_last(), g, target, kind);
        let eh = entry_hits(e, target, kind);
        let ungated = if source_selected(e, None) { eh } else { Seq::empty() };
        let gated = if source_selected(e, Some(g)) { eh } else { Seq::empty() };
        assert forall|k: int| 0 <= k < eh.len() implies (#[trigger] eh[k]).0 == e.path@ by {
            match spec_from_extension(path_extension(e.path@)) {
                None => {},
                Some(lang) => match e.text {
                    None => {},
                    Some(t) => {
                        lemma_capture_hits_name_the_file(e.path@, t@, file_captures(lang, kind, t@), target, kind);
                    },
                },
            }
        }
        lemma_filter_uniform(ungated, hit_in_glob(g));
        if source_selected(e, None) && glob_matches(g, e.path@) {
            assert forall|i: int| 0 <= i < ungated.len() implies #[trigger] hit_in_glob(g)(ungated[i]) by {
                assert(ungated[i].0 == e.path@);
            }
        } else if source_selected(e, None) {
            assert forall|i: int| 0 <= i < ungated.len() implies !#[trigger] hit_in_glob(g)(ungated[i]) by {
                assert(ungated[i].0 == e.path@);
            }
        }
        assert(ungated.filter(hit_in_glob(g)) == gated);
        let rest = all_entry_hits(entries.drop_last(), None, target, kind);
        assert((rest + ungated).filter(hit_in_glob(g)) == rest.filter(hit_in_glob(g)) + ungated.filter(hit_in_glob(g)));
    }
}

/// A glob only narrows a syntax search: with a valid glob, the search reports
/// exactly those hits of the same search without a glob whose file the glob
/// matches.
pub proof fn lemma_glob_narrows_ast_hits(target: Seq<char>, entries: Seq<SourceEntry>, g: String, kind: AstQueryType)
    requires
        glob_problem(g@) is None,
    ensures
        ast_outcome(target, entries, Some(g), kind) matches Ok(narrow) && ast_outcome(target, entries, None, kind) matches Ok(
            wide,
        ) && forall|x: (Seq<char>, usize, Seq<char>)| #[trigger] narrow.contains(x) <==> (wide.contains(x) && glob_matches(g@, x.0)),
{
    broadcast use vstd::seq_lib::group_filter_ensures;
    broadcast use Seq::lemma_filter_contains_rev;
    lemma_ast_hits_unique_and_complete(target, entries, Some(g), kind);
    lemma_ast_hits_unique_and_complete(target, entries, None, kind);
    lemma_all_entry_hits_under_glob(entries, g@, target, kind);
    let all = all_entry_hits(entries, None, target, kind);
    assert forall|x: (Seq<char>, usize, Seq<char>)| #[trigger] all.filter(hit_in_glob(g@)).contains(x)
        <==> (all.contains(x) && glob_matches(g@, x.0)) by {
        if all.filter(hit_in_glob(g@)).contains(x) {
            let i = choose|i: int| 0 <= i < all.filter(hit_in_glob(g@)).len() && all.filter(hit_in_glob(g@))[i] == x;
            assert(hit_in_glob(g@)(all.filter(hit_in_glob(g@))[i]));
        }
        if all.contains(x) && glob_matches(g@, x.0) {
            let i = choose|i: int| 0 <= i < all.len() && all[i] == x;
            assert(hit_in_glob(g@)(all[i]));
        }
    }
}

/// An import hit for a target is also a hit for any part of that target.
proof fn lemma_capture_hits_import_monotone(
    path: Seq<char>,
    source: Seq<char>,
    caps: Seq<(Seq<char>, usize)>,
    longer: Seq<char>,
    shorter: Seq<char>,
    x: (Seq<char>, usize, Seq<char>),
)
    requires
        has_infix(longer, shorter),
        capture_hits(path, source, caps, longer, AstQueryType::Import).contains(x),
    ensures
        capture_hits(path, source, caps, shorter, AstQueryType::Import).contains(x),
    decreases caps.len(),
{
    let rest = caps.drop_last();
    let c = caps.last();
    let long_prior = capture_hits(path, source, rest, longer, AstQueryType::Import);
    let short_prior = capture_hits(path, source, rest, shorter, AstQueryType::Import);
    let long_all = capture_hits(path, source, caps, longer, AstQueryType::Import);
    let short_all = capture_hits(path, source, caps, shorter, AstQueryType::Import);
    if long_prior.contains(x) {
        lemma_capture_hits_import_monotone(path, source, rest, longer, shorter, x);
        let i = choose|i: int| 0 <= i < short_prior.len() && short_prior[i] == x;
        if has_infix(c.0, shorter) {
            assert(short_all[i] == short_prior[i]);
        } else {
            assert(short_all == short_prior);
        }
        assert(short_all[i] == x);
    } else {
        let k = choose|k: int| 0 <= k < long_all.len() && long_all[k] == x;
        if !has_infix(c.0, longer) {
            assert(long_all == long_prior);
        }
        assert(has_infix(c.0, longer));
        lemma_has_infix_transitive(c.0, longer, shorter);
        assert(x == (path, (c.1 + 1) as usize, nth_line(source, c.1 as int)));
        assert(short_all[short_all.len() - 1] == x);
    }
}

/// An import hit of the selected files for a target is also one for any
/// part of that target.
proof fn lemma_all_entry_hits_import_monotone(
    entries: Seq<SourceEntry>,
    glob: Option<Seq<char>>,
    longer: Seq<char>,
    shorter: Seq<char>,
    x: (Seq<char>, usize, Seq<char>),
)
    requires
        has_infix(longer, shorter),
        all_entry_hits(entries, glob, longer, AstQueryType::Import).contains(x),
    ensures
        all_entry_hits(entries, glob, shorter, AstQueryType::Import).contains(x),
{
    lemma_entry_hit_origin(entries, glob, longer, AstQueryType::Import, x);
    let i = choose|i: int| 0 <= i < entries.len() && source_selected(#[trigger] entries[i], glob)
        && entry_hits(entries[i], longer, AstQueryType::Import).contains(x);
    let e = entries[i];
    let lang = spec_from_extension(path_extension(e.path@)).unwrap();
    let t = e.text.unwrap()@;
    lemma_capture_hits_import_monotone(e.path@, t, file_captures(lang, AstQueryType::Import, t), longer, shorter, x);
    lemma_entry_hits_reach_all(entries, glob, shorter, AstQueryType::Import, i, x);
}

/// A hit of one selected entry is a hit of the selected entries.
proof fn lemma_entry_hits_reach_all(
    entries: Seq<SourceEntry>,
    glob: Option<Seq<char>>,
    target: Seq<char>,
    kind: AstQueryType,
    i: int,
    x: (Seq<char>, usize, Seq<char>),
)
    requires
        0 <= i < entries.len(),
        source_selected(entries[i], glob),
        entry_hits(entries[i], target, kind).contains(x),
    ensures
        all_entry_hits(entries, glob, target, kind).contains(x),
    decreases entries.len(),
{
    let rest = entries.drop_last();
    let prior = all_entry_hits(rest, glob, target, kind);
    let all = all_entry_hits(entries, glob, target, kind);
    if i < entries.len() - 1 {
        assert(rest[i] == entries[i]);
        lemma_entry_hits_reach_all(rest, glob, target, kind, i, x);
        let k = choose|k: int| 0 <= k < prior.len() && prior[k] == x;
        assert(all[k] == prior[k]);
    } else {
        let added = entry_hits(entries[i], target, kind);
        let k = choose|k: int| 0 <= k < added.len() && added[k] == x;
        assert(all == prior + added);
        assert(all[prior.len() + k] == x);
    }
}

/// Import search matches by substring, so it is monotone in the target: every
/// import hit for a target is also reported for any part of that target.
pub proof fn lemma_import_search_monotone(
    longer: Seq<char>,
    shorter: Seq<char>,
    entries: Seq<SourceEntry>,
    glob: Option<String>,
)
    requires
        has_infix(longer, shorter),
    ensures
        ast_outcome(longer, entries, glob, AstQueryType::Import) matches Ok(long_hits) ==> (ast_outcome(
            shorter,
            entries,
            glob,
            AstQueryType::Import,
        ) matches Ok(short_hits) && forall|x: (Seq<char>, usize, Seq<char>)| #[trigger] long_hits.contains(x) ==> short_hits.contains(x)),
{
    lemma_ast_hits_unique_and_complete(longer, entries, glob, AstQueryType::Import);
    lemma_ast_hits_unique_and_complete(shorter, entries, glob, AstQueryType::Import);
    assert forall|x: (Seq<char>, usize, Seq<char>)| all_entry_hits(entries, opt_chars(glob), longer, AstQueryType::Import).contains(x)
        implies #[trigger] all_entry_hits(entries, opt_chars(glob), shorter, AstQueryType::Import).contains(x) by {
        lemma_all_entry_hits_import_monotone(entries, opt_chars(glob), longer, shorter, x);
    }
}

/// A streaming syntax search that hands out the hits of each walked entry in
/// turn hands out the hits of the selected files, repeats kept; the batch
/// search reports the same hits with repeats left out (`ast_outcome`).
pub proof fn lemma_ast_steps_make_all_hits(
    entries: Seq<SourceEntry>,
    e: SourceEntry,
    glob: Option<Seq<char>>,
    target: Seq<char>,
    kind: AstQueryType,
)
    ensures
        all_entry_hits(Seq::<SourceEntry>::empty(), glob, target, kind) == Seq::<(Seq<char>, usize, Seq<char>)>::empty(),
        all_entry_hits(entries.push(e), glob, target, kind) == all_entry_hits(entries, glob, target, kind)
            + ast_step_hits(e, glob, target, kind),
{
    assert(entries.push(e).drop_last() =~= entries);
}

} // verus!
