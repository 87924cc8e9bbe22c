//! Character-level helpers on strings, stated over `Seq<char>`: equality,
//! substring search, the lines of a text, and the extension of a path.

use vstd::prelude::*;

verus! {

broadcast use vstd::string::group_string_axioms;

/// Compares two string slices character by character.
pub fn str_eq(a: &str, b: &str) -> (r: bool)
    ensures
        r == (a@ == b@),
{
    let x = chars_of(a);
    let y = chars_of(b);
    if x.len() != y.len() {
        return false;
    }
    let mut i: usize = 0;
    while i < x.len()
        invariant
            x@ == a@,
            y@ == b@,
            x@.len() == y@.len(),
            i <= x@.len(),
            forall|k: int| 0 <= k < i ==> a@[k] == b@[k],
        decreases x@.len() - i,
    {
        if x[i] != y[i] {
            return false;
        }
        i = i + 1;
    }
    assert(a@ =~= b@);
    true
}

/// The characters of a string, in order.
pub fn chars_of(s: &str) -> (r: Vec<char>)
    ensures
        r@ == s@,
{
    let mut out: Vec<char> = Vec::new();
    for c in it: s.chars()
        invariant
            out@ == it.seq().take(it.index() as int),
    {
        out.push(c);
    }
    out
}

/// Whether `needle` occurs in `hay` as a contiguous run of characters.
pub open spec fn has_infix(hay: Seq<char>, needle: Seq<char>) -> bool {
    exists|i: int| 0 <= i && i + needle.len() <= hay.len()
        && #[trigger] hay.subrange(i, i + needle.len()) == needle
}

/// What occurs in a part of a text occurs in the text.
pub proof fn lemma_has_infix_transitive(a: Seq<char>, b: Seq<char>, c: Seq<char>)
    requires
        has_infix(a, b),
        has_infix(b, c),
    ensures
        has_infix(a, c),
{
    let i = choose|i: int| 0 <= i && i + b.len() <= a.len() && #[trigger] a.subrange(i, i + b.len()) == b;
    let j = choose|j: int| 0 <= j && j + c.len() <= b.len() && #[trigger] b.subrange(j, j + c.len()) == c;
    assert(a.subrange(i + j, i + j + c.len()) =~= c) by {
        assert forall|k: int| 0 <= k < c.len() implies a.subrange(i + j, i + j + c.len())[k] == c[k] by {
            assert(c[k] == b.subrange(j, j + c.len())[k]);
            assert(b[j + k] == a.subrange(i, i + b.len())[j + k]);
        }
    }
}

/// Whether `needle` occurs at position `i` of `hay`.
fn occurs_at(hay: &Vec<char>, needle: &Vec<char>, i: usize) -> (r: bool)
    requires
        i + needle@.len() <= hay@.len(),
    ensures
        r == (hay@.subrange(i as int, i + needle@.len()) == needle@),
{
    let mut k: usize = 0;
    while k < needle.len()
        invariant
            i + needle@.len() <= hay@.len(),
            hay@.len() == hay.len(),
            k <= needle@.len(),
            forall|j: int| 0 <= j < k ==> hay@[i + j] == needle@[j],
        decreases needle@.len() - k,
    {
        if hay[i + k] != needle[k] {
            assert(hay@.subrange(i as int, i + needle@.len())[k as int] != needle@[k as int]);
            return false;
        }
        k = k + 1;
    }
    assert(hay@.subrange(i as int, i + needle@.len()) =~= needle@);
    true
}

/// Whether `needle` occurs in `hay` (the behaviour of `str::contains` with a
/// string pattern; the empty needle occurs everywhere).
pub fn contains_str(hay: &str, needle: &str) -> (r: bool)
    ensures
        r == has_infix(hay@, needle@),
{
    let h = chars_of(hay);
    let n = chars_of(needle);
    if n.len() > h.len() {
        return false;
    }
    let last = h.len() - n.len();
    let mut i: usize = 0;
    loop
        invariant
            h@ == hay@,
            n@ == needle@,
            last + n@.len() == h@.len(),
            i <= last,
            forall|j: int| 0 <= j < i ==> #[trigger] h@.subrange(j, j + n@.len()) != n@,
        decreases last - i,
    {
        if occurs_at(&h, &n, i) {
            assert(h@.subrange(i as int, i + n@.len()) == n@);
            return true;
        }
        if i == last {
            assert forall|j: int| 0 <= j && j + needle@.len() <= hay@.len()
                implies #[trigger] hay@.subrange(j, j + needle@.len()) != needle@ by {
                assert(j <= i);
            }
            return false;
        }
        i = i + 1;
    }
}

/// The pieces of `s` between line feeds, in order: a text with k line feeds
/// has k + 1 pieces (the last one possibly empty).
pub open spec fn segments(s: Seq<char>) -> Seq<Seq<char>>
    decreases s.len(),
{
    if s.len() == 0 {
        seq![Seq::empty()]
    } else {
        let p = segments(s.drop_last());
        if s.last() == '\n' {
            p.push(Seq::empty())
        } else {
            p.update(p.len() - 1, p.last().push(s.last()))
        }
    }
}

/// A line without the carriage return that ended it, if any.
pub open spec fn strip_cr(l: Seq<char>) -> Seq<char> {
    if l.len() > 0 && l.last() == '\r' {
        l.drop_last()
    } else {
        l
    }
}

/// The lines of a text as `str::lines` gives them: the text is split at line
/// feeds, a carriage return right before a line feed is dropped, and a final
/// empty piece (after a last line feed, or of the empty text) is no line.
pub open spec fn lines(s: Seq<char>) -> Seq<Seq<char>> {
    let seg = segments(s);
    let n = (seg.len() - 1) as nat;
    let body = Seq::new(n, |k: int| strip_cr(seg[k]));
    if seg[n as int].len() == 0 {
        body
    } else {
        body.push(seg[n as int])
    }
}

/// Line `row` (counted from zero) of a text, or the empty line where the
/// text has fewer lines (`s.lines().nth(row).unwrap_or("")`).
pub open spec fn nth_line(s: Seq<char>, row: int) -> Seq<char> {
    if 0 <= row < lines(s).len() {
        lines(s)[row]
    } else {
        Seq::empty()
    }
}

/// Every text has at least one piece.
pub proof fn lemma_segments_len(s: Seq<char>)
    ensures
        segments(s).len() >= 1,
    decreases s.len(),
{
    if s.len() > 0 {
        lemma_segments_len(s.drop_last());
    }
}

/// No piece between line feeds holds a line feed.
pub proof fn lemma_segments_have_no_line_feed(s: Seq<char>)
    ensures
        forall|k: int, j: int| 0 <= k < segments(s).len() && 0 <= j < segments(s)[k].len()
            ==> #[trigger] segments(s)[k][j] != '\n',
    decreases s.len(),
{
    lemma_segments_len(s);
    if s.len() > 0 {
        let p = segments(s.drop_last());
        lemma_segments_have_no_line_feed(s.drop_last());
        lemma_segments_len(s.drop_last());
        if s.last() != '\n' {
            let q = p.update(p.len() - 1, p.last().push(s.last()));
            assert forall|k: int, j: int| 0 <= k < q.len() && 0 <= j < q[k].len()
                implies #[trigger] q[k][j] != '\n' by {
                if k == p.len() - 1 && j == p.last().len() {
                    assert(q[k][j] == s.last());
                } else if k == p.len() - 1 {
                    assert(q[k][j] == p[k][j]);
                }
            }
        } else {
            let q = p.push(Seq::empty());
            assert forall|k: int, j: int| 0 <= k < q.len() && 0 <= j < q[k].len()
                implies #[trigger] q[k][j] != '\n' by {
                if k < p.len() {
                    assert(q[k] == p[k]);
                }
            }
        }
    }
}

/// The pieces of a text that starts with a line without line feed and a line
/// feed are that line, then the pieces of the rest.
proof fn lemma_segments_split(a: Seq<char>, b: Seq<char>)
    requires
        forall|i: int| 0 <= i < a.len() ==> #[trigger] a[i] != '\n',
    ensures
        segments(a + seq!['\n'] + b) == seq![a] + segments(b),
    decreases b.len(),
{
    lemma_segments_len(b);
    if b.len() == 0 {
        lemma_segments_of_line(a);
        assert(a + seq!['\n'] + b =~= (a + seq!['\n']));
        assert((a + seq!['\n']).drop_last() =~= a);
        assert(seq![a].push(Seq::<char>::empty()) =~= seq![a] + seq![Seq::<char>::empty()]);
    } else {
        let s = a + seq!['\n'] + b;
        assert(s.drop_last() =~= a + seq!['\n'] + b.drop_last());
        assert(s.last() == b.last());
        lemma_segments_split(a, b.drop_last());
        lemma_segments_len(b.drop_last());
        let p = segments(b.drop_last());
        if b.last() == '\n' {
            assert((seq![a] + p).push(Seq::<char>::empty()) =~= seq![a] + p.push(Seq::<char>::empty()));
        } else {
            let q = seq![a] + p;
            assert(q.last() == p.last());
            assert(q.update(q.len() - 1, q.last().push(b.last())) =~= seq![a] + p.update(
                p.len() - 1,
                p.last().push(b.last()),
            ));
        }
    }
}

/// A text without line feed is one piece.
proof fn lemma_segments_of_line(a: Seq<char>)
    requires
        forall|i: int| 0 <= i < a.len() ==> #[trigger] a[i] != '\n',
    ensures
        segments(a) == seq![a],
    decreases a.len(),
{
    if a.len() == 0 {
        assert(a =~= Seq::<char>::empty());
    } else {
        assert(a[a.len() - 1] != '\n');
        assert forall|i: int| 0 <= i < a.drop_last().len() implies #[trigger] a.drop_last()[i] != '\n' by {
            assert(a.drop_last()[i] == a[i]);
        }
        lemma_segments_of_line(a.drop_last());
        assert(a.drop_last().push(a.last()) =~= a);
        assert(seq![a.drop_last()].update(0, a) =~= seq![a]);
    }
}

/// Lines are counted at line feeds: in a text that starts with a line
/// without line feed and a line feed, line 0 is that line (without a carriage
/// return that ended it), and line `row + 1` is line `row` of the rest.
pub proof fn lemma_lines_split(a: Seq<char>, b: Seq<char>)
    requires
        forall|i: int| 0 <= i < a.len() ==> #[trigger] a[i] != '\n',
    ensures
        lines(a + seq!['\n'] + b) == seq![strip_cr(a)] + lines(b),
        nth_line(a + seq!['\n'] + b, 0) == strip_cr(a),
        forall|row: int| 0 <= row ==> #[trigger] nth_line(a + seq!['\n'] + b, row + 1) == nth_line(b, row),
{
    let s = a + seq!['\n'] + b;
    lemma_segments_split(a, b);
    lemma_segments_len(b);
    let sb = segments(b);
    let ss = segments(s);
    assert(ss == seq![a] + sb);
    let n = (ss.len() - 1) as nat;
    let m = (sb.len() - 1) as nat;
    assert(n == m + 1);
    assert(ss[n as int] == sb[m as int]);
    let body_s = Seq::new(n, |k: int| strip_cr(ss[k]));
    let body_b = Seq::new(m, |k: int| strip_cr(sb[k]));
    assert(body_s =~= seq![strip_cr(a)] + body_b) by {
        assert forall|k: int| 0 <= k < n implies #[trigger] body_s[k] == (seq![strip_cr(a)] + body_b)[k] by {
            if k > 0 {
                assert(ss[k] == sb[k - 1]);
            }
        }
    }
    if sb[m as int].len() == 0 {
        assert(lines(s) == body_s);
        assert(lines(b) == body_b);
    } else {
        assert(lines(s) == body_s.push(ss[n as int]));
        assert(lines(b) == body_b.push(sb[m as int]));
        assert(body_s.push(ss[n as int]) =~= seq![strip_cr(a)] + body_b.push(sb[m as int]));
    }
    assert(lines(s) == seq![strip_cr(a)] + lines(b));
    assert forall|row: int| 0 <= row implies #[trigger] nth_line(s, row + 1) == nth_line(b, row) by {
        if row < lines(b).len() {
            assert(lines(s)[row + 1] == lines(b)[row]);
        }
    }
}

/// A text without line feed is one line, kept whole (a final carriage
/// return included), unless it is empty, which has no line.
pub proof fn lemma_lines_of_last_line(a: Seq<char>)
    requires
        forall|i: int| 0 <= i < a.len() ==> #[trigger] a[i] != '\n',
    ensures
        a.len() == 0 ==> lines(a) == Seq::<Seq<char>>::empty(),
        a.len() > 0 ==> lines(a) == seq![a] && nth_line(a, 0) == a,
{
    lemma_segments_of_line(a);
    assert(Seq::new(0, |k: int| strip_cr(segments(a)[k])) =~= Seq::<Seq<char>>::empty());
    if a.len() > 0 {
        assert(Seq::<Seq<char>>::empty().push(a) =~= seq![a]);
    }
}

/// No line of a text holds a line feed: the line that a hit reports is one
/// line of the file.
pub proof fn lemma_line_has_no_line_feed(s: Seq<char>, row: int)
    ensures
        forall|j: int| 0 <= j < nth_line(s, row).len() ==> #[trigger] nth_line(s, row)[j] != '\n',
{
    lemma_segments_len(s);
    lemma_segments_have_no_line_feed(s);
    let seg = segments(s);
    let n = seg.len() - 1;
    if 0 <= row < lines(s).len() {
        if row < n {
            assert(lines(s)[row] == strip_cr(seg[row]));
            assert forall|j: int| 0 <= j < strip_cr(seg[row]).len() implies #[trigger] strip_cr(seg[row])[j] != '\n' by {
                assert(strip_cr(seg[row])[j] == seg[row][j]);
            }
        } else {
            assert(lines(s)[row] == seg[n]);
        }
    }
}

/// Line `row` (from zero) of `source`, whose characters are `chars`, or the
/// empty string where `source` has fewer lines.
pub fn line_at(source: &str, chars: &Vec<char>, row: usize) -> (r: String)
    requires
        chars@ == source@,
    ensures
        r@ == nth_line(source@, row as int),
{
    let ghost s = source@;
    let len = chars.len();
    let mut i: usize = 0;
    let mut count: usize = 0;
    let mut start: usize = 0;
    let mut found: Option<(usize, usize)> = None;
    assert(s.take(0) =~= Seq::<char>::empty());
    assert(s.subrange(0, 0) =~= Seq::<char>::empty());
    while i < len
        invariant
            chars@ == s,
            len == s.len(),
            i <= len,
            start <= i,
            count <= i,
            segments(s.take(i as int)).len() == count + 1,
            segments(s.take(i as int)).last() == s.subrange(start as int, i as int),
            found is None ==> count <= row,
            found matches Some((a, b)) ==> {
                &&& count > row
                &&& a <= b < i
                &&& s[b as int] == '\n'
                &&& segments(s.take(i as int))[row as int] == s.subrange(a as int, b as int)
            },
        decreases len - i,
    {
        let ghost prev = segments(s.take(i as int));
        assert(s.take(i + 1).drop_last() =~= s.take(i as int));
        assert(s.take(i + 1).last() == s[i as int]);
        let c = chars[i];
        if c == '\n' {
            if count == row {
                found = Some((start, i));
            }
            count = count + 1;
            start = i + 1;
            assert(s.subrange(start as int, i + 1) =~= Seq::<char>::empty());
        } else {
            assert(s.subrange(start as int, i + 1) =~= s.subrange(start as int, i as int).push(c));
        }
        i = i + 1;
    }
    assert(s.take(len as int) =~= s);
    let ghost seg = segments(s);
    proof {
        lemma_segments_len(s);
    }
    match found {
        Some((a, b)) => {
            let end = if b > a && chars[b - 1] == '\r' { b - 1 } else { b };
            assert(strip_cr(s.subrange(a as int, b as int)) =~= s.subrange(a as int, end as int));
            assert(lines(s)[row as int] == strip_cr(seg[row as int]));
            source.substring_char(a, end).to_owned()
        },
        None => {
            if count == row && start < len {
                assert(lines(s)[row as int] == seg[row as int]);
                source.substring_char(start, len).to_owned()
            } else {
                assert(lines(s).len() <= row);
                String::new()
            }
        },
    }
}

/// The characters after the last `/` of `p` (all of `p` if it has none).
pub open spec fn last_segment(p: Seq<char>) -> Seq<char>
    decreases p.len(),
{
    if p.len() == 0 || p.last() == '/' {
        Seq::empty()
    } else {
        last_segment(p.drop_last()).push(p.last())
    }
}

/// The final component of a path, as `Path::file_name` gives it: trailing
/// separators and `.` components are passed over, and there is none when the
/// path ends in `..`, is a root, or is empty.
pub open spec fn file_name(p: Seq<char>) -> Option<Seq<char>>
    decreases p.len(),
{
    if p.len() == 0 {
        None
    } else if p.last() == '/' {
        file_name(p.drop_last())
    } else {
        let seg = last_segment(p);
        let rest = p.take(p.len() - seg.len());
        if seg == seq!['.'] {
            if rest.len() == 0 {
                None
            } else {
                file_name(rest)
            }
        } else if seg == seq!['.', '.'] {
            None
        } else {
            Some(seg)
        }
    }
}

/// The characters after the last `.` of `n`, if it has one.
pub open spec fn after_last_dot(n: Seq<char>) -> Option<Seq<char>>
    decreases n.len(),
{
    if n.len() == 0 {
        None
    } else if n.last() == '.' {
        Some(Seq::empty())
    } else {
        match after_last_dot(n.drop_last()) {
            None => None,
            Some(a) => Some(a.push(n.last())),
        }
    }
}

/// The extension of a path as `Path::extension` defines it (the part of the
/// file name after its last `.`, unless the name has no `.` or its only `.`
/// is its first character), and the empty text where there is none.
pub open spec fn path_extension(p: Seq<char>) -> Seq<char> {
    match file_name(p) {
        None => Seq::empty(),
        Some(name) => match after_last_dot(name) {
            None => Seq::empty(),
            Some(ext) => if name.len() - ext.len() - 1 == 0 {
                Seq::empty()
            } else {
                ext
            },
        },
    }
}

/// The last segment of a directory prefix followed by a name without `/` is
/// that name.
proof fn lemma_last_segment_of_name(dir: Seq<char>, name: Seq<char>)
    requires
        dir.len() == 0 || dir.last() == '/',
        forall|i: int| 0 <= i < name.len() ==> #[trigger] name[i] != '/',
    ensures
        last_segment(dir + name) == name,
    decreases name.len(),
{
    if name.len() == 0 {
        assert(dir + name =~= dir);
    } else {
        assert((dir + name).drop_last() =~= dir + name.drop_last());
        assert((dir + name).last() == name.last());
        assert(name[name.len() - 1] != '/');
        lemma_last_segment_of_name(dir, name.drop_last());
        assert(name.drop_last().push(name.last()) =~= name);
    }
}

/// What follows the last `.` of a stem, a `.` and a text without `.` is that
/// text.
proof fn lemma_after_last_dot_of_name(stem: Seq<char>, ext: Seq<char>)
    requires
        forall|i: int| 0 <= i < ext.len() ==> #[trigger] ext[i] != '.',
    ensures
        after_last_dot(stem + seq!['.'] + ext) == Some(ext),
    decreases ext.len(),
{
    let n = stem + seq!['.'] + ext;
    if ext.len() == 0 {
        assert(n.last() == '.');
    } else {
        assert(n.drop_last() =~= stem + seq!['.'] + ext.drop_last());
        assert(n.last() == ext.last());
        assert(ext[ext.len() - 1] != '.');
        lemma_after_last_dot_of_name(stem, ext.drop_last());
        assert(ext.drop_last().push(ext.last()) =~= ext);
    }
}

/// The extension of a path is what follows the last `.` of its file name:
/// for a file name made of a non-empty stem (dots allowed), a `.` and a
/// non-empty text without `.`, behind any directory part, the extension is
/// that text (`src/app.py` gives `py`, `./a.b.rs` gives `rs`).
pub proof fn lemma_path_extension_of_name(dir: Seq<char>, stem: Seq<char>, ext: Seq<char>)
    requires
        dir.len() == 0 || dir.last() == '/',
        stem.len() > 0,
        ext.len() > 0,
        forall|i: int| 0 <= i < stem.len() ==> #[trigger] stem[i] != '/',
        forall|i: int| 0 <= i < ext.len() ==> #[trigger] ext[i] != '/' && ext[i] != '.',
    ensures
        path_extension(dir + stem + seq!['.'] + ext) == ext,
{
    let name = stem + seq!['.'] + ext;
    let p = dir + name;
    assert(dir + stem + seq!['.'] + ext =~= p);
    assert forall|i: int| 0 <= i < name.len() implies #[trigger] name[i] != '/' by {
        if i < stem.len() {
            assert(name[i] == stem[i]);
        } else if i > stem.len() {
            assert(name[i] == ext[i - stem.len() - 1]);
        }
    }
    lemma_last_segment_of_name(dir, name);
    assert(p.last() == ext.last());
    assert(ext[ext.len() - 1] != '/');
    assert(name.len() >= 3);
    assert(name != seq!['.']);
    assert(name != seq!['.', '.']);
    assert(file_name(p) == Some(name));
    lemma_after_last_dot_of_name(stem, ext);
}

proof fn lemma_last_segment_len(p: Seq<char>)
    ensures
        last_segment(p).len() <= p.len(),
    decreases p.len(),
{
    if p.len() > 0 && p.last() != '/' {
        lemma_last_segment_len(p.drop_last());
    }
}

/// Start of the last segment of `chars[..end]`.
fn segment_start(chars: &Vec<char>, end: usize) -> (j: usize)
    requires
        end <= chars@.len(),
    ensures
        j <= end,
        last_segment(chars@.take(end as int)) == chars@.subrange(j as int, end as int),
{
    let ghost p = chars@;
    let mut j = end;
    assert(p.subrange(end as int, end as int) =~= Seq::<char>::empty());
    while j > 0 && chars[j - 1] != '/'
        invariant
            j <= end <= p.len(),
            chars@ == p,
            last_segment(p.take(end as int)) == last_segment(p.take(j as int)) + p.subrange(j as int, end as int),
        decreases j,
    {
        assert(p.take(j as int).drop_last() =~= p.take(j - 1));
        assert(p.subrange(j - 1, end as int) =~= seq![p[j - 1]] + p.subrange(j as int, end as int));
        assert(last_segment(p.take(j as int)) == last_segment(p.take(j - 1)).push(p[j - 1]));
        assert(last_segment(p.take(j - 1)).push(p[j - 1]) + p.subrange(j as int, end as int)
            =~= last_segment(p.take(j - 1)) + p.subrange(j - 1, end as int));
        j = j - 1;
    }
    assert(last_segment(p.take(j as int)) =~= Seq::<char>::empty());
    assert(Seq::<char>::empty() + p.subrange(j as int, end as int) =~= p.subrange(j as int, end as int));
    j
}

/// Where the file name of the path with characters `chars` lies, if it has one.
fn file_name_bounds(chars: &Vec<char>) -> (r: Option<(usize, usize)>)
    ensures
        match file_name(chars@) {
            None => r is None,
            Some(name) => r matches Some((a, b)) && a < b <= chars@.len()
                && chars@.subrange(a as int, b as int) == name,
        },
{
    let ghost p = chars@;
    let mut end = chars.len();
    assert(p.take(end as int) =~= p);
    loop
        invariant
            chars@ == p,
            end <= p.len(),
            file_name(p.take(end as int)) == file_name(p),
        decreases end,
    {
        if end == 0 {
            assert(p.take(0) =~= Seq::<char>::empty());
            assert(file_name(p.take(0)) is None);
            return None;
        }
        assert(p.take(end as int).last() == p[end - 1]);
        if chars[end - 1] == '/' {
            assert(p.take(end as int).drop_last() =~= p.take(end - 1));
            end = end - 1;
        } else {
            let j = segment_start(chars, end);
            let ghost seg = p.subrange(j as int, end as int);
            proof {
                lemma_last_segment_len(p.take(end as int));
            }
            assert(p.take(end as int).take(end - seg.len()) =~= p.take(j as int));
            if end - j == 1 && chars[j] == '.' {
                assert(seg =~= seq!['.']);
                if j == 0 {
                    return None;
                }
                end = j;
            } else if end - j == 2 && chars[j] == '.' && chars[j + 1] == '.' {
                assert(seg =~= seq!['.', '.']);
                return None;
            } else {
                assert(seg != seq!['.']) by {
                    if seg == seq!['.'] {
                        assert(seg[0] == chars@[j as int]);
                    }
                }
                assert(seg != seq!['.', '.']) by {
                    if seg == seq!['.', '.'] {
                        assert(seg[0] == chars@[j as int]);
                        assert(seg[1] == chars@[j + 1]);
                    }
                }
                assert(seg.len() > 0) by {
                    if seg.len() == 0 {
                        assert(last_segment(p.take(end as int)) == last_segment(p.take(end as int).drop_last()).push(p[end - 1]));
                    }
                }
                return Some((j, end));
            }
        }
    }
}

/// The extension of a file path (`path.extension()`, or the empty string
/// where the path has none).
pub fn extension_of(path: &str) -> (r: String)
    ensures
        r@ == path_extension(path@),
{
    let chars = chars_of(path);
    let ghost p = path@;
    let (name_start, end) = match file_name_bounds(&chars) {
        None => {
            return String::new();
        },
        Some(bounds) => bounds,
    };
    let ghost name = p.subrange(name_start as int, end as int);
    assert(file_name(p) == Some(name));
    // Find the last `.` of the file name.
    let mut k = end;
    assert(p.subrange(end as int, end as int) =~= Seq::<char>::empty());
    assert(p.subrange(name_start as int, end as int) == name);
    while k > name_start && chars[k - 1] != '.'
        invariant
            chars@ == p,
            name_start <= k <= end <= p.len(),
            name == p.subrange(name_start as int, end as int),
            after_last_dot(name) == match after_last_dot(p.subrange(name_start as int, k as int)) {
                None => None,
                Some(a) => Some(a + p.subrange(k as int, end as int)),
            },
        decreases k,
    {
        let ghost pre = p.subrange(name_start as int, k as int);
        assert(pre.drop_last() =~= p.subrange(name_start as int, k - 1));
        assert(pre.last() == p[k - 1]);
        proof {
            if let Some(a) = after_last_dot(p.subrange(name_start as int, k - 1)) {
                assert(a.push(p[k - 1]) + p.subrange(k as int, end as int)
                    =~= a + p.subrange(k - 1, end as int));
            }
        }
        k = k - 1;
    }
    if k == name_start {
        assert(after_last_dot(p.subrange(name_start as int, name_start as int)) is None) by {
            assert(p.subrange(name_start as int, name_start as int).len() == 0);
        }
        return String::new();
    }
    let ghost pre = p.subrange(name_start as int, k as int);
    assert(pre.last() == '.');
    assert(after_last_dot(pre) == Some(Seq::<char>::empty()));
    assert(Seq::<char>::empty() + p.subrange(k as int, end as int) =~= p.subrange(k as int, end as int));
    if k - 1 == name_start {
        return String::new();
    }
    path.substring_char(k, end).to_owned()
}

} // verus!
