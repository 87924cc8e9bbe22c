//! CSV text of search results: a header line `file,line,content`, then one
//! line per hit. A field that holds a comma, a double quote, a carriage
//! return or a line feed is written between double quotes, with each double
//! quote inside doubled (RFC 4180).

use vstd::prelude::*;
use crate::text::chars_of;

verus! {

broadcast use vstd::string::group_string_axioms;

/// The decimal digits of a natural number, most significant first.
pub open spec fn decimal(n: nat) -> Seq<char>
    decreases n,
{
    if n < 10 {
        seq![digit_char(n)]
    } else {
        decimal(n / 10).push(digit_char(n % 10))
    }
}

/// The character of a decimal digit.
pub open spec fn digit_char(d: nat) -> char {
    if d == 0 { '0' } else if d == 1 { '1' } else if d == 2 { '2' } else if d == 3 { '3' }
    else if d == 4 { '4' } else if d == 5 { '5' } else if d == 6 { '6' } else if d == 7 { '7' }
    else if d == 8 { '8' } else { '9' }
}

/// Whether a field must be quoted.
pub open spec fn needs_quotes(f: Seq<char>) -> bool {
    exists|i: int| 0 <= i < f.len() && (f[i] == ',' || f[i] == '"' || f[i] == '\r' || f[i] == '\n')
}

/// A field with each double quote doubled.
pub open spec fn double_quotes(f: Seq<char>) -> Seq<char>
    decreases f.len(),
{
    if f.len() == 0 {
        Seq::empty()
    } else if f.last() == '"' {
        double_quotes(f.drop_last()) + seq!['"', '"']
    } else {
        double_quotes(f.drop_last()).push(f.last())
    }
}

/// A field as CSV writes it.
pub open spec fn csv_field(f: Seq<char>) -> Seq<char> {
    if needs_quotes(f) {
        seq!['"'] + double_quotes(f) + seq!['"']
    } else {
        f
    }
}

/// One hit as a CSV line.
pub open spec fn csv_row(r: (Seq<char>, usize, Seq<char>)) -> Seq<char> {
    csv_field(r.0) + seq![','] + decimal(r.1 as nat) + seq![','] + csv_field(r.2) + seq!['\n']
}

/// The lines of the hits, in order.
pub open spec fn csv_rows(rows: Seq<(Seq<char>, usize, Seq<char>)>) -> Seq<char>
    decreases rows.len(),
{
    if rows.len() == 0 {
        Seq::empty()
    } else {
        csv_rows(rows.drop_last()) + csv_row(rows.last())
    }
}

/// The header line.
pub open spec fn csv_header() -> Seq<char> {
    seq!['f', 'i', 'l', 'e', ',', 'l', 'i', 'n', 'e', ',', 'c', 'o', 'n', 't', 'e', 'n', 't', '\n']
}

/// Where a reader of CSV text stands: at the start of a field, inside an
/// unquoted field, inside a quoted field, just after a double quote inside a
/// quoted field (which closes it, or is the first of a doubled pair), or
/// stopped on text that is not CSV.
pub enum CsvMode {
    FieldStart,
    Unquoted,
    Quoted,
    QuoteInQuoted,
    Broken,
}

/// What a reader of CSV text has read so far: the finished records, the
/// fields of the record being read, the field being read, and where it
/// stands.
pub type CsvState = (Seq<Seq<Seq<char>>>, Seq<Seq<char>>, Seq<char>, CsvMode);

/// A character that an unquoted field cannot hold.
pub open spec fn is_special(c: char) -> bool {
    c == ',' || c == '"' || c == '\r' || c == '\n'
}

/// The reader's state after the field being read ends.
pub open spec fn end_field(st: CsvState) -> CsvState {
    (st.0, st.1.push(st.2), Seq::empty(), CsvMode::FieldStart)
}

/// The reader's state after the record being read ends.
pub open spec fn end_record(st: CsvState) -> CsvState {
    (st.0.push(st.1.push(st.2)), Seq::empty(), Seq::empty(), CsvMode::FieldStart)
}

/// The reader's state after one more character (RFC 4180, with a line feed
/// ending each record): a comma ends a field and a line feed a record, except
/// inside quotes; a field that starts with a double quote runs to the next
/// lone double quote, and a doubled one inside it stands for one; anything
/// else is kept in the field. A double quote or a carriage return in an
/// unquoted field, or anything but a double quote, comma or line feed after
/// the closing quote, is not CSV.
pub open spec fn csv_step(st: CsvState, c: char) -> CsvState {
    match st.3 {
        CsvMode::FieldStart => if c == '"' {
            (st.0, st.1, st.2, CsvMode::Quoted)
        } else if c == ',' {
            end_field(st)
        } else if c == '\n' {
            end_record(st)
        } else if c == '\r' {
            (st.0, st.1, st.2, CsvMode::Broken)
        } else {
            (st.0, st.1, st.2.push(c), CsvMode::Unquoted)
        },
        CsvMode::Unquoted => if c == ',' {
            end_field(st)
        } else if c == '\n' {
            end_record(st)
        } else if c == '"' || c == '\r' {
            (st.0, st.1, st.2, CsvMode::Broken)
        } else {
            (st.0, st.1, st.2.push(c), CsvMode::Unquoted)
        },
        CsvMode::Quoted => if c == '"' {
            (st.0, st.1, st.2, CsvMode::QuoteInQuoted)
        } else {
            (st.0, st.1, st.2.push(c), CsvMode::Quoted)
        },
        CsvMode::QuoteInQuoted => if c == '"' {
            (st.0, st.1, st.2.push('"'), CsvMode::Quoted)
        } else if c == ',' {
            end_field(st)
        } else if c == '\n' {
            end_record(st)
        } else {
            (st.0, st.1, st.2, CsvMode::Broken)
        },
        CsvMode::Broken => st,
    }
}

/// The reader's state after a text.
pub open spec fn csv_scan(text: Seq<char>, st: CsvState) -> CsvState
    decreases text.len(),
{
    if text.len() == 0 {
        st
    } else {
        csv_scan(text.drop_first(), csv_step(st, text[0]))
    }
}

/// The state of a reader that has read nothing.
pub open spec fn csv_start() -> CsvState {
    (Seq::empty(), Seq::empty(), Seq::empty(), CsvMode::FieldStart)
}

/// The records of a CSV text, each a sequence of fields, where the text is
/// CSV whose every record ends with a line feed; `None` otherwise.
pub open spec fn parse_csv(text: Seq<char>) -> Option<Seq<Seq<Seq<char>>>> {
    let st = csv_scan(text, csv_start());
    if st.3 == CsvMode::FieldStart && st.1.len() == 0 && st.2.len() == 0 {
        Some(st.0)
    } else {
        None
    }
}

/// The value of a text of decimal digits, most significant first.
pub open spec fn decimal_value(s: Seq<char>) -> nat
    decreases s.len(),
{
    if s.len() == 0 {
        0
    } else {
        decimal_value(s.drop_last()) * 10 + digit_value(s.last())
    }
}

/// The value of a decimal digit character.
pub open spec fn digit_value(c: char) -> nat {
    if c == '1' { 1 } else if c == '2' { 2 } else if c == '3' { 3 } else if c == '4' { 4 }
    else if c == '5' { 5 } else if c == '6' { 6 } else if c == '7' { 7 } else if c == '8' { 8 }
    else if c == '9' { 9 } else { 0 }
}

/// The record a hit is read back as: its file, its line number in decimal,
/// and its content.
pub open spec fn hit_record(r: (Seq<char>, usize, Seq<char>)) -> Seq<Seq<char>> {
    seq![r.0, decimal(r.1 as nat), r.2]
}

/// The fields of the header line.
pub open spec fn header_record() -> Seq<Seq<char>> {
    seq![seq!['f', 'i', 'l', 'e'], seq!['l', 'i', 'n', 'e'], seq!['c', 'o', 'n', 't', 'e', 'n', 't']]
}

/// Reading two texts in turn is reading them joined.
proof fn lemma_scan_concat(a: Seq<char>, b: Seq<char>, st: CsvState)
    ensures
        csv_scan(a + b, st) == csv_scan(b, csv_scan(a, st)),
    decreases a.len(),
{
    if a.len() == 0 {
        assert(a + b =~= b);
    } else {
        assert((a + b).drop_first() =~= a.drop_first() + b);
        assert((a + b)[0] == a[0]);
        lemma_scan_concat(a.drop_first(), b, csv_step(st, a[0]));
    }
}

/// Reading one character is one step.
proof fn lemma_scan_one(c: char, st: CsvState)
    ensures
        csv_scan(seq![c], st) == csv_step(st, c),
{
    reveal_with_fuel(csv_scan, 2);
    assert(seq![c].drop_first() =~= Seq::<char>::empty());
}

/// Whether the reader, at the end of a field, can take a comma or a line feed.
pub open spec fn field_may_end(m: CsvMode) -> bool {
    m == CsvMode::FieldStart || m == CsvMode::Unquoted || m == CsvMode::QuoteInQuoted
}

/// Whether `w`, read from the start of a field, is read as the field `f`,
/// which a comma or a line feed may then end.
pub open spec fn reads_as_field(w: Seq<char>, f: Seq<char>) -> bool {
    forall|st: CsvState|
        st.3 == CsvMode::FieldStart && st.2.len() == 0 ==> {
            let r = #[trigger] csv_scan(w, st);
            &&& r.0 == st.0
            &&& r.1 == st.1
            &&& r.2 == f
            &&& field_may_end(r.3)
        }
}

/// Text with no special character is read, inside an unquoted field, onto
/// the end of that field.
proof fn lemma_scan_unquoted(f: Seq<char>, st: CsvState)
    requires
        st.3 == CsvMode::Unquoted,
        forall|i: int| 0 <= i < f.len() ==> !is_special(#[trigger] f[i]),
    ensures
        csv_scan(f, st) == (st.0, st.1, st.2 + f, CsvMode::Unquoted),
    decreases f.len(),
{
    if f.len() == 0 {
        assert(st.2 + f =~= st.2);
    } else {
        assert(!is_special(f[0]));
        let next = csv_step(st, f[0]);
        assert forall|i: int| 0 <= i < f.drop_first().len() implies !is_special(#[trigger] f.drop_first()[i]) by {
            assert(f.drop_first()[i] == f[i + 1]);
        }
        lemma_scan_unquoted(f.drop_first(), next);
        assert(st.2.push(f[0]) + f.drop_first() =~= st.2 + f);
    }
}

/// Text with no special character is read as itself.
proof fn lemma_plain_field(f: Seq<char>)
    requires
        forall|i: int| 0 <= i < f.len() ==> !is_special(#[trigger] f[i]),
    ensures
        reads_as_field(f, f),
{
    assert forall|st: CsvState| st.3 == CsvMode::FieldStart && st.2.len() == 0 implies {
        let r = #[trigger] csv_scan(f, st);
        &&& r.0 == st.0
        &&& r.1 == st.1
        &&& r.2 == f
        &&& field_may_end(r.3)
    } by {
        if f.len() == 0 {
            assert(st.2 =~= f);
        } else {
            assert(!is_special(f[0]));
            let next = csv_step(st, f[0]);
            assert forall|i: int| 0 <= i < f.drop_first().len() implies !is_special(#[trigger] f.drop_first()[i]) by {
                assert(f.drop_first()[i] == f[i + 1]);
            }
            lemma_scan_unquoted(f.drop_first(), next);
            assert(st.2.push(f[0]) + f.drop_first() =~= f);
        }
    }
}

/// Inside a quoted field, a field with its double quotes doubled is read
/// back onto the end of the field.
proof fn lemma_scan_doubled(f: Seq<char>, st: CsvState)
    requires
        st.3 == CsvMode::Quoted,
    ensures
        csv_scan(double_quotes(f), st) == (st.0, st.1, st.2 + f, CsvMode::Quoted),
    decreases f.len(),
{
    if f.len() == 0 {
        assert(st.2 + f =~= st.2);
    } else {
        let rest = f.drop_last();
        let c = f.last();
        lemma_scan_doubled(rest, st);
        let mid = (st.0, st.1, st.2 + rest, CsvMode::Quoted);
        if c == '"' {
            let q = seq!['"'];
            assert(double_quotes(f) =~= double_quotes(rest) + q + q);
            lemma_scan_concat(double_quotes(rest) + q, q, st);
            lemma_scan_concat(double_quotes(rest), q, st);
            lemma_scan_one('"', mid);
            lemma_scan_one('"', csv_step(mid, '"'));
        } else {
            let tail = seq![c];
            assert(double_quotes(f) =~= double_quotes(rest) + tail);
            lemma_scan_concat(double_quotes(rest), tail, st);
            lemma_scan_one(c, mid);
        }
        assert((st.2 + rest).push(c) =~= st.2 + f);
    }
}

/// A field as CSV writes it is read back as that field.
pub proof fn lemma_field_reads_back(f: Seq<char>)
    ensures
        reads_as_field(csv_field(f), f),
{
    if !needs_quotes(f) {
        assert forall|i: int| 0 <= i < f.len() implies !is_special(#[trigger] f[i]) by {
            if is_special(f[i]) {
                assert(needs_quotes(f));
            }
        }
        lemma_plain_field(f);
    } else {
        let w = csv_field(f);
        let open = seq!['"'];
        let body = double_quotes(f);
        assert(w == open + body + open);
        assert forall|st: CsvState| st.3 == CsvMode::FieldStart && st.2.len() == 0 implies {
            let r = #[trigger] csv_scan(w, st);
            &&& r.0 == st.0
            &&& r.1 == st.1
            &&& r.2 == f
            &&& field_may_end(r.3)
        } by {
            lemma_scan_concat(open + body, open, st);
            lemma_scan_concat(open, body, st);
            lemma_scan_one('"', st);
            let s1 = csv_scan(open, st);
            assert(s1 == (st.0, st.1, st.2, CsvMode::Quoted));
            lemma_scan_doubled(f, s1);
            let s2 = csv_scan(body, s1);
            assert(st.2 + f =~= f);
            lemma_scan_one('"', s2);
        }
    }
}

/// The decimal digits of a number are not empty and hold no special
/// character.
proof fn lemma_decimal_plain(n: nat)
    ensures
        decimal(n).len() > 0,
        forall|i: int| 0 <= i < decimal(n).len() ==> !is_special(#[trigger] decimal(n)[i]),
    decreases n,
{
    if n >= 10 {
        lemma_decimal_plain(n / 10);
        let d = decimal(n);
        assert forall|i: int| 0 <= i < d.len() implies !is_special(#[trigger] d[i]) by {
            if i < d.len() - 1 {
                assert(d[i] == decimal(n / 10)[i]);
            }
        }
    }
}

/// The decimal digits of a number read back as that number.
pub proof fn lemma_decimal_reads_back(n: nat)
    ensures
        decimal_value(decimal(n)) == n,
    decreases n,
{
    if n >= 10 {
        lemma_decimal_reads_back(n / 10);
        assert(decimal(n).drop_last() =~= decimal(n / 10));
        assert(digit_value(digit_char(n % 10)) == n % 10);
        assert((n / 10) * 10 + n % 10 == n);
    } else {
        assert(decimal(n).drop_last() =~= Seq::<char>::empty());
        assert(decimal_value(Seq::<char>::empty()) == 0);
        assert(digit_value(digit_char(n)) == n);
    }
}

/// Three written fields separated by commas and ended by a line feed are
/// read as one more record of those three fields.
proof fn lemma_scan_record(
    wa: Seq<char>,
    wb: Seq<char>,
    wc: Seq<char>,
    a: Seq<char>,
    b: Seq<char>,
    c: Seq<char>,
    records: Seq<Seq<Seq<char>>>,
)
    requires
        reads_as_field(wa, a),
        reads_as_field(wb, b),
        reads_as_field(wc, c),
    ensures
        csv_scan(wa + seq![','] + wb + seq![','] + wc + seq!['\n'], (records, Seq::empty(), Seq::empty(), CsvMode::FieldStart))
            == (records.push(seq![a, b, c]), Seq::<Seq<char>>::empty(), Seq::<char>::empty(), CsvMode::FieldStart),
{
    let comma = seq![','];
    let lf = seq!['\n'];
    let s0: CsvState = (records, Seq::empty(), Seq::empty(), CsvMode::FieldStart);
    lemma_scan_concat(wa + comma + wb + comma + wc, lf, s0);
    lemma_scan_concat(wa + comma + wb + comma, wc, s0);
    lemma_scan_concat(wa + comma + wb, comma, s0);
    lemma_scan_concat(wa + comma, wb, s0);
    lemma_scan_concat(wa, comma, s0);
    let s1 = csv_scan(wa, s0);
    lemma_scan_one(',', s1);
    let s2 = csv_scan(comma, s1);
    assert(s2 == (records, seq![a], Seq::<char>::empty(), CsvMode::FieldStart)) by {
        assert(Seq::<Seq<char>>::empty().push(a) =~= seq![a]);
    }
    let s3 = csv_scan(wb, s2);
    lemma_scan_one(',', s3);
    let s4 = csv_scan(comma, s3);
    assert(s4 == (records, seq![a, b], Seq::<char>::empty(), CsvMode::FieldStart)) by {
        assert(seq![a].push(b) =~= seq![a, b]);
    }
    let s5 = csv_scan(wc, s4);
    lemma_scan_one('\n', s5);
    assert(seq![a, b].push(c) =~= seq![a, b, c]);
}

/// A hit written as a CSV line is read back as one record: its file, its
/// line number in decimal, and its content.
proof fn lemma_row_reads_back(r: (Seq<char>, usize, Seq<char>), records: Seq<Seq<Seq<char>>>)
    ensures
        csv_scan(csv_row(r), (records, Seq::empty(), Seq::empty(), CsvMode::FieldStart))
            == (records.push(hit_record(r)), Seq::<Seq<char>>::empty(), Seq::<char>::empty(), CsvMode::FieldStart),
{
    lemma_field_reads_back(r.0);
    lemma_field_reads_back(r.2);
    lemma_decimal_plain(r.1 as nat);
    lemma_plain_field(decimal(r.1 as nat));
    lemma_scan_record(csv_field(r.0), decimal(r.1 as nat), csv_field(r.2), r.0, decimal(r.1 as nat), r.2, records);
}

/// The lines of hits are read back as one record per hit, in order.
proof fn lemma_rows_read_back(rows: Seq<(Seq<char>, usize, Seq<char>)>, records: Seq<Seq<Seq<char>>>)
    ensures
        csv_scan(csv_rows(rows), (records, Seq::empty(), Seq::empty(), CsvMode::FieldStart))
            == (records + rows.map_values(|r: (Seq<char>, usize, Seq<char>)| hit_record(r)), Seq::<Seq<char>>::empty(), Seq::<char>::empty(), CsvMode::FieldStart),
    decreases rows.len(),
{
    let rec = |r: (Seq<char>, usize, Seq<char>)| hit_record(r);
    if rows.len() == 0 {
        assert(records + rows.map_values(rec) =~= records);
    } else {
        let rest = rows.drop_last();
        lemma_rows_read_back(rest, records);
        let mid = records + rest.map_values(rec);
        lemma_scan_concat(csv_rows(rest), csv_row(rows.last()), (records, Seq::empty(), Seq::empty(), CsvMode::FieldStart));
        lemma_row_reads_back(rows.last(), mid);
        assert(mid.push(hit_record(rows.last())) =~= records + rows.map_values(rec));
    }
}

/// CSV output reads back: by RFC 4180, the text that `to_csv` writes for a
/// list of hits is read as the header record `file,line,content` followed by
/// exactly one record per hit, in order, each holding the hit's file, its
/// line number in decimal and its content unchanged, whatever commas, double
/// quotes, carriage returns or line feeds they hold.
pub proof fn lemma_csv_round_trip(rows: Seq<(Seq<char>, usize, Seq<char>)>)
    ensures
        parse_csv(csv_header() + csv_rows(rows)) == Some(
            seq![header_record()] + rows.map_values(|r: (Seq<char>, usize, Seq<char>)| hit_record(r)),
        ),
{
    let h = header_record();
    let file = h[0];
    let line = h[1];
    let content = h[2];
    let comma = seq![','];
    let lf = seq!['\n'];
    assert(csv_header() =~= file + comma + line + comma + content + lf);
    assert forall|i: int| 0 <= i < file.len() implies !is_special(#[trigger] file[i]) by {}
    assert forall|i: int| 0 <= i < line.len() implies !is_special(#[trigger] line[i]) by {}
    assert forall|i: int| 0 <= i < content.len() implies !is_special(#[trigger] content[i]) by {}
    lemma_plain_field(file);
    lemma_plain_field(line);
    lemma_plain_field(content);
    lemma_scan_record(file, line, content, file, line, content, Seq::empty());
    assert(seq![file, line, content] =~= h);
    assert(Seq::<Seq<Seq<char>>>::empty().push(h) =~= seq![h]);
    lemma_scan_concat(csv_header(), csv_rows(rows), csv_start());
    lemma_rows_read_back(rows, seq![h]);
}

/// The text of one decimal digit.
fn digit_str(d: usize) -> (r: &'static str)
    requires
        d < 10,
    ensures
        r@ == seq![digit_char(d as nat)],
{
    proof {
        reveal_strlit("0"); reveal_strlit("1"); reveal_strlit("2"); reveal_strlit("3"); reveal_strlit("4");
        reveal_strlit("5"); reveal_strlit("6"); reveal_strlit("7"); reveal_strlit("8"); reveal_strlit("9");
    }
    if d == 0 { "0" } else if d == 1 { "1" } else if d == 2 { "2" } else if d == 3 { "3" }
    else if d == 4 { "4" } else if d == 5 { "5" } else if d == 6 { "6" } else if d == 7 { "7" }
    else if d == 8 { "8" } else { "9" }
}

/// Appends the decimal digits of `n`.
fn push_decimal(out: &mut String, n: usize)
    ensures
        final(out)@ == old(out)@ + decimal(n as nat),
    decreases n,
{
    if n < 10 {
        out.append(digit_str(n));
    } else {
        push_decimal(out, n / 10);
        out.append(digit_str(n % 10));
    }
}

/// Appends a field as CSV writes it.
fn push_field(out: &mut String, field: &str)
    ensures
        final(out)@ == old(out)@ + csv_field(field@),
{
    proof {
        reveal_strlit("\"");
        reveal_strlit("\"\"");
    }
    let chars = chars_of(field);
    let ghost f = field@;
    let mut quote = false;
    let mut i: usize = 0;
    while i < chars.len()
        invariant
            chars@ == f,
            i <= f.len(),
            quote == exists|k: int| 0 <= k < i && (f[k] == ',' || f[k] == '"' || f[k] == '\r' || f[k] == '\n'),
        decreases f.len() - i,
    {
        let c = chars[i];
        if c == ',' || c == '"' || c == '\r' || c == '\n' {
            quote = true;
        }
        i = i + 1;
    }
    assert(quote == needs_quotes(f));
    if !quote {
        out.append(field);
        return;
    }
    out.append("\"");
    // Copy the field, doubling each double quote.
    let ghost base = out@;
    let mut start: usize = 0;
    let mut j: usize = 0;
    assert(f.take(0) =~= Seq::<char>::empty());
    while j < chars.len()
        invariant
            chars@ == f,
            field@ == f,
            "\""@ == seq!['"'],
            start <= j <= f.len(),
            out@ + f.subrange(start as int, j as int) == base + double_quotes(f.take(j as int)),
        decreases f.len() - j,
    {
        assert(f.take(j + 1).drop_last() =~= f.take(j as int));
        assert(f.take(j + 1).last() == f[j as int]);
        if chars[j] == '"' {
            let ghost before = out@;
            out.append(field.substring_char(start, j + 1));
            out.append("\"");
            assert(f.subrange(start as int, j + 1) =~= f.subrange(start as int, j as int).push('"'));
            assert(out@ + f.subrange(j + 1, j + 1) =~= before + f.subrange(start as int, j as int) + seq!['"', '"']);
            start = j + 1;
        } else {
            assert(f.subrange(start as int, j + 1) =~= f.subrange(start as int, j as int).push(f[j as int]));
            assert(out@ + f.subrange(start as int, j + 1) =~= (out@ + f.subrange(start as int, j as int)).push(f[j as int]));
        }
        j = j + 1;
    }
    assert(f.take(f.len() as int) =~= f);
    out.append(field.substring_char(start, chars.len()));
    out.append("\"");
}

/// The CSV text of hits given as (file, line, content): the header line, then
/// one line per hit, in order.
pub fn to_csv(rows: &Vec<(String, usize, String)>) -> (r: String)
    ensures
        r@ == csv_header() + csv_rows(rows@.map_values(|h: (String, usize, String)| (h.0@, h.1, h.2@))),
        parse_csv(r@) == Some(
            seq![header_record()] + rows@.map_values(|h: (String, usize, String)| (h.0@, h.1, h.2@)).map_values(
                |v: (Seq<char>, usize, Seq<char>)| hit_record(v),
            ),
        ),
{
    let ghost views = rows@.map_values(|h: (String, usize, String)| (h.0@, h.1, h.2@));
    let mut out = String::new();
    proof {
        reveal_strlit("file,line,content\n");
        reveal_strlit(",");
        reveal_strlit("\n");
    }
    out.append("file,line,content\n");
    assert(out@ =~= csv_header());
    assert(views.take(0) =~= Seq::<(Seq<char>, usize, Seq<char>)>::empty());
    let mut k: usize = 0;
    while k < rows.len()
        invariant
            k <= rows@.len(),
            views == rows@.map_values(|h: (String, usize, String)| (h.0@, h.1, h.2@)),
            out@ == csv_header() + csv_rows(views.take(k as int)),
            ","@ == seq![','],
            "\n"@ == seq!['\n'],
        decreases rows@.len() - k,
    {
        assert(views.take(k + 1).drop_last() =~= views.take(k as int));
        assert(views.take(k + 1).last() == views[k as int]);
        let ghost before = out@;
        let row = &rows[k];
        assert(views[k as int] == (row.0@, row.1, row.2@));
        push_field(&mut out, row.0.as_str());
        out.append(",");
        push_decimal(&mut out, row.1);
        out.append(",");
        push_field(&mut out, row.2.as_str());
        out.append("\n");
        assert(out@ =~= before + csv_row(views[k as int]));
        assert(csv_rows(views.take(k + 1)) == csv_rows(views.take(k as int)) + csv_row(views[k as int]));
        k = k + 1;
    }
    assert(views.take(rows@.len() as int) =~= views);
    proof {
        lemma_csv_round_trip(views);
    }
    out
}

} // verus!
