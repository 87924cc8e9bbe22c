use pyfastgrep::csv::to_csv;

fn row(f: &str, l: usize, c: &str) -> (String, usize, String) {
    (f.to_string(), l, c.to_string())
}

#[test]
fn csv_header_only_for_no_hits() {
    assert_eq!(to_csv(&Vec::new()), "file,line,content\n");
}

#[test]
fn csv_plain_and_quoted_fields() {
    let rows = vec![
        row("src/a.rs", 7, "fn main() {}"),
        row("b,c.txt", 120, "say \"hi\"\n"),
        row("d.py", 0, "x\ry"),
    ];
    assert_eq!(
        to_csv(&rows),
        "file,line,content\nsrc/a.rs,7,fn main() {}\n\"b,c.txt\",120,\"say \"\"hi\"\"\n\"\nd.py,0,\"x\ry\"\n"
    );
}

#[test]
fn csv_numbers_in_decimal() {
    let rows = vec![row("f", 9, ""), row("f", 10, ""), row("f", 18446744073709551615, "")];
    assert_eq!(to_csv(&rows), "file,line,content\nf,9,\nf,10,\nf,18446744073709551615,\n");
}
