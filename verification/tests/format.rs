use vault_core::transfer::{
    count_rows, encode_line, encode_table, escape_bytes, parse_line, split_bytes, unescape_bytes,
    Row,
};

fn v(s: &str) -> Vec<u8> {
    s.as_bytes().to_vec()
}

fn row(name: &str, description: &str, username: &str, password: &str, url: &str) -> Row {
    Row {
        name: v(name),
        description: v(description),
        username: v(username),
        password: v(password),
        url: v(url),
    }
}

#[test]
fn escape_produces_exact_bytes() {
    assert_eq!(escape_bytes(&v("plain")), v("plain"));
    assert_eq!(escape_bytes(&v("a,b")), v("a\\cb"));
    assert_eq!(escape_bytes(&v("a\nb")), v("a\\nb"));
    assert_eq!(escape_bytes(&v("a\rb")), v("a\\rb"));
    assert_eq!(escape_bytes(&v("a\\b")), v("a\\\\b"));
}

#[test]
fn unescape_inverts_escape() {
    for s in [
        v(""),
        v("plain"),
        v("a,b,c"),
        v("line\none\r\nline two"),
        v("back\\slash,\\n"),
        vec![0u8, 255, 92, 92, 10, 44, 13],
    ] {
        let escaped = escape_bytes(&s);
        assert_eq!(unescape_bytes(&escaped), Some(s));
    }
}

#[test]
fn unescape_rejects_malformed() {
    assert_eq!(unescape_bytes(&v("dangling\\")), None);
    assert_eq!(unescape_bytes(&v("bad\\x")), None);
}

#[test]
fn split_cuts_at_every_separator() {
    let parts = split_bytes(&v("a,b,,c"), 44);
    assert_eq!(parts, vec![v("a"), v("b"), v(""), v("c")]);
    assert_eq!(split_bytes(&v(""), 44), vec![v("")]);
    assert_eq!(split_bytes(&v(","), 44), vec![v(""), v("")]);
}

#[test]
fn parse_line_round_trips_one_row() {
    let r = row("name", "desc", "user", "p,w\n\\d", "https://example.test");
    let line = encode_line(&r);
    let back = parse_line(&line).unwrap();
    assert_eq!(back.name, r.name);
    assert_eq!(back.description, r.description);
    assert_eq!(back.username, r.username);
    assert_eq!(back.password, r.password);
    assert_eq!(back.url, r.url);
}

#[test]
fn parse_line_rejects_wrong_column_count() {
    assert!(parse_line(&v("a,b,c,d")).is_none());
    assert!(parse_line(&v("a,b,c,d,e,f")).is_none());
    assert!(parse_line(&v("")).is_none());
}

#[test]
fn parse_line_rejects_bad_escape_in_field() {
    assert!(parse_line(&v("a,b,c,bad\\q,e")).is_none());
}

#[test]
fn table_round_trips_many_rows() {
    let rows = vec![
        row("a", "", "", "p1", ""),
        row("with,comma", "and\nnewline", "u", "p\\2", "w"),
        row("", "", "", "", ""),
    ];
    let data = encode_table(&rows);
    let lines = split_bytes(&data, 10);
    assert_eq!(lines.len(), rows.len());
    for (line, r) in lines.iter().zip(rows.iter()) {
        let back = parse_line(line).unwrap();
        assert_eq!(back.name, r.name);
        assert_eq!(back.password, r.password);
        assert_eq!(back.url, r.url);
    }
}

#[test]
fn empty_table_is_empty_bytes() {
    let rows: Vec<Row> = Vec::new();
    assert_eq!(encode_table(&rows), Vec::<u8>::new());
    assert_eq!(count_rows(&Vec::new()), 0);
}

#[test]
fn count_rows_counts_lines() {
    assert_eq!(count_rows(&v("a,b,c,d,e")), 1);
    assert_eq!(count_rows(&v("x\ny\nz")), 3);
    assert_eq!(count_rows(&v("x\n")), 2);
}
