use ingest_csv::errors::LoadError;
use ingest_csv::tabular::parse_table;

#[test]
fn parses_plain_table() {
    let ds = parse_table("a,b\n1,2\n3,4\n").unwrap();
    assert_eq!(ds.headers, vec![String::from("a"), String::from("b")]);
    assert_eq!(ds.records.len(), 2);
    assert_eq!(ds.records[0], vec![String::from("1"), String::from("2")]);
    assert_eq!(ds.records[1], vec![String::from("3"), String::from("4")]);
}

#[test]
fn last_line_may_lack_a_break() {
    let ds = parse_table("a,b\n1,2").unwrap();
    assert_eq!(ds.records.len(), 1);
    assert_eq!(ds.records[0][1], "2");
}

#[test]
fn quoted_fields_keep_commas_and_breaks() {
    let ds = parse_table("name,ingredients\nsoup,\"water, salt\"\n").unwrap();
    assert_eq!(ds.records[0][1], "water, salt");
    let ds2 = parse_table("a,b\n\"line\none\",2\n").unwrap();
    assert_eq!(ds2.records[0][0], "line\none");
}

#[test]
fn doubled_quote_stands_for_one() {
    let ds = parse_table("a,b\n\"he said \"\"hi\"\"\",2\n").unwrap();
    assert_eq!(ds.records[0][0], "he said \"hi\"");
}

#[test]
fn carriage_return_breaks_rows() {
    let ds = parse_table("a,b\r\n1,2\r\n").unwrap();
    assert_eq!(ds.headers.len(), 2);
    assert_eq!(ds.records.len(), 1);
    assert_eq!(ds.records[0][0], "1");
}

#[test]
fn ragged_record_is_an_error() {
    let e = parse_table("a,b\n1,2,3\n").unwrap_err();
    assert_eq!(e, LoadError::RaggedRecord);
}

#[test]
fn empty_text_is_an_empty_table() {
    let ds = parse_table("").unwrap();
    assert_eq!(ds.headers.len(), 0);
    assert_eq!(ds.records.len(), 0);
}

#[test]
fn empty_fields_survive() {
    let ds = parse_table("a,b,c\n,,\n").unwrap();
    assert_eq!(ds.records[0], vec![String::new(), String::new(), String::new()]);
}
