use ingest_csv::dataset::DataSet;
use ingest_csv::errors::LoadError;

fn s(t: &str) -> String {
    String::from(t)
}

fn rec2(a: &str, b: &str) -> Vec<String> {
    vec![s(a), s(b)]
}

#[test]
fn join_matches_overlapping_keys() {
    let left = vec![rec2("1", "apple"), rec2("2", "pear"), rec2("3", "plum")];
    let right = vec![rec2("1", "red"), rec2("3", "blue"), rec2("9", "grey")];
    let mut l = DataSet::new(vec![s("fdc_id"), s("name")], left);
    let mut r = DataSet::new(vec![s("fdc_id"), s("color")], right);
    let out = l.inner_join(&mut r, "fdc_id").unwrap();
    assert_eq!(out.records.len(), 2);
    assert_eq!(out.records[0], vec![s("1"), s("apple"), s("1"), s("red")]);
    assert_eq!(out.records[1], vec![s("3"), s("plum"), s("3"), s("blue")]);
}

#[test]
fn join_fans_out_duplicate_right_keys() {
    let left = vec![rec2("5", "milk")];
    let right = vec![rec2("5", "a"), rec2("5", "b")];
    let mut l = DataSet::new(vec![s("k"), s("v")], left);
    let mut r = DataSet::new(vec![s("k"), s("w")], right);
    let out = l.inner_join(&mut r, "k").unwrap();
    assert_eq!(out.records.len(), 2);
    assert_eq!(out.records[0], vec![s("5"), s("milk"), s("5"), s("a")]);
    assert_eq!(out.records[1], vec![s("5"), s("milk"), s("5"), s("b")]);
}

#[test]
fn join_cross_product_on_both_sides() {
    let left = vec![rec2("7", "x"), rec2("7", "y")];
    let right = vec![rec2("7", "p"), rec2("7", "q")];
    let mut l = DataSet::new(vec![s("k"), s("v")], left);
    let mut r = DataSet::new(vec![s("k"), s("w")], right);
    let out = l.inner_join(&mut r, "k").unwrap();
    // every (left, right) pair sharing the key appears exactly once
    assert_eq!(out.records.len(), 4);
    let mut seen = 0;
    for rec in &out.records {
        assert_eq!(rec.len(), 4);
        assert_eq!(rec[0], "7");
        assert_eq!(rec[2], "7");
        if rec[1] == "x" && rec[3] == "p" {
            seen += 1;
        }
    }
    assert_eq!(seen, 1);
}

#[test]
fn join_header_concatenation() {
    let mut l = DataSet::new(vec![s("a"), s("b")], vec![rec2("1", "2")]);
    let mut r = DataSet::new(vec![s("a"), s("c"), s("d")], vec![vec![s("1"), s("3"), s("4")]]);
    let out = l.inner_join(&mut r, "a").unwrap();
    assert_eq!(out.headers.len(), 5);
    assert_eq!(out.headers, vec![s("a"), s("b"), s("a"), s("c"), s("d")]);
}

#[test]
fn join_empty_input_is_empty_not_error() {
    let mut l = DataSet::new(vec![s("k"), s("v")], vec![]);
    let mut r = DataSet::new(vec![s("k"), s("w")], vec![rec2("1", "a")]);
    let out = l.inner_join(&mut r, "k").unwrap();
    assert_eq!(out.records.len(), 0);
    assert_eq!(out.headers.len(), 4);

    let mut l2 = DataSet::new(vec![s("k"), s("v")], vec![rec2("1", "a")]);
    let mut r2 = DataSet::new(vec![s("k"), s("w")], vec![]);
    let out2 = l2.inner_join(&mut r2, "k").unwrap();
    assert_eq!(out2.records.len(), 0);
}

#[test]
fn join_missing_column_is_an_error() {
    let mut l = DataSet::new(vec![s("k")], vec![vec![s("1")]]);
    let mut r = DataSet::new(vec![s("other")], vec![vec![s("1")]]);
    let e = l.inner_join(&mut r, "k").unwrap_err();
    assert_eq!(e, LoadError::ColumnNotFound);
}

#[test]
fn join_empty_key_matches_empty_key() {
    let left = vec![rec2("", "blank")];
    let right = vec![rec2("", "also")];
    let mut l = DataSet::new(vec![s("k"), s("v")], left);
    let mut r = DataSet::new(vec![s("k"), s("w")], right);
    let out = l.inner_join(&mut r, "k").unwrap();
    assert_eq!(out.records.len(), 1);
    assert_eq!(out.records[0], vec![s(""), s("blank"), s(""), s("also")]);
}

#[test]
fn key_index_finds_first_occurrence() {
    let d = DataSet::new(vec![s("a"), s("b"), s("a")], vec![]);
    assert_eq!(d.key_index("a").unwrap(), 0);
    assert_eq!(d.key_index("b").unwrap(), 1);
    assert_eq!(d.key_index("zz").unwrap_err(), LoadError::ColumnNotFound);
}

#[test]
fn sort_by_index_orders_lexicographically() {
    let recs = vec![rec2("pear", "2"), rec2("apple", "1"), rec2("plum", "3")];
    let mut d = DataSet::new(vec![s("name"), s("n")], recs);
    d.sort_by_index(0).unwrap();
    assert_eq!(d.records[0][0], "apple");
    assert_eq!(d.records[1][0], "pear");
    assert_eq!(d.records[2][0], "plum");
}

#[test]
fn sort_by_index_out_of_bounds_is_an_error() {
    let mut d = DataSet::new(vec![s("name")], vec![vec![s("x")]]);
    assert_eq!(d.sort_by_index(1).unwrap_err(), LoadError::IndexOutOfBounds);
    assert_eq!(d.records[0][0], "x");
}
