use rattlebrain::codec::{document_to_csv, encode_lines};
use rattlebrain::flatten::{flatten_document, flatten_value, table_from_pairs};
use rattlebrain::json::JsonValue;
use rattlebrain::text::decimal_string;

fn s(x: &str) -> String {
    x.to_string()
}

fn num(x: &str) -> JsonValue {
    JsonValue::Number(s(x))
}

fn obj(fields: Vec<(&str, JsonValue)>) -> JsonValue {
    JsonValue::Object(fields.into_iter().map(|(k, v)| (s(k), v)).collect())
}

#[test]
fn nested_values_get_dotted_keys() {
    let v = obj(vec![
        ("a", obj(vec![("b", num("1"))])),
        ("c", JsonValue::Array(vec![JsonValue::Bool(true), JsonValue::Null])),
        ("d", JsonValue::Str(s("x"))),
    ]);
    let mut out = Vec::new();
    flatten_value(&String::new(), &v, &mut out);
    assert_eq!(
        out,
        vec![
            (s("a.b"), s("1")),
            (s("c.0"), s("true")),
            (s("c.1"), s("")),
            (s("d"), s("x")),
        ]
    );
}

#[test]
fn prefix_starts_every_key() {
    let v = JsonValue::Array(vec![num("7"), obj(vec![("k", JsonValue::Bool(false))])]);
    let mut out = vec![(s("z"), s("0"))];
    flatten_value(&s("p"), &v, &mut out);
    assert_eq!(out, vec![(s("z"), s("0")), (s("p.0"), s("7")), (s("p.1.k"), s("false"))]);
}

#[test]
fn header_is_union_in_first_seen_order() {
    let doc = JsonValue::Array(vec![
        obj(vec![("a", num("1")), ("b", num("2"))]),
        obj(vec![("c", num("3")), ("a", num("4"))]),
    ]);
    let t = flatten_document(&doc);
    assert_eq!(t.header, vec![s("a"), s("b"), s("c")]);
    assert_eq!(t.rows, vec![vec![s("1"), s("2"), s("")], vec![s("4"), s(""), s("3")]]);
}

#[test]
fn ragged_record_gets_empty_cell() {
    let doc = JsonValue::Array(vec![
        obj(vec![("k", num("1")), ("x", JsonValue::Str(s("a")))]),
        obj(vec![("x", JsonValue::Str(s("b")))]),
        obj(vec![("k", num("3")), ("x", JsonValue::Str(s("c")))]),
    ]);
    let t = flatten_document(&doc);
    assert_eq!(t.header, vec![s("k"), s("x")]);
    assert_eq!(t.rows[1], vec![s(""), s("b")]);
}

fn base_records() -> Vec<JsonValue> {
    vec![
        obj(vec![("a", num("1")), ("b", obj(vec![("c", num("2"))]))]),
        obj(vec![("d", num("3"))]),
    ]
}

#[test]
fn subset_record_keeps_header() {
    let before = flatten_document(&JsonValue::Array(base_records()));
    let mut more = base_records();
    more.push(obj(vec![("d", num("9")), ("b", obj(vec![("c", num("8"))]))]));
    let after = flatten_document(&JsonValue::Array(more));
    assert_eq!(before.header, vec![s("a"), s("b.c"), s("d")]);
    assert_eq!(before.header, after.header);
    assert_eq!(after.rows[2], vec![s(""), s("8"), s("9")]);
}

#[test]
fn scalar_document_is_one_record() {
    let t = flatten_document(&obj(vec![("m", num("2.5"))]));
    assert_eq!(t.header, vec![s("m")]);
    assert_eq!(t.rows, vec![vec![s("2.5")]]);
}

#[test]
fn empty_collection_writes_empty_file() {
    let bytes = document_to_csv(&JsonValue::Array(vec![]));
    assert!(bytes.is_empty());
}

#[test]
fn csv_output_quotes_and_pads() {
    let doc = JsonValue::Array(vec![
        obj(vec![("name", JsonValue::Str(s("x,y"))), ("n", num("1.25"))]),
        obj(vec![("name", JsonValue::Str(s("say \"hi\"")))]),
    ]);
    let bytes = document_to_csv(&doc);
    assert_eq!(String::from_utf8(bytes).unwrap(), "name,n\n\"x,y\",1.25\n\"say \"\"hi\"\"\",\n");
}

#[test]
fn table_from_pairs_pads_rows() {
    let t = table_from_pairs(&vec![vec![(s("a"), s("1"))], vec![(s("b"), s("2"))]]);
    assert_eq!(t.header, vec![s("a"), s("b")]);
    assert_eq!(t.rows, vec![vec![s("1"), s("")], vec![s(""), s("2")]]);
}

#[test]
fn encode_lines_quotes_fields() {
    let lines = vec![vec![s("a"), s("b")], vec![s("1,2"), s("")]];
    let bytes = encode_lines(&lines);
    assert_eq!(String::from_utf8(bytes).unwrap(), "a,b\n\"1,2\",\n");
}

#[test]
fn decimal_strings() {
    assert_eq!(decimal_string(0), "0");
    assert_eq!(decimal_string(7), "7");
    assert_eq!(decimal_string(10), "10");
    assert_eq!(decimal_string(1203), "1203");
}

#[test]
fn empty_record_writes_quoted_empty_line() {
    let bytes = document_to_csv(&JsonValue::Array(vec![obj(vec![])]));
    assert_eq!(String::from_utf8(bytes).unwrap(), "\"\"\n\"\"\n");
    let bytes = encode_lines(&vec![vec![s(""), s("")], vec![s("é\r")]]);
    assert_eq!(String::from_utf8(bytes).unwrap(), ",\n\"é\r\"\n");
}
