use rattlebrain::codec::document_to_csv;
use rattlebrain::frame::{classify, frame_plot, frame_rows, partition, FrameRow, SchemaError, Series};
use rattlebrain::json::JsonValue;

fn s(x: &str) -> String {
    x.to_string()
}

const NUMERIC: [&str; 14] = [
    "time",
    "location_x",
    "location_y",
    "location_z",
    "rotation_x",
    "rotation_y",
    "rotation_z",
    "rotation_w",
    "angular_velocity_x",
    "angular_velocity_y",
    "angular_velocity_z",
    "linear_velocity_x",
    "linear_velocity_y",
    "linear_velocity_z",
];

fn header() -> Vec<String> {
    let mut h = vec![s("time"), s("team"), s("player_name")];
    h.extend(NUMERIC[1..].iter().map(|x| s(x)));
    h
}

fn row(time: &str, team: &str, name: &str, x: &str, y: &str) -> Vec<String> {
    let mut r = vec![s(time), s(team), s(name), s(x), s(y)];
    r.extend((0..11).map(|i| format!("{}", i)));
    r
}

fn frame(team: Option<u32>, name: &str) -> FrameRow {
    FrameRow { team, entity: s(name), numbers: vec![s("0"); 14] }
}

#[test]
fn rows_are_read_by_column_name() {
    let records = vec![header(), row("1.5", "46", "Alice", "10", "-20"), row("2", "", "_ball_", "0", "0")];
    let rows = frame_rows(&records).unwrap();
    assert_eq!(rows.len(), 2);
    assert_eq!(rows[0].team, Some(46));
    assert_eq!(rows[0].entity, "Alice");
    assert_eq!(rows[0].numbers[0], "1.5");
    assert_eq!(rows[0].numbers[1], "10");
    assert_eq!(rows[0].numbers[2], "-20");
    assert_eq!(rows[1].team, None);
    assert_eq!(rows[1].entity, "_ball_");
}

#[test]
fn team_cell_forms() {
    let records = vec![header(), row("1", "0x2e", "A", "0", "0"), row("1", "+50", "B", "0", "0")];
    let rows = frame_rows(&records).unwrap();
    assert_eq!(rows[0].team, Some(46));
    assert_eq!(rows[1].team, Some(50));
}

#[test]
fn no_records_is_no_rows() {
    assert_eq!(frame_rows(&vec![]).unwrap().len(), 0);
}

#[test]
fn missing_numeric_column_is_schema_error() {
    let mut h = header();
    h.retain(|c| c != "rotation_w");
    let mut r = row("1", "46", "A", "0", "0");
    r.pop();
    assert_eq!(frame_rows(&vec![h, r]).unwrap_err(), SchemaError::MissingColumn);
}

#[test]
fn missing_name_column_is_schema_error() {
    let mut h = header();
    h[2] = s("entity");
    assert_eq!(frame_rows(&vec![h]).unwrap_err(), SchemaError::MissingColumn);
}

#[test]
fn empty_numeric_cell_is_schema_error() {
    let records = vec![header(), row("1", "46", "A", "0", "0"), row("1", "46", "A", "", "0")];
    assert_eq!(frame_rows(&records).unwrap_err(), SchemaError::BadRow(1));
}

#[test]
fn malformed_team_is_schema_error() {
    let records = vec![header(), row("1", "blue", "A", "0", "0")];
    assert_eq!(frame_rows(&records).unwrap_err(), SchemaError::BadRow(0));
    let records = vec![header(), row("1", "-3", "A", "0", "0")];
    assert_eq!(frame_rows(&records).unwrap_err(), SchemaError::BadRow(0));
    let records = vec![header(), row("1", "4294967296", "A", "0", "0")];
    assert_eq!(frame_rows(&records).unwrap_err(), SchemaError::BadRow(0));
}

#[test]
fn short_row_is_schema_error() {
    let mut r = row("1", "46", "A", "0", "0");
    r.pop();
    assert_eq!(frame_rows(&vec![header(), r]).unwrap_err(), SchemaError::BadRow(0));
}

#[test]
fn unreadable_text_is_reported() {
    assert_eq!(frame_plot(b"a,b\n1\n").unwrap_err(), SchemaError::Unreadable);
}

#[test]
fn classification_rule() {
    assert_eq!(classify(None, &s("_ball_")), Some(Series::Ball));
    assert_eq!(classify(Some(46), &s("_ball_")), Some(Series::Ball));
    assert_eq!(classify(Some(46), &s("Alice")), Some(Series::TeamA));
    assert_eq!(classify(Some(50), &s("Bob")), Some(Series::TeamB));
    assert_eq!(classify(Some(7), &s("Carol")), None);
    assert_eq!(classify(None, &s("Dave")), None);
}

#[test]
fn partition_counts_each_series() {
    let rows = vec![
        frame(Some(46), "a"),
        frame(None, "_ball_"),
        frame(Some(50), "b"),
        frame(Some(46), "c"),
        frame(Some(99), "d"),
        frame(None, "_ball_"),
    ];
    let p = partition(&rows);
    assert_eq!(p.ball, vec![1, 5]);
    assert_eq!(p.team_a, vec![0, 3]);
    assert_eq!(p.team_b, vec![2]);
    assert_eq!(p.ball.len() + p.team_a.len() + p.team_b.len(), 5);
}

fn record(fields: Vec<(&str, &str)>) -> JsonValue {
    JsonValue::Object(fields.into_iter().map(|(k, v)| (s(k), JsonValue::Number(s(v)))).collect())
}

fn with_name(v: JsonValue, name: &str) -> JsonValue {
    match v {
        JsonValue::Object(mut f) => {
            f.insert(2, (s("player_name"), JsonValue::Str(s(name))));
            JsonValue::Object(f)
        }
        other => other,
    }
}

#[test]
fn flattened_records_plot_one_blue_and_one_red() {
    let rest: Vec<(&str, &str)> = NUMERIC[3..].iter().map(|k| (*k, "0")).collect();
    let mut alice = vec![("time", "1.0"), ("team", "46"), ("location_x", "1"), ("location_y", "2")];
    alice.extend(rest.iter().cloned());
    let mut ball = vec![("time", "1.0"), ("location_x", "0"), ("location_y", "0")];
    ball.extend(rest.iter().cloned());
    let doc = JsonValue::Array(vec![with_name(record(alice), "Alice"), with_name(record(ball), "_ball_")]);
    let text = document_to_csv(&doc);
    let (rows, p) = frame_plot(&text).unwrap();
    assert_eq!(p.team_a, vec![0]);
    assert_eq!(p.ball, vec![1]);
    assert!(p.team_b.is_empty());
    assert_eq!((rows[0].numbers[1].as_str(), rows[0].numbers[2].as_str()), ("1", "2"));
    assert_eq!((rows[1].numbers[1].as_str(), rows[1].numbers[2].as_str()), ("0", "0"));
    assert_eq!(rows[1].team, None);
}
