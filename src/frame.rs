use vstd::prelude::*;
use crate::flatten::strings_view;
use crate::codec::{csv_readable, csv_records_of, decode_records};

verus! {

/// The number of numeric fields of a frame record.
pub const NUMERIC_FIELDS: usize = 14;

/// The team id drawn as the first team.
pub const TEAM_A: u32 = 46;

/// The team id drawn as the second team.
pub const TEAM_B: u32 = 50;

/// The column names of the numeric fields of a frame record, in schema order.
pub open spec fn numeric_field(i: int) -> Seq<char> {
    if i == 0 { "time"@ }
    else if i == 1 { "location_x"@ }
    else if i == 2 { "location_y"@ }
    else if i == 3 { "location_z"@ }
    else if i == 4 { "rotation_x"@ }
    else if i == 5 { "rotation_y"@ }
    else if i == 6 { "rotation_z"@ }
    else if i == 7 { "rotation_w"@ }
    else if i == 8 { "angular_velocity_x"@ }
    else if i == 9 { "angular_velocity_y"@ }
    else if i == 10 { "angular_velocity_z"@ }
    else if i == 11 { "linear_velocity_x"@ }
    else if i == 12 { "linear_velocity_y"@ }
    else { "linear_velocity_z"@ }
}

/// The column name of the entity name.
pub open spec fn name_field() -> Seq<char> {
    "player_name"@
}

/// The column name of the optional team id.
pub open spec fn team_field() -> Seq<char> {
    "team"@
}

/// The entity name that denotes the ball.
pub open spec fn ball_name() -> Seq<char> {
    "_ball_"@
}

fn numeric_field_name(i: usize) -> (r: String)
    requires
        i < NUMERIC_FIELDS,
    ensures
        r@ == numeric_field(i as int),
{
    let s: &str = if i == 0 { "time" }
    else if i == 1 { "location_x" }
    else if i == 2 { "location_y" }
    else if i == 3 { "location_z" }
    else if i == 4 { "rotation_x" }
    else if i == 5 { "rotation_y" }
    else if i == 6 { "rotation_z" }
    else if i == 7 { "rotation_w" }
    else if i == 8 { "angular_velocity_x" }
    else if i == 9 { "angular_velocity_y" }
    else if i == 10 { "angular_velocity_z" }
    else if i == 11 { "linear_velocity_x" }
    else if i == 12 { "linear_velocity_y" }
    else { "linear_velocity_z" };
    String::from_str(s)
}

/// The index of the first column named `name`, if there is one.
#[verifier::opaque]
pub open spec fn column_index(header: Seq<Seq<char>>, name: Seq<char>) -> Option<int> {
    if header.contains(name) {
        Some(choose|j: int| 0 <= j < header.len() && header[j] == name
            && forall|k: int| 0 <= k < j ==> header[k] != name)
    } else {
        None
    }
}

proof fn lemma_first_occurrence(header: Seq<Seq<char>>, name: Seq<char>, w: int)
    requires
        0 <= w < header.len(),
        header[w] == name,
    ensures
        exists|j: int| 0 <= j < header.len() && header[j] == name
            && forall|k: int| 0 <= k < j ==> header[k] != name,
    decreases w,
{
    if exists|q: int| 0 <= q < w && header[q] == name {
        let q = choose|q: int| 0 <= q < w && header[q] == name;
        lemma_first_occurrence(header, name, q);
    } else {
        assert(forall|k: int| 0 <= k < w ==> header[k] != name);
    }
}

proof fn lemma_column_index_in_header(header: Seq<Seq<char>>, name: Seq<char>)
    ensures
        column_index(header, name) matches Some(j) ==> 0 <= j < header.len() && header[j] == name,
        column_index(header, name) is None <==> !header.contains(name),
{
    reveal(column_index);
    if header.contains(name) {
        let w = choose|j: int| 0 <= j < header.len() && header[j] == name;
        lemma_first_occurrence(header, name, w);
    }
}

fn find_column(header: &Vec<String>, name: &String) -> (r: Option<usize>)
    ensures
        r matches Some(j) ==> column_index(strings_view(header@), name@) == Some(j as int),
        r is None ==> column_index(strings_view(header@), name@) is None,
{
    let ghost hv = strings_view(header@);
    reveal(column_index);
    let mut i: usize = 0;
    while i < header.len()
        invariant
            0 <= i <= header.len(),
            hv == strings_view(header@),
            forall|k: int| 0 <= k < i ==> hv[k] != name@,
        decreases header.len() - i,
    {
        if header[i] == *name {
            proof {
                assert(hv[i as int] == name@);
                assert(hv.contains(name@));
                let c = choose|j: int| 0 <= j < hv.len() && hv[j] == name@
                    && forall|k: int| 0 <= k < j ==> hv[k] != name@;
                assert(0 <= c < hv.len() && hv[c] == name@ && forall|k: int| 0 <= k < c ==> hv[k] != name@);
                if c < i {
                } else if c > i {
                    assert(hv[i as int] != name@);
                }
                assert(c == i);
                reveal(column_index);
                assert(column_index(hv, name@) == Some(c));
            }
            return Some(i);
        }
        i = i + 1;
    }
    assert(!hv.contains(name@)) by {
        if hv.contains(name@) {
            let j = choose|j: int| 0 <= j < hv.len() && hv[j] == name@;
        }
    }
    None
}

/// The value of a run of digits in a radix, most significant first; none for
/// an empty run or one with a character that is no digit there.
pub open spec fn digits_value(s: Seq<char>, radix: nat) -> Option<nat>
    decreases s.len(),
{
    if s.len() == 0 {
        None
    } else {
        let c = s.last();
        let d: int = if '0' <= c && c <= '9' { c as int - '0' as int }
            else if 'a' <= c && c <= 'f' { c as int - 'a' as int + 10 }
            else if 'A' <= c && c <= 'F' { c as int - 'A' as int + 10 }
            else { radix as int };
        if d >= radix {
            None
        } else if s.len() == 1 {
            Some(d as nat)
        } else {
            match digits_value(s.drop_last(), radix) {
                Some(v) => Some(v * radix + d as nat),
                None => None,
            }
        }
    }
}

/// An unsigned 32-bit integer written in a radix with an optional leading plus sign.
pub open spec fn u32_text(s: Seq<char>, radix: nat) -> Option<u32> {
    let digits = if s.len() > 0 && s[0] == '+' { s.drop_first() } else { s };
    match digits_value(digits, radix) {
        Some(v) => if v <= u32::MAX { Some(v as u32) } else { None },
        None => None,
    }
}

/// The team cell of a frame record: empty for no team, `0x` and hex digits, or decimal.
/// The outer `None` marks a malformed cell.
pub open spec fn team_cell(s: Seq<char>) -> Option<Option<u32>> {
    if s.len() == 0 {
        Some(None)
    } else if s.len() >= 2 && s[0] == '0' && s[1] == 'x' {
        match u32_text(s.subrange(2, s.len() as int), 16) {
            Some(t) => Some(Some(t)),
            None => None,
        }
    } else {
        match u32_text(s, 10) {
            Some(t) => Some(Some(t)),
            None => None,
        }
    }
}

/// Relies on csv::StringRecord::deserialize of a one-field record into
/// `Option<u32>`: an empty field is none, `0x` and hex digits are read by
/// `u32::from_str_radix` in radix 16, anything else by `u32::from_str`.
#[verifier::external_body]
fn parse_team_cell(s: &str) -> (r: Option<Option<u32>>)
    ensures
        r == team_cell(s@),
{
    csv::StringRecord::from(vec![s]).deserialize::<Option<u32>>(None).ok()
}

/// One frame record past the schema check: its team, its entity name, and the
/// text of each numeric field in schema order.
#[derive(Debug)]
pub struct FrameRow {
    pub team: Option<u32>,
    pub entity: String,
    pub numbers: Vec<String>,
}

/// Why rows of tabular text are not frame records.
#[derive(Debug, PartialEq, Eq, Structural)]
pub enum SchemaError {
    /// The text is not well-formed tabular text.
    Unreadable,
    /// The header lacks the entity name or a numeric field.
    MissingColumn,
    /// The data row at this index (header not counted) is too short, lacks a
    /// numeric value or has a malformed team.
    BadRow(usize),
}

/// Every required column is in the header.
pub open spec fn has_schema_columns(header: Seq<Seq<char>>) -> bool {
    &&& forall|i: int| 0 <= i < NUMERIC_FIELDS ==> (#[trigger] column_index(header, numeric_field(i))) is Some
    &&& column_index(header, name_field()) is Some
}

/// The cell of the `k`-th numeric field in a row is not empty.
pub open spec fn numeric_cell_filled(header: Seq<Seq<char>>, row: Seq<Seq<char>>, k: int) -> bool {
    row[column_index(header, numeric_field(k))->0].len() > 0
}

/// A data row is as wide as the header, no numeric cell is empty, and its team
/// cell, if the column exists, is well-formed.
pub open spec fn row_ok(header: Seq<Seq<char>>, row: Seq<Seq<char>>) -> bool {
    &&& row.len() >= header.len()
    &&& forall|k: int| 0 <= k < NUMERIC_FIELDS ==> #[trigger] numeric_cell_filled(header, row, k)
    &&& column_index(header, team_field()) matches Some(t) ==> team_cell(row[t]) is Some
}

/// `fr` holds the cells of `row` that the schema names.
pub open spec fn row_matches(header: Seq<Seq<char>>, row: Seq<Seq<char>>, fr: FrameRow) -> bool {
    &&& fr.team == match column_index(header, team_field()) {
        Some(t) => team_cell(row[t])->0,
        None => None,
    }
    &&& fr.entity@ == row[column_index(header, name_field())->0]
    &&& fr.numbers.len() == NUMERIC_FIELDS
    &&& forall|i: int| 0 <= i < NUMERIC_FIELDS
        ==> (#[trigger] fr.numbers[i])@ == row[column_index(header, numeric_field(i))->0]
}

/// What reading frame records from `records` (header first) gives: nothing for
/// no records, a missing column, the first bad data row, or every row read.
pub open spec fn frames_of(records: Seq<Seq<Seq<char>>>, r: Result<Vec<FrameRow>, SchemaError>) -> bool {
    if records.len() == 0 {
        r matches Ok(v) && v.len() == 0
    } else if !has_schema_columns(records[0]) {
        r == Err::<Vec<FrameRow>, SchemaError>(SchemaError::MissingColumn)
    } else {
        match r {
            Ok(v) => {
                &&& v.len() == records.len() - 1
                &&& forall|i: int| 0 <= i < v.len() ==> row_ok(records[0], records[i + 1])
                    && row_matches(records[0], records[i + 1], #[trigger] v[i])
            },
            Err(SchemaError::BadRow(j)) => {
                &&& j + 1 < records.len()
                &&& !row_ok(records[0], records[j + 1])
                &&& forall|k: int| 0 <= k < j ==> #[trigger] row_ok(records[0], records[k + 1])
            },
            Err(_) => false,
        }
    }
}

fn schema_columns(header: &Vec<String>) -> (r: Option<(Vec<usize>, usize, Option<usize>)>)
    ensures
        r is Some <==> has_schema_columns(strings_view(header@)),
        r matches Some((cols, name, team)) ==> columns_located(strings_view(header@), cols@, name, team),
{
    let ghost hv = strings_view(header@);
    let mut cols: Vec<usize> = Vec::new();
    let mut i: usize = 0;
    while i < NUMERIC_FIELDS
        invariant
            0 <= i <= NUMERIC_FIELDS,
            hv == strings_view(header@),
            cols.len() == i,
            forall|k: int| 0 <= k < i ==> column_index(hv, numeric_field(k)) == Some(#[trigger] cols[k] as int),
        decreases NUMERIC_FIELDS - i,
    {
        let name = numeric_field_name(i);
        match find_column(header, &name) {
            Some(j) => cols.push(j),
            None => {
                assert(!has_schema_columns(hv)) by {
                    assert(column_index(hv, numeric_field(i as int)) is None);
                }
                return None;
            },
        }
        i = i + 1;
    }
    proof {
        reveal_strlit("player_name");
        reveal_strlit("team");
    }
    let name_col = match find_column(header, &String::from_str("player_name")) {
        Some(j) => j,
        None => {
            return None;
        },
    };
    let team_col = find_column(header, &String::from_str("team"));
    assert(has_schema_columns(hv)) by {
        assert forall|k: int| 0 <= k < NUMERIC_FIELDS implies (#[trigger] column_index(hv, numeric_field(k))) is Some by {
            assert(column_index(hv, numeric_field(k)) == Some(cols[k] as int));
        }
    }
    Some((cols, name_col, team_col))
}

/// `cols`, `name` and `team` are where the header holds the schema's columns.
pub open spec fn columns_located(header: Seq<Seq<char>>, cols: Seq<usize>, name: usize, team: Option<usize>) -> bool {
    &&& cols.len() == NUMERIC_FIELDS
    &&& forall|k: int| 0 <= k < NUMERIC_FIELDS ==> column_index(header, numeric_field(k)) == Some(#[trigger] cols[k] as int)
    &&& column_index(header, name_field()) == Some(name as int)
    &&& match team {
        Some(t) => column_index(header, team_field()) == Some(t as int),
        None => column_index(header, team_field()) is None,
    }
}

fn frame_row(header: &Vec<String>, row: &Vec<String>, cols: &Vec<usize>, name_col: usize, team_col: Option<usize>) -> (r: Option<FrameRow>)
    requires
        columns_located(strings_view(header@), cols@, name_col, team_col),
    ensures
        r is Some <==> row_ok(strings_view(header@), strings_view(row@)),
        r matches Some(fr) ==> row_matches(strings_view(header@), strings_view(row@), fr),
{
    let ghost hv = strings_view(header@);
    let ghost wv = strings_view(row@);
    if row.len() < header.len() {
        return None;
    }
    proof {
        lemma_column_index_in_header(hv, name_field());
    }
    let team = match team_col {
        Some(t) => {
            assert(t < header.len()) by {
                lemma_column_index_in_header(hv, team_field());
            }
            assert(wv[t as int] == row[t as int]@);
            match parse_team_cell(row[t].as_str()) {
                Some(v) => v,
                None => {
                    return None;
                },
            }
        },
        None => None,
    };
    let mut numbers: Vec<String> = Vec::new();
    let mut f: usize = 0;
    while f < NUMERIC_FIELDS
        invariant
            0 <= f <= NUMERIC_FIELDS,
            hv == strings_view(header@),
            wv == strings_view(row@),
            row.len() >= header.len(),
            columns_located(hv, cols@, name_col, team_col),
            numbers.len() == f,
            forall|k: int| 0 <= k < f ==> (#[trigger] numbers[k])@ == wv[column_index(hv, numeric_field(k))->0],
            forall|k: int| 0 <= k < f ==> #[trigger] numeric_cell_filled(hv, wv, k),
        decreases NUMERIC_FIELDS - f,
    {
        let c = cols[f];
        assert(column_index(hv, numeric_field(f as int)) == Some(c as int));
        proof {
            lemma_column_index_in_header(hv, numeric_field(f as int));
        }
        assert(wv[c as int] == row[c as int]@);
        if row[c].unicode_len() == 0 {
            assert(!numeric_cell_filled(hv, wv, f as int));
            return None;
        }
        numbers.push(row[c].clone());
        f = f + 1;
    }
    let fr = FrameRow { team, entity: row[name_col].clone(), numbers };
    Some(fr)
}

/// Reads frame records from tabular records whose first record is the header.
/// Columns are found by name; a missing team column means no team on any row.
pub fn frame_rows(records: &Vec<Vec<String>>) -> (r: Result<Vec<FrameRow>, SchemaError>)
    ensures
        frames_of(records@.map_values(|f: Vec<String>| strings_view(f@)), r),
{
    let ghost rv = records@.map_values(|f: Vec<String>| strings_view(f@));
    if records.len() == 0 {
        return Ok(Vec::new());
    }
    let header = &records[0];
    assert(rv[0] == strings_view(header@));
    let (cols, name_col, team_col) = match schema_columns(header) {
        Some(found) => found,
        None => {
            return Err(SchemaError::MissingColumn);
        },
    };
    let mut out: Vec<FrameRow> = Vec::new();
    let mut i: usize = 1;
    while i < records.len()
        invariant
            1 <= i <= records.len(),
            rv == records@.map_values(|f: Vec<String>| strings_view(f@)),
            rv[0] == strings_view(header@),
            has_schema_columns(rv[0]),
            columns_located(rv[0], cols@, name_col, team_col),
            out.len() == i - 1,
            forall|k: int| 0 <= k < i - 1 ==> #[trigger] row_ok(rv[0], rv[k + 1]),
            forall|k: int| 0 <= k < out.len() ==> row_ok(rv[0], rv[k + 1]) && row_matches(rv[0], rv[k + 1], #[trigger] out[k]),
        decreases records.len() - i,
    {
        assert(rv[i as int] == strings_view(records[i as int]@));
        match frame_row(header, &records[i], &cols, name_col, team_col) {
            Some(fr) => {
                let ghost before = out@;
                out.push(fr);
                assert forall|k: int| 0 <= k < out.len() implies row_ok(rv[0], rv[k + 1]) && row_matches(rv[0], rv[k + 1], #[trigger] out[k]) by {
                    if k < before.len() {
                        assert(out[k] == before[k]);
                    }
                }
            },
            None => {
                return Err(SchemaError::BadRow(i - 1));
            },
        }
        i = i + 1;
    }
    Ok(out)
}

/// Reads frame records from tabular text whose first line is the header.
pub fn read_frames(text: &[u8]) -> (r: Result<Vec<FrameRow>, SchemaError>)
    ensures
        r == Err::<Vec<FrameRow>, SchemaError>(SchemaError::Unreadable) <==> !csv_readable(text@),
        csv_readable(text@) ==> frames_of(csv_records_of(text@), r),
{
    match decode_records(text) {
        Some(records) => frame_rows(&records),
        None => Err(SchemaError::Unreadable),
    }
}

/// A series of markers in the trajectory plot.
#[derive(Debug, Clone, Copy, PartialEq, Eq, Structural)]
pub enum Series {
    Ball,
    TeamA,
    TeamB,
}

/// The series a frame record is drawn in: the ball by its name, else a player by
/// team; `None` for a player of any other team, which is not drawn.
pub open spec fn series_of(team: Option<u32>, entity: Seq<char>) -> Option<Series> {
    if entity == ball_name() {
        Some(Series::Ball)
    } else if team == Some(TEAM_A) {
        Some(Series::TeamA)
    } else if team == Some(TEAM_B) {
        Some(Series::TeamB)
    } else {
        None
    }
}

/// The series a frame row is drawn in.
pub open spec fn row_series(r: FrameRow) -> Option<Series> {
    series_of(r.team, r.entity@)
}

/// Classifies one frame record into its series.
pub fn classify(team: Option<u32>, entity: &String) -> (r: Option<Series>)
    ensures
        r == series_of(team, entity@),
{
    let ball = String::from_str("_ball_");
    if *entity == ball {
        Some(Series::Ball)
    } else {
        match team {
            Some(t) => if t == TEAM_A {
                Some(Series::TeamA)
            } else if t == TEAM_B {
                Some(Series::TeamB)
            } else {
                None
            },
            None => None,
        }
    }
}

/// The indices of the rows drawn in series `s`, in row order.
pub open spec fn series_indices(rows: Seq<FrameRow>, s: Series) -> Seq<int>
    decreases rows.len(),
{
    if rows.len() == 0 {
        Seq::empty()
    } else {
        let before = series_indices(rows.drop_last(), s);
        if row_series(rows.last()) == Some(s) { before.push(rows.len() - 1) } else { before }
    }
}

/// The markers of a plot, as indices into the frame rows, one list per series.
#[derive(Debug)]
pub struct Partition {
    pub ball: Vec<usize>,
    pub team_a: Vec<usize>,
    pub team_b: Vec<usize>,
}

/// The integer values of a list of indices.
pub open spec fn index_values(v: Seq<usize>) -> Seq<int> {
    v.map_values(|x: usize| x as int)
}

/// Splits frame rows into the three series that are drawn; rows of no series are left out.
pub fn partition(rows: &Vec<FrameRow>) -> (p: Partition)
    ensures
        index_values(p.ball@) == series_indices(rows@, Series::Ball),
        index_values(p.team_a@) == series_indices(rows@, Series::TeamA),
        index_values(p.team_b@) == series_indices(rows@, Series::TeamB),
{
    let mut ball: Vec<usize> = Vec::new();
    let mut team_a: Vec<usize> = Vec::new();
    let mut team_b: Vec<usize> = Vec::new();
    let mut i: usize = 0;
    while i < rows.len()
        invariant
            0 <= i <= rows.len(),
            index_values(ball@) == series_indices(rows@.subrange(0, i as int), Series::Ball),
            index_values(team_a@) == series_indices(rows@.subrange(0, i as int), Series::TeamA),
            index_values(team_b@) == series_indices(rows@.subrange(0, i as int), Series::TeamB),
        decreases rows.len() - i,
    {
        let ghost pre = rows@.subrange(0, i + 1);
        assert(pre.drop_last() =~= rows@.subrange(0, i as int));
        assert(pre.last() == rows@[i as int]);
        let ghost (b0, a0, t0) = (ball@, team_a@, team_b@);
        match classify(rows[i].team, &rows[i].entity) {
            Some(Series::Ball) => {
                ball.push(i);
                assert(index_values(ball@) =~= index_values(b0).push(i as int));
            },
            Some(Series::TeamA) => {
                team_a.push(i);
                assert(index_values(team_a@) =~= index_values(a0).push(i as int));
            },
            Some(Series::TeamB) => {
                team_b.push(i);
                assert(index_values(team_b@) =~= index_values(t0).push(i as int));
            },
            None => {},
        }
        i = i + 1;
    }
    assert(rows@.subrange(0, rows.len() as int) =~= rows@);
    Partition { ball, team_a, team_b }
}

/// The rows of the ball.
pub open spec fn is_ball(r: FrameRow) -> bool {
    r.entity@ == ball_name()
}

/// The rows of players of team `t`.
pub open spec fn is_player_of(r: FrameRow, t: u32) -> bool {
    r.entity@ != ball_name() && r.team == Some(t)
}

proof fn lemma_series_members(rows: Seq<FrameRow>, s: Series)
    ensures
        forall|j: int| series_indices(rows, s).contains(j)
            <==> 0 <= j < rows.len() && row_series(#[trigger] rows[j]) == Some(s),
    decreases rows.len(),
{
    if rows.len() > 0 {
        let rest = rows.drop_last();
        lemma_series_members(rest, s);
        let before = series_indices(rest, s);
        assert forall|j: int| series_indices(rows, s).contains(j)
            <==> 0 <= j < rows.len() && row_series(#[trigger] rows[j]) == Some(s) by {
            if 0 <= j < rows.len() - 1 {
                assert(rows[j] == rest[j]);
            }
            if series_indices(rows, s).contains(j) && row_series(rows.last()) == Some(s) {
                let q = choose|q: int| 0 <= q < series_indices(rows, s).len() && series_indices(rows, s)[q] == j;
                if q < before.len() {
                    assert(before[q] == j);
                    assert(before.contains(j));
                }
            }
            if 0 <= j < rows.len() - 1 && row_series(rows[j]) == Some(s) {
                assert(before.contains(j));
                let q = choose|q: int| 0 <= q < before.len() && before[q] == j;
                if row_series(rows.last()) == Some(s) {
                    assert(series_indices(rows, s)[q] == j);
                }
            }
            if j == rows.len() - 1 && row_series(rows[j]) == Some(s) {
                assert(series_indices(rows, s)[before.len() as int] == j);
            }
        }
    }
}

proof fn lemma_series_counts(rows: Seq<FrameRow>)
    ensures
        series_indices(rows, Series::Ball).len() == rows.filter(|r: FrameRow| is_ball(r)).len(),
        series_indices(rows, Series::TeamA).len() == rows.filter(|r: FrameRow| is_player_of(r, TEAM_A)).len(),
        series_indices(rows, Series::TeamB).len() == rows.filter(|r: FrameRow| is_player_of(r, TEAM_B)).len(),
        series_indices(rows, Series::Ball).len() + series_indices(rows, Series::TeamA).len()
            + series_indices(rows, Series::TeamB).len() <= rows.len(),
        (forall|j: int| 0 <= j < rows.len() ==> (#[trigger] row_series(rows[j])) is Some) ==>
            series_indices(rows, Series::Ball).len() + series_indices(rows, Series::TeamA).len()
                + series_indices(rows, Series::TeamB).len() == rows.len(),
    decreases rows.len(),
{
    reveal(Seq::filter);
    if rows.len() > 0 {
        let rest = rows.drop_last();
        lemma_series_counts(rest);
        if forall|j: int| 0 <= j < rows.len() ==> (#[trigger] row_series(rows[j])) is Some {
            assert forall|j: int| 0 <= j < rest.len() implies (#[trigger] row_series(rest[j])) is Some by {
                assert(rest[j] == rows[j]);
                assert(row_series(rows[j]) is Some);
            }
            assert(row_series(rows[rows.len() - 1]) is Some);
        }
    }
}

/// The plot draws exactly one marker per row of the ball or of the two teams:
/// the ball's series holds the rows named as the ball, each team's series the
/// other rows of that team, a row of any other team is in no series, and when
/// every row is the ball or of one of the two teams the markers number the rows.
pub proof fn lemma_partition_exact(rows: Seq<FrameRow>)
    ensures
        series_indices(rows, Series::Ball).len() == rows.filter(|r: FrameRow| is_ball(r)).len(),
        series_indices(rows, Series::TeamA).len() == rows.filter(|r: FrameRow| is_player_of(r, TEAM_A)).len(),
        series_indices(rows, Series::TeamB).len() == rows.filter(|r: FrameRow| is_player_of(r, TEAM_B)).len(),
        forall|j: int| 0 <= j < rows.len() && row_series(#[trigger] rows[j]) is None ==> {
            &&& !series_indices(rows, Series::Ball).contains(j)
            &&& !series_indices(rows, Series::TeamA).contains(j)
            &&& !series_indices(rows, Series::TeamB).contains(j)
        },
        (forall|j: int| 0 <= j < rows.len() ==> is_ball(#[trigger] rows[j]) || rows[j].team == Some(TEAM_A)
            || rows[j].team == Some(TEAM_B)) ==>
            series_indices(rows, Series::Ball).len() + series_indices(rows, Series::TeamA).len()
                + series_indices(rows, Series::TeamB).len() == rows.len(),
{
    lemma_series_counts(rows);
    lemma_series_members(rows, Series::Ball);
    lemma_series_members(rows, Series::TeamA);
    lemma_series_members(rows, Series::TeamB);
    if forall|j: int| 0 <= j < rows.len() ==> is_ball(#[trigger] rows[j]) || rows[j].team == Some(TEAM_A)
        || rows[j].team == Some(TEAM_B) {
        assert forall|j: int| 0 <= j < rows.len() implies (#[trigger] row_series(rows[j])) is Some by {
            assert(is_ball(rows[j]) || rows[j].team == Some(TEAM_A) || rows[j].team == Some(TEAM_B));
        }
    }
}

/// The frame records of a tabular text and the markers of each series drawn from them.
pub fn frame_plot(text: &[u8]) -> (r: Result<(Vec<FrameRow>, Partition), SchemaError>)
    ensures
        r matches Ok((rows, p)) ==> {
            &&& csv_readable(text@)
            &&& frames_of(csv_records_of(text@), Ok::<Vec<FrameRow>, SchemaError>(rows))
            &&& index_values(p.ball@) == series_indices(rows@, Series::Ball)
            &&& index_values(p.team_a@) == series_indices(rows@, Series::TeamA)
            &&& index_values(p.team_b@) == series_indices(rows@, Series::TeamB)
        },
        (r matches Err(e) && e == SchemaError::Unreadable) <==> !csv_readable(text@),
        csv_readable(text@) ==> (r matches Err(e) ==> frames_of(csv_records_of(text@), Err::<Vec<FrameRow>, SchemaError>(e))),
{
    match read_frames(text) {
        Ok(rows) => {
            let p = partition(&rows);
            Ok((rows, p))
        },
        Err(e) => Err(e),
    }
}

/// Rendering is strict: records whose header lacks a numeric field, or with a
/// row whose numeric cell is empty, give no frame rows but an error.
pub proof fn lemma_missing_field_rejected(records: Seq<Seq<Seq<char>>>, r: Result<Vec<FrameRow>, SchemaError>, k: int)
    requires
        frames_of(records, r),
        records.len() > 0,
        0 <= k < NUMERIC_FIELDS,
        !records[0].contains(numeric_field(k))
            || exists|j: int| 1 <= j < records.len() && records[j].len() >= records[0].len()
                && !numeric_cell_filled(records[0], records[j], k),
    ensures
        r is Err,
        !records[0].contains(numeric_field(k)) ==> r == Err::<Vec<FrameRow>, SchemaError>(SchemaError::MissingColumn),
{
    lemma_column_index_in_header(records[0], numeric_field(k));
    if !records[0].contains(numeric_field(k)) {
        assert(column_index(records[0], numeric_field(k)) is None);
    } else if has_schema_columns(records[0]) {
        if let Ok(v) = r {
            let j = choose|j: int| 1 <= j < records.len() && records[j].len() >= records[0].len()
                && !numeric_cell_filled(records[0], records[j], k);
            assert(v.len() == records.len() - 1);
            let fr = v[j - 1];
            assert(row_ok(records[0], records[(j - 1) + 1]));
            assert(records[(j - 1) + 1] == records[j]);
            assert(numeric_cell_filled(records[0], records[j], k));
        }
    }
}

} // verus!
