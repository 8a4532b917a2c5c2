use vstd::prelude::*;
use crate::json::JsonValue;
use crate::text::{decimal_string, decimal_text};

verus! {

broadcast use vstd::std_specs::vec::group_vec_axioms;

/// The text written in a cell for a scalar; null and the containers give none.
pub open spec fn scalar_text(v: JsonValue) -> Seq<char> {
    match v {
        JsonValue::Bool(b) => if b { seq!['t', 'r', 'u', 'e'] } else { seq!['f', 'a', 'l', 's', 'e'] },
        JsonValue::Number(t) => t@,
        JsonValue::Str(s) => s@,
        _ => Seq::empty(),
    }
}

/// The key of a child: the parent's key and the child's segment, joined by a dot.
pub open spec fn join_key(prefix: Seq<char>, segment: Seq<char>) -> Seq<char> {
    if prefix.len() == 0 { segment } else { prefix + seq!['.'] + segment }
}

/// The dotted-path / scalar pairs of `v`, each key starting from `prefix`.
pub open spec fn flat(prefix: Seq<char>, v: JsonValue) -> Seq<(Seq<char>, Seq<char>)>
    decreases v, 0nat,
{
    match v {
        JsonValue::Array(items) => flat_items(prefix, items, items.len() as nat),
        JsonValue::Object(fields) => flat_fields(prefix, fields, fields.len() as nat),
        _ => seq![(prefix, scalar_text(v))],
    }
}

/// The pairs of the first `n` elements of an array, keyed by index.
pub open spec fn flat_items(prefix: Seq<char>, items: Vec<JsonValue>, n: nat) -> Seq<(Seq<char>, Seq<char>)>
    decreases items, n,
{
    if n == 0 || n > items.len() {
        Seq::empty()
    } else {
        flat_items(prefix, items, (n - 1) as nat)
            + flat(join_key(prefix, decimal_text((n - 1) as nat)), items[n - 1])
    }
}

/// The pairs of the first `n` fields of an object, keyed by field name.
pub open spec fn flat_fields(prefix: Seq<char>, fields: Vec<(String, JsonValue)>, n: nat) -> Seq<(Seq<char>, Seq<char>)>
    decreases fields, n,
{
    if n == 0 || n > fields.len() {
        Seq::empty()
    } else {
        flat_fields(prefix, fields, (n - 1) as nat)
            + flat(join_key(prefix, fields[n - 1].0@), fields[n - 1].1)
    }
}

/// The abstract value of a list of string pairs.
pub open spec fn pairs_view(v: Seq<(String, String)>) -> Seq<(Seq<char>, Seq<char>)> {
    v.map_values(|p: (String, String)| (p.0@, p.1@))
}

/// The abstract value of a list of strings.
pub open spec fn strings_view(v: Seq<String>) -> Seq<Seq<char>> {
    v.map_values(|s: String| s@)
}

fn scalar_string(v: &JsonValue) -> (r: String)
    ensures
        r@ == scalar_text(*v),
{
    match v {
        JsonValue::Bool(b) => {
            proof {
                reveal_strlit("true");
                reveal_strlit("false");
            }
            if *b { String::from_str("true") } else { String::from_str("false") }
        },
        JsonValue::Number(t) => t.clone(),
        JsonValue::Str(s) => s.clone(),
        _ => String::new(),
    }
}

fn join_key_string(prefix: &String, segment: &String) -> (r: String)
    ensures
        r@ == join_key(prefix@, segment@),
{
    if prefix.unicode_len() == 0 {
        segment.clone()
    } else {
        proof { reveal_strlit("."); }
        let r = prefix.clone().concat(".").concat(segment.as_str());
        r
    }
}

/// Appends to `out` the dotted-path / scalar pairs of `v`, keys starting from `prefix`.
pub fn flatten_value(prefix: &String, v: &JsonValue, out: &mut Vec<(String, String)>)
    ensures
        pairs_view(final(out)@) == pairs_view(old(out)@) + flat(prefix@, *v),
    decreases *v, 0nat,
{
    match v {
        JsonValue::Array(items) => {
            proof {
                assert(decreases_to!(*v => v->Array_0));
            }
            flatten_items(prefix, items, out);
        },
        JsonValue::Object(fields) => {
            proof {
                assert(decreases_to!(*v => v->Object_0));
            }
            flatten_fields(prefix, fields, out);
        },
        _ => {
            let s = scalar_string(v);
            let ghost before = out@;
            out.push((prefix.clone(), s));
            assert(pairs_view(out@) =~= pairs_view(before) + flat(prefix@, *v));
        },
    }
}

fn flatten_items(prefix: &String, items: &Vec<JsonValue>, out: &mut Vec<(String, String)>)
    ensures
        pairs_view(final(out)@) == pairs_view(old(out)@) + flat_items(prefix@, *items, items.len() as nat),
    decreases *items, 1nat,
{
    let ghost base = pairs_view(out@);
    let mut i: usize = 0;
    while i < items.len()
        invariant
            0 <= i <= items.len(),
            pairs_view(out@) == base + flat_items(prefix@, *items, i as nat),
        decreases items.len() - i,
    {
        let seg = decimal_string(i);
        let key = join_key_string(prefix, &seg);
        proof {
            assert(decreases_to!(*items => items[i as int]));
        }
        flatten_value(&key, &items[i], out);
        assert(pairs_view(out@) =~= base + flat_items(prefix@, *items, (i + 1) as nat));
        i = i + 1;
    }
}

fn flatten_fields(prefix: &String, fields: &Vec<(String, JsonValue)>, out: &mut Vec<(String, String)>)
    ensures
        pairs_view(final(out)@) == pairs_view(old(out)@) + flat_fields(prefix@, *fields, fields.len() as nat),
    decreases *fields, 1nat,
{
    let ghost base = pairs_view(out@);
    let mut i: usize = 0;
    while i < fields.len()
        invariant
            0 <= i <= fields.len(),
            pairs_view(out@) == base + flat_fields(prefix@, *fields, i as nat),
        decreases fields.len() - i,
    {
        proof {
            assert(decreases_to!(*fields => fields[i as int]));
        }
        flatten_field(prefix, &fields[i], out);
        assert(pairs_view(out@) =~= base + flat_fields(prefix@, *fields, (i + 1) as nat));
        i = i + 1;
    }
}

fn flatten_field(prefix: &String, field: &(String, JsonValue), out: &mut Vec<(String, String)>)
    ensures
        pairs_view(final(out)@) == pairs_view(old(out)@) + flat(join_key(prefix@, field.0@), field.1),
    decreases *field, 2nat,
{
    let key = join_key_string(prefix, &field.0);
    proof {
        assert(decreases_to!(*field => field.1));
    }
    flatten_value(&key, &field.1, out);
}

/// The records of a document: the elements of a top-level array, or else the
/// document itself as the one record.
pub open spec fn records_of(doc: JsonValue) -> Seq<JsonValue> {
    match doc {
        JsonValue::Array(items) => items@,
        _ => seq![doc],
    }
}

/// The flattened pairs of each record.
pub open spec fn flat_records(records: Seq<JsonValue>) -> Seq<Seq<(Seq<char>, Seq<char>)>> {
    records.map_values(|r: JsonValue| flat(Seq::empty(), r))
}

/// The keys of a list of pairs, in order.
pub open spec fn keys_of(pairs: Seq<(Seq<char>, Seq<char>)>) -> Seq<Seq<char>> {
    pairs.map_values(|p: (Seq<char>, Seq<char>)| p.0)
}

/// `acc` extended by each key of `pairs` that it does not hold yet, in first-seen order.
pub open spec fn add_keys(acc: Seq<Seq<char>>, pairs: Seq<(Seq<char>, Seq<char>)>) -> Seq<Seq<char>>
    decreases pairs.len(),
{
    if pairs.len() == 0 {
        acc
    } else {
        let before = add_keys(acc, pairs.drop_last());
        let k = pairs.last().0;
        if before.contains(k) { before } else { before.push(k) }
    }
}

/// The column header: the union of the keys of all records, in first-seen order.
pub open spec fn header_of(flats: Seq<Seq<(Seq<char>, Seq<char>)>>) -> Seq<Seq<char>>
    decreases flats.len(),
{
    if flats.len() == 0 {
        Seq::empty()
    } else {
        add_keys(header_of(flats.drop_last()), flats.last())
    }
}

/// The value of the first pair with key `k`, or the empty text if there is none.
pub open spec fn lookup(pairs: Seq<(Seq<char>, Seq<char>)>, k: Seq<char>) -> Seq<char>
    decreases pairs.len(),
{
    if pairs.len() == 0 {
        Seq::empty()
    } else if pairs[0].0 == k {
        pairs[0].1
    } else {
        lookup(pairs.drop_first(), k)
    }
}

/// The row of one record under a header: one cell per column.
pub open spec fn row_of(header: Seq<Seq<char>>, pairs: Seq<(Seq<char>, Seq<char>)>) -> Seq<Seq<char>> {
    header.map_values(|k: Seq<char>| lookup(pairs, k))
}

/// A table of text cells: a header and rows of the same width.
pub struct Table {
    pub header: Vec<String>,
    pub rows: Vec<Vec<String>>,
}

/// `t` is the table of the records whose flattened pairs are `flats`.
pub open spec fn table_of(t: Table, flats: Seq<Seq<(Seq<char>, Seq<char>)>>) -> bool {
    &&& strings_view(t.header@) == header_of(flats)
    &&& t.rows.len() == flats.len()
    &&& forall|i: int| 0 <= i < flats.len() ==> #[trigger] strings_view(t.rows[i]@) == row_of(header_of(flats), flats[i])
}

fn contains_string(keys: &Vec<String>, k: &String) -> (r: bool)
    ensures
        r == strings_view(keys@).contains(k@),
{
    let mut i: usize = 0;
    while i < keys.len()
        invariant
            0 <= i <= keys.len(),
            forall|j: int| 0 <= j < i ==> keys@[j]@ != k@,
        decreases keys.len() - i,
    {
        if keys[i] == *k {
            assert(strings_view(keys@)[i as int] == k@);
            return true;
        }
        i = i + 1;
    }
    assert(!strings_view(keys@).contains(k@)) by {
        if strings_view(keys@).contains(k@) {
            let j = choose|j: int| 0 <= j < keys.len() && strings_view(keys@)[j] == k@;
            assert(keys@[j]@ == k@);
        }
    }
    false
}

fn add_keys_from(acc: &mut Vec<String>, pairs: &Vec<(String, String)>)
    ensures
        strings_view(final(acc)@) == add_keys(strings_view(old(acc)@), pairs_view(pairs@)),
{
    let ghost start = strings_view(acc@);
    let mut i: usize = 0;
    while i < pairs.len()
        invariant
            0 <= i <= pairs.len(),
            strings_view(acc@) == add_keys(start, pairs_view(pairs@).subrange(0, i as int)),
        decreases pairs.len() - i,
    {
        let ghost pv = pairs_view(pairs@);
        assert(pv.subrange(0, i + 1).drop_last() =~= pv.subrange(0, i as int));
        let ghost before = acc@;
        if !contains_string(acc, &pairs[i].0) {
            acc.push(pairs[i].0.clone());
            assert(strings_view(acc@) =~= strings_view(before).push(pairs@[i as int].0@));
        }
        i = i + 1;
    }
    assert(pairs_view(pairs@).subrange(0, pairs.len() as int) =~= pairs_view(pairs@));
}

fn lookup_string(pairs: &Vec<(String, String)>, k: &String) -> (r: String)
    ensures
        r@ == lookup(pairs_view(pairs@), k@),
{
    let ghost pv = pairs_view(pairs@);
    let mut i: usize = 0;
    assert(pv.subrange(0, pv.len() as int) =~= pv);
    while i < pairs.len()
        invariant
            0 <= i <= pairs.len(),
            pv == pairs_view(pairs@),
            lookup(pv, k@) == lookup(pv.subrange(i as int, pv.len() as int), k@),
        decreases pairs.len() - i,
    {
        let ghost rest = pv.subrange(i as int, pv.len() as int);
        assert(rest.drop_first() =~= pv.subrange(i + 1, pv.len() as int));
        if pairs[i].0 == *k {
            return pairs[i].1.clone();
        }
        i = i + 1;
    }
    String::new()
}

fn row_for(header: &Vec<String>, pairs: &Vec<(String, String)>) -> (r: Vec<String>)
    ensures
        strings_view(r@) == row_of(strings_view(header@), pairs_view(pairs@)),
{
    let mut row: Vec<String> = Vec::new();
    let mut i: usize = 0;
    while i < header.len()
        invariant
            0 <= i <= header.len(),
            strings_view(row@) == row_of(strings_view(header@), pairs_view(pairs@)).subrange(0, i as int),
        decreases header.len() - i,
    {
        let cell = lookup_string(pairs, &header[i]);
        let ghost before = row@;
        row.push(cell);
        assert(strings_view(row@) =~= strings_view(before).push(row@[i as int]@));
        assert(strings_view(row@) =~= row_of(strings_view(header@), pairs_view(pairs@)).subrange(0, i + 1));
        i = i + 1;
    }
    assert(strings_view(row@) =~= row_of(strings_view(header@), pairs_view(pairs@)));
    row
}

/// Builds the table of the records whose flattened pairs are `flats`: the union
/// of their keys as header, and one row per record, padded with empty cells.
pub fn table_from_pairs(flats: &Vec<Vec<(String, String)>>) -> (t: Table)
    ensures
        table_of(t, flats@.map_values(|p: Vec<(String, String)>| pairs_view(p@))),
{
    let ghost fv = flats@.map_values(|p: Vec<(String, String)>| pairs_view(p@));
    let mut header: Vec<String> = Vec::new();
    let mut i: usize = 0;
    while i < flats.len()
        invariant
            0 <= i <= flats.len(),
            fv == flats@.map_values(|p: Vec<(String, String)>| pairs_view(p@)),
            strings_view(header@) == header_of(fv.subrange(0, i as int)),
        decreases flats.len() - i,
    {
        assert(fv.subrange(0, i + 1).drop_last() =~= fv.subrange(0, i as int));
        add_keys_from(&mut header, &flats[i]);
        i = i + 1;
    }
    assert(fv.subrange(0, flats.len() as int) =~= fv);
    let mut rows: Vec<Vec<String>> = Vec::new();
    let mut j: usize = 0;
    while j < flats.len()
        invariant
            0 <= j <= flats.len(),
            fv == flats@.map_values(|p: Vec<(String, String)>| pairs_view(p@)),
            strings_view(header@) == header_of(fv),
            rows.len() == j,
            forall|r: int| 0 <= r < j ==> #[trigger] strings_view(rows[r]@) == row_of(header_of(fv), fv[r]),
        decreases flats.len() - j,
    {
        let row = row_for(&header, &flats[j]);
        rows.push(row);
        j = j + 1;
    }
    Table { header, rows }
}

/// Flattens every record of a document into one table. Never fails: records
/// that lack a column get an empty cell there.
pub fn flatten_document(doc: &JsonValue) -> (t: Table)
    ensures
        table_of(t, flat_records(records_of(*doc))),
{
    let mut flats: Vec<Vec<(String, String)>> = Vec::new();
    let empty = String::new();
    match doc {
        JsonValue::Array(items) => {
            let mut i: usize = 0;
            while i < items.len()
                invariant
                    0 <= i <= items.len(),
                    empty@ == Seq::<char>::empty(),
                    flats.len() == i,
                    forall|r: int| 0 <= r < i ==> #[trigger] pairs_view(flats[r]@) == flat(Seq::empty(), items@[r]),
                decreases items.len() - i,
            {
                let mut out: Vec<(String, String)> = Vec::new();
                flatten_value(&empty, &items[i], &mut out);
                assert(pairs_view(out@) =~= flat(Seq::empty(), items@[i as int]));
                flats.push(out);
                i = i + 1;
            }
        },
        _ => {
            let mut out: Vec<(String, String)> = Vec::new();
            flatten_value(&empty, doc, &mut out);
            assert(pairs_view(out@) =~= flat(Seq::empty(), *doc));
            flats.push(out);
        },
    }
    let t = table_from_pairs(&flats);
    assert(flats@.map_values(|p: Vec<(String, String)>| pairs_view(p@)) =~= flat_records(records_of(*doc)));
    t
}

proof fn lemma_add_known_keys(acc: Seq<Seq<char>>, pairs: Seq<(Seq<char>, Seq<char>)>)
    requires
        forall|j: int| 0 <= j < pairs.len() ==> acc.contains(#[trigger] pairs[j].0),
    ensures
        add_keys(acc, pairs) == acc,
    decreases pairs.len(),
{
    if pairs.len() > 0 {
        let rest = pairs.drop_last();
        assert forall|j: int| 0 <= j < rest.len() implies acc.contains(#[trigger] rest[j].0) by {
            assert(rest[j] == pairs[j]);
        }
        lemma_add_known_keys(acc, rest);
        assert(acc.contains(pairs[pairs.len() - 1].0));
    }
}

/// Adding to a collection one record whose keys all already name columns of
/// the collection's table leaves the header exactly as it was.
pub proof fn lemma_header_stable_under_subset(records: Seq<JsonValue>, extra: JsonValue)
    requires
        forall|k: Seq<char>| #[trigger] keys_of(flat(Seq::empty(), extra)).contains(k)
            ==> header_of(flat_records(records)).contains(k),
    ensures
        header_of(flat_records(records.push(extra))) == header_of(flat_records(records)),
{
    let flats = flat_records(records.push(extra));
    let pairs = flat(Seq::empty(), extra);
    let header = header_of(flat_records(records));
    assert(flats.drop_last() =~= flat_records(records));
    assert(flats.last() == pairs);
    assert forall|j: int| 0 <= j < pairs.len() implies header.contains(#[trigger] pairs[j].0) by {
        assert(keys_of(pairs)[j] == pairs[j].0);
        assert(keys_of(pairs).contains(pairs[j].0));
    }
    lemma_add_known_keys(header, pairs);
}

proof fn lemma_lookup_absent(pairs: Seq<(Seq<char>, Seq<char>)>, k: Seq<char>)
    requires
        !keys_of(pairs).contains(k),
    ensures
        lookup(pairs, k) == Seq::<char>::empty(),
    decreases pairs.len(),
{
    if pairs.len() > 0 {
        assert(keys_of(pairs)[0] == pairs[0].0);
        let rest = pairs.drop_first();
        assert forall|j: int| 0 <= j < keys_of(rest).len() implies keys_of(rest)[j] != k by {
            assert(keys_of(rest)[j] == keys_of(pairs)[j + 1]);
        }
        lemma_lookup_absent(rest, k);
    }
}

/// A record that lacks the key of a column gets the empty text in that column,
/// whatever the other records hold.
pub proof fn lemma_missing_key_gives_empty_cell(records: Seq<JsonValue>, i: int, c: int)
    requires
        0 <= i < records.len(),
        0 <= c < header_of(flat_records(records)).len(),
        !keys_of(flat(Seq::empty(), records[i])).contains(header_of(flat_records(records))[c]),
    ensures
        row_of(header_of(flat_records(records)), flat_records(records)[i])[c] == Seq::<char>::empty(),
{
    lemma_lookup_absent(flat(Seq::empty(), records[i]), header_of(flat_records(records))[c]);
}

} // verus!
