use vstd::prelude::*;
use crate::flatten::strings_view;

verus! {

/// The number of derived artifacts that extraction writes for a match.
pub const ARTIFACTS: usize = 4;

/// The file name suffix of each derived artifact, frame log first.
pub open spec fn artifact_suffix(k: int) -> Seq<char> {
    if k == 0 { ".replay.frames.json"@ }
    else if k == 1 { ".player_stats.json"@ }
    else if k == 2 { ".goals.json"@ }
    else { ".highlights.json"@ }
}

/// A file in a directory.
pub open spec fn in_dir(dir: Seq<char>, file: Seq<char>) -> Seq<char> {
    dir + "/"@ + file
}

/// The path of the `k`-th derived artifact of a match.
pub open spec fn artifact_path(dir: Seq<char>, id: Seq<char>, k: int) -> Seq<char> {
    in_dir(dir, id + artifact_suffix(k))
}

/// The path of the tabular file written for an input file.
pub open spec fn csv_path_of(input: Seq<char>) -> Seq<char> {
    input + ".csv"@
}

/// The path of the image rendered from a tabular file.
pub open spec fn image_path_of(csv: Seq<char>) -> Seq<char> {
    csv + ".png"@
}

/// The path of the feedback report of a match.
pub open spec fn report_path_of(dir: Seq<char>, id: Seq<char>) -> Seq<char> {
    in_dir(dir, id + ".feedback.md"@)
}

/// The pattern that finds the images of a match.
pub open spec fn image_pattern_of(dir: Seq<char>, id: Seq<char>) -> Seq<char> {
    in_dir(dir, id + "*.png"@)
}

fn join_dir(dir: &str, file: String) -> (r: String)
    ensures
        r@ == in_dir(dir@, file@),
{
    String::from_str(dir).concat("/").concat(file.as_str())
}

/// The paths of the four derived artifacts of a match, frame log first.
pub fn artifact_paths(dir: &str, id: &str) -> (r: Vec<String>)
    ensures
        r.len() == ARTIFACTS,
        forall|k: int| 0 <= k < ARTIFACTS ==> (#[trigger] r[k])@ == artifact_path(dir@, id@, k),
{
    let mut r: Vec<String> = Vec::new();
    r.push(join_dir(dir, String::from_str(id).concat(".replay.frames.json")));
    r.push(join_dir(dir, String::from_str(id).concat(".player_stats.json")));
    r.push(join_dir(dir, String::from_str(id).concat(".goals.json")));
    r.push(join_dir(dir, String::from_str(id).concat(".highlights.json")));
    r
}

/// The path of the tabular file written for an input file: a sibling with a suffix.
pub fn csv_path(input: &str) -> (r: String)
    ensures
        r@ == csv_path_of(input@),
{
    String::from_str(input).concat(".csv")
}

/// The path of the image rendered from a tabular file: a sibling with a suffix.
pub fn image_path(csv: &str) -> (r: String)
    ensures
        r@ == image_path_of(csv@),
{
    String::from_str(csv).concat(".png")
}

/// The tabular file of a match's frame log, which the renderer reads.
pub fn frames_csv_path(dir: &str, id: &str) -> (r: String)
    ensures
        r@ == csv_path_of(artifact_path(dir@, id@, 0)),
{
    let frames = join_dir(dir, String::from_str(id).concat(".replay.frames.json"));
    csv_path(frames.as_str())
}

/// The path of the feedback report of a match.
pub fn report_path(dir: &str, id: &str) -> (r: String)
    ensures
        r@ == report_path_of(dir@, id@),
{
    join_dir(dir, String::from_str(id).concat(".feedback.md"))
}

/// The pattern of the file names of a match's images.
pub fn image_pattern(dir: &str, id: &str) -> (r: String)
    ensures
        r@ == image_pattern_of(dir@, id@),
{
    join_dir(dir, String::from_str(id).concat("*.png"))
}

/// A file name has the extension `json`: it ends in `.json` after a non-empty stem.
pub open spec fn is_json_name(name: Seq<char>) -> bool {
    name.len() > 5 && name.subrange(name.len() - 5, name.len() as int) == ".json"@
}

/// Whether a file name has the extension `json`.
pub fn has_json_extension(name: &str) -> (r: bool)
    ensures
        r == is_json_name(name@),
{
    let n = name.unicode_len();
    if n <= 5 {
        return false;
    }
    let tail = name.substring_char(n - 5, n);
    let json = String::from_str(".json");
    String::from_str(tail) == json
}

/// The indices of the names with the extension `json`, in order.
pub open spec fn json_indices(names: Seq<Seq<char>>) -> Seq<int>
    decreases names.len(),
{
    if names.len() == 0 {
        Seq::empty()
    } else {
        let before = json_indices(names.drop_last());
        if is_json_name(names.last()) { before.push(names.len() - 1) } else { before }
    }
}

/// The files of a directory listing that cleanup deletes: every one with the extension `json`.
pub fn json_files(names: &Vec<String>) -> (r: Vec<usize>)
    ensures
        r@.map_values(|x: usize| x as int) == json_indices(strings_view(names@)),
{
    let ghost nv = strings_view(names@);
    let mut r: Vec<usize> = Vec::new();
    let mut i: usize = 0;
    while i < names.len()
        invariant
            0 <= i <= names.len(),
            nv == strings_view(names@),
            r@.map_values(|x: usize| x as int) == json_indices(nv.subrange(0, i as int)),
        decreases names.len() - i,
    {
        let ghost pre = nv.subrange(0, i + 1);
        assert(pre.drop_last() =~= nv.subrange(0, i as int));
        let ghost before = r@;
        if has_json_extension(names[i].as_str()) {
            r.push(i);
            assert(r@.map_values(|x: usize| x as int) =~= before.map_values(|x: usize| x as int).push(i as int));
        }
        i = i + 1;
    }
    assert(nv.subrange(0, names.len() as int) =~= nv);
    r
}

/// Cleanup leaves no file with the extension `json`: every name of a listing is
/// either deleted or has another extension.
pub proof fn lemma_cleanup_complete(names: Seq<Seq<char>>)
    ensures
        forall|j: int| 0 <= j < names.len() ==> (json_indices(names).contains(j) <==> is_json_name(#[trigger] names[j])),
    decreases names.len(),
{
    if names.len() > 0 {
        let rest = names.drop_last();
        lemma_cleanup_complete(rest);
        let before = json_indices(rest);
        assert forall|j: int| 0 <= j < names.len() implies (json_indices(names).contains(j) <==> is_json_name(#[trigger] names[j])) by {
            assert forall|q: int| 0 <= q < before.len() implies before[q] < rest.len() by {
                lemma_json_indices_bounded(rest, q);
            }
            if j < rest.len() {
                assert(names[j] == rest[j]);
                if before.contains(j) {
                    let q = choose|q: int| 0 <= q < before.len() && before[q] == j;
                    if is_json_name(names.last()) {
                        assert(json_indices(names)[q] == j);
                    }
                }
                if json_indices(names).contains(j) {
                    let q = choose|q: int| 0 <= q < json_indices(names).len() && json_indices(names)[q] == j;
                    if q < before.len() {
                        assert(before[q] == j);
                    }
                }
            } else {
                if is_json_name(names[j]) {
                    assert(json_indices(names)[before.len() as int] == j);
                }
                if json_indices(names).contains(j) {
                    let q = choose|q: int| 0 <= q < json_indices(names).len() && json_indices(names)[q] == j;
                    if q < before.len() {
                        assert(before[q] < rest.len());
                    }
                }
            }
        }
    }
}

proof fn lemma_json_indices_bounded(names: Seq<Seq<char>>, q: int)
    requires
        0 <= q < json_indices(names).len(),
    ensures
        0 <= json_indices(names)[q] < names.len(),
    decreases names.len(),
{
    let rest = names.drop_last();
    if q < json_indices(rest).len() {
        lemma_json_indices_bounded(rest, q);
    }
}

/// The markdown line that embeds one image, with the match as its alt text.
pub open spec fn image_line(id: Seq<char>, name: Seq<char>) -> Seq<char> {
    "!["@ + id + "]("@ + name + ")\n"@
}

/// The lines that embed the images, in the order given.
pub open spec fn image_section(id: Seq<char>, names: Seq<Seq<char>>) -> Seq<char>
    decreases names.len(),
{
    if names.len() == 0 {
        Seq::empty()
    } else {
        image_section(id, names.drop_last()) + image_line(id, names.last())
    }
}

/// The markdown that embeds each image by its base name, one line per image.
pub fn image_markdown(id: &str, names: &Vec<String>) -> (r: String)
    ensures
        r@ == image_section(id@, strings_view(names@)),
{
    let ghost nv = strings_view(names@);
    let mut r = String::new();
    let mut i: usize = 0;
    while i < names.len()
        invariant
            0 <= i <= names.len(),
            nv == strings_view(names@),
            r@ == image_section(id@, nv.subrange(0, i as int)),
        decreases names.len() - i,
    {
        let ghost pre = nv.subrange(0, i + 1);
        assert(pre.drop_last() =~= nv.subrange(0, i as int));
        r = r.concat("![").concat(id).concat("](").concat(names[i].as_str()).concat(")\n");
        i = i + 1;
    }
    assert(nv.subrange(0, names.len() as int) =~= nv);
    r
}

/// The content of the feedback report: the narrative text, then one embed per image.
pub fn report_text(narrative: &str, id: &str, names: &Vec<String>) -> (r: String)
    ensures
        r@ == narrative@ + image_section(id@, strings_view(names@)),
{
    let section = image_markdown(id, names);
    String::from_str(narrative).concat(section.as_str())
}

/// With no image found, the report is the narrative text exactly, with nothing appended.
pub proof fn lemma_no_images_no_change(narrative: Seq<char>, id: Seq<char>, names: Seq<Seq<char>>)
    requires
        names.len() == 0,
    ensures
        narrative + image_section(id, names) == narrative,
        image_section(id, names).len() == 0,
{
    assert(narrative + image_section(id, names) =~= narrative);
}

/// The focus of the insight query: the one given, or `all`.
pub fn focus_or_all(focus: Option<String>) -> (r: String)
    ensures
        r@ == match focus {
            Some(f) => f@,
            None => "all"@,
        },
{
    match focus {
        Some(f) => f,
        None => String::from_str("all"),
    }
}

} // verus!
