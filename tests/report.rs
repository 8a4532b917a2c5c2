use rattlebrain::pipeline::{exits_with_failure, is_terminal, next_stage, Stage};
use rattlebrain::report::{
    artifact_paths, csv_path, focus_or_all, frames_csv_path, has_json_extension, image_markdown,
    image_path, image_pattern, json_files, report_path, report_text,
};

fn s(x: &str) -> String {
    x.to_string()
}

#[test]
fn artifact_paths_follow_the_layout() {
    assert_eq!(
        artifact_paths("./output", "m1"),
        vec![
            s("./output/m1.replay.frames.json"),
            s("./output/m1.player_stats.json"),
            s("./output/m1.goals.json"),
            s("./output/m1.highlights.json"),
        ]
    );
    assert_eq!(frames_csv_path("./output", "m1"), "./output/m1.replay.frames.json.csv");
    assert_eq!(report_path("./output", "m1"), "./output/m1.feedback.md");
    assert_eq!(image_pattern("./output", "m1"), "./output/m1*.png");
}

#[test]
fn derived_paths_are_siblings() {
    assert_eq!(csv_path("a/b.json"), "a/b.json.csv");
    assert_eq!(image_path("a/b.json.csv"), "a/b.json.csv.png");
}

#[test]
fn json_extension_rule() {
    assert!(has_json_extension("m1.goals.json"));
    assert!(has_json_extension("a.json"));
    assert!(!has_json_extension(".json"));
    assert!(!has_json_extension("json"));
    assert!(!has_json_extension("m1.goals.json.csv"));
    assert!(!has_json_extension("m1.JSON"));
}

#[test]
fn cleanup_selects_every_json_file() {
    let names = vec![s("m.goals.json"), s("m.goals.json.csv"), s("x.png"), s("m.replay.frames.json")];
    let picked = json_files(&names);
    assert_eq!(picked, vec![0, 3]);
    let left: Vec<&String> = names.iter().enumerate().filter(|(i, _)| !picked.contains(i)).map(|(_, n)| n).collect();
    assert!(left.iter().all(|n| !has_json_extension(n)));
}

#[test]
fn images_are_embedded_in_order() {
    let names = vec![s("m.a.png"), s("m.b.png")];
    assert_eq!(image_markdown("m", &names), "![m](m.a.png)\n![m](m.b.png)\n");
    assert_eq!(report_text("# Notes\n", "m", &names), "# Notes\n![m](m.a.png)\n![m](m.b.png)\n");
}

#[test]
fn no_images_leaves_text_unchanged() {
    let text = "Narrative\nwith lines";
    assert_eq!(report_text(text, "m", &vec![]), text);
    assert_eq!(image_markdown("m", &vec![]), "");
}

#[test]
fn focus_defaults_to_all() {
    assert_eq!(focus_or_all(None), "all");
    assert_eq!(focus_or_all(Some(s("defense"))), "defense");
}

#[test]
fn stages_run_in_order() {
    assert_eq!(next_stage(Stage::Extracting, true), Stage::Flattening(0));
    assert_eq!(next_stage(Stage::Flattening(2), true), Stage::Flattening(3));
    assert_eq!(next_stage(Stage::Flattening(3), false), Stage::Cleanup);
    assert_eq!(next_stage(Stage::Cleanup, false), Stage::Rendering);
    assert_eq!(next_stage(Stage::Rendering, true), Stage::QueryingInsight);
    assert_eq!(next_stage(Stage::QueryingInsight, true), Stage::WritingReport);
    assert_eq!(next_stage(Stage::WritingReport, true), Stage::DiscoveringImages);
    assert_eq!(next_stage(Stage::DiscoveringImages, false), Stage::AppendingImages);
    assert_eq!(next_stage(Stage::AppendingImages, true), Stage::Done);
}

#[test]
fn fatal_and_best_effort_steps() {
    assert_eq!(next_stage(Stage::Extracting, false), Stage::Failed);
    assert_eq!(next_stage(Stage::Rendering, false), Stage::Failed);
    assert_eq!(next_stage(Stage::Flattening(0), false), Stage::Flattening(1));
    assert_eq!(next_stage(Stage::QueryingInsight, false), Stage::Done);
    assert!(exits_with_failure(Stage::Failed));
    assert!(!exits_with_failure(Stage::Done));
    assert!(is_terminal(Stage::Done) && is_terminal(Stage::Failed));
    assert!(!is_terminal(Stage::Cleanup));
}

#[test]
fn every_flatten_outcome_reaches_cleanup() {
    for mask in 0..16u32 {
        let mut st = Stage::Flattening(0);
        for k in 0..4 {
            st = next_stage(st, mask & (1 << k) != 0);
        }
        assert_eq!(st, Stage::Cleanup);
        assert_eq!(next_stage(st, false), Stage::Rendering);
    }
}
