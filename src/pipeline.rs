use vstd::prelude::*;
use crate::report::ARTIFACTS;

verus! {

/// A stage of the full analysis of one match.
#[derive(Debug, Clone, Copy, PartialEq, Eq, Structural)]
pub enum Stage {
    Extracting,
    /// Flattening the derived artifact of this index.
    Flattening(usize),
    Cleanup,
    Rendering,
    QueryingInsight,
    WritingReport,
    DiscoveringImages,
    AppendingImages,
    /// Finished: every fatal step succeeded.
    Done,
    /// Stopped by a fatal failure.
    Failed,
}

/// The stage after `stage` when its step succeeded (`ok`) or not. Extraction and
/// rendering are fatal; each flattening, cleanup, image discovery and appending
/// go on either way; without insight text or a written report the run ends
/// without a report, but not as a failure.
pub open spec fn next_stage_spec(stage: Stage, ok: bool) -> Stage {
    match stage {
        Stage::Extracting => if ok { Stage::Flattening(0) } else { Stage::Failed },
        Stage::Flattening(k) => if k + 1 < ARTIFACTS { Stage::Flattening((k + 1) as usize) } else { Stage::Cleanup },
        Stage::Cleanup => Stage::Rendering,
        Stage::Rendering => if ok { Stage::QueryingInsight } else { Stage::Failed },
        Stage::QueryingInsight => if ok { Stage::WritingReport } else { Stage::Done },
        Stage::WritingReport => if ok { Stage::DiscoveringImages } else { Stage::Done },
        Stage::DiscoveringImages => Stage::AppendingImages,
        Stage::AppendingImages => Stage::Done,
        Stage::Done => Stage::Done,
        Stage::Failed => Stage::Failed,
    }
}

/// Decides the stage that follows a step of the full analysis.
pub fn next_stage(stage: Stage, ok: bool) -> (r: Stage)
    ensures
        r == next_stage_spec(stage, ok),
{
    match stage {
        Stage::Extracting => if ok { Stage::Flattening(0) } else { Stage::Failed },
        Stage::Flattening(k) => if k < ARTIFACTS - 1 { Stage::Flattening(k + 1) } else { Stage::Cleanup },
        Stage::Cleanup => Stage::Rendering,
        Stage::Rendering => if ok { Stage::QueryingInsight } else { Stage::Failed },
        Stage::QueryingInsight => if ok { Stage::WritingReport } else { Stage::Done },
        Stage::WritingReport => if ok { Stage::DiscoveringImages } else { Stage::Done },
        Stage::DiscoveringImages => Stage::AppendingImages,
        Stage::AppendingImages => Stage::Done,
        Stage::Done => Stage::Done,
        Stage::Failed => Stage::Failed,
    }
}

/// Whether the run ends here.
pub fn is_terminal(stage: Stage) -> (r: bool)
    ensures
        r == (stage == Stage::Done || stage == Stage::Failed),
{
    match stage {
        Stage::Done | Stage::Failed => true,
        _ => false,
    }
}

/// Whether the run, ended at this stage, reports failure to the operator by its exit status.
pub fn exits_with_failure(stage: Stage) -> (r: bool)
    ensures
        r == (stage == Stage::Failed),
{
    match stage {
        Stage::Failed => true,
        _ => false,
    }
}

/// The stage reached from `stage` after steps with these outcomes.
pub open spec fn run_stages(stage: Stage, outcomes: Seq<bool>) -> Stage
    decreases outcomes.len(),
{
    if outcomes.len() == 0 {
        stage
    } else {
        run_stages(next_stage_spec(stage, outcomes[0]), outcomes.drop_first())
    }
}

/// Whatever each of the four flattening attempts gives, the run goes on to
/// cleanup and then to rendering.
pub proof fn lemma_flattening_reaches_cleanup(outcomes: Seq<bool>, cleanup_ok: bool)
    requires
        outcomes.len() == ARTIFACTS,
    ensures
        run_stages(Stage::Flattening(0), outcomes) == Stage::Cleanup,
        run_stages(Stage::Flattening(0), outcomes.push(cleanup_ok)) == Stage::Rendering,
{
    let o1 = outcomes.drop_first();
    let o2 = o1.drop_first();
    let o3 = o2.drop_first();
    let o4 = o3.drop_first();
    assert(o4.len() == 0);
    assert(run_stages(Stage::Cleanup, o4) == Stage::Cleanup);
    assert(next_stage_spec(Stage::Flattening(3), o3[0]) == Stage::Cleanup);
    assert(run_stages(Stage::Flattening(3), o3) == Stage::Cleanup);
    assert(run_stages(Stage::Flattening(2), o2) == Stage::Cleanup);
    assert(run_stages(Stage::Flattening(1), o1) == Stage::Cleanup);
    let p = outcomes.push(cleanup_ok);
    assert(p.drop_first() =~= o1.push(cleanup_ok));
    assert(o1.push(cleanup_ok).drop_first() =~= o2.push(cleanup_ok));
    assert(o2.push(cleanup_ok).drop_first() =~= o3.push(cleanup_ok));
    assert(o3.push(cleanup_ok).drop_first() =~= seq![cleanup_ok]);
    assert(seq![cleanup_ok].drop_first() =~= Seq::<bool>::empty());
    assert(run_stages(Stage::Rendering, Seq::<bool>::empty()) == Stage::Rendering);
    assert(run_stages(Stage::Cleanup, seq![cleanup_ok]) == run_stages(Stage::Rendering, seq![cleanup_ok].drop_first()));
    assert(run_stages(Stage::Cleanup, seq![cleanup_ok]) == Stage::Rendering);
    assert(run_stages(Stage::Flattening(3), o3.push(cleanup_ok)) == Stage::Rendering);
    assert(run_stages(Stage::Flattening(2), o2.push(cleanup_ok)) == Stage::Rendering);
    assert(run_stages(Stage::Flattening(1), o1.push(cleanup_ok)) == Stage::Rendering);
}

} // verus!
