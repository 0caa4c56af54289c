//! Building pyramids: before clients come, and while they wait.

use vstd::prelude::*;

use crate::pyramid::storage::PyramidStatus;

verus! {

/// What became of an image whose pyramid was to be built beforehand.
#[derive(Clone, Copy, Debug, PartialEq, Eq, Structural)]
pub enum PregenOutcome {
    Generated,
    Skipped,
    Failed,
}

/// An answer to a step.
#[derive(Clone, Copy, Debug, PartialEq, Eq, Structural)]
pub enum PregenEvent {
    /// Whether the image could be hashed.
    Hashed(bool),
    /// How its pyramid stands.
    Status(PyramidStatus),
    /// Whether a loader was found.
    Loader(bool),
    /// Whether its bands could be loaded.
    Loaded(bool),
    /// Whether the pyramid was built and saved.
    Saved(bool),
}

/// What is to be done next for an image.
#[derive(Clone, Copy, Debug, PartialEq, Eq, Structural)]
pub enum PregenStep {
    CheckStatus,
    FindLoader,
    Load,
    Build,
    /// The image is done with; `mark` where its pyramid is marked as failed first.
    Finish { outcome: PregenOutcome, mark: bool },
}

/// What is to be done next for an image: pyramids that are there or on their way
/// are left alone, and the first thing that fails ends it.
pub open spec fn pregen_next(event: PregenEvent) -> PregenStep {
    let failed = PregenStep::Finish { outcome: PregenOutcome::Failed, mark: false };
    match event {
        PregenEvent::Hashed(ok) => if ok {
            PregenStep::CheckStatus
        } else {
            failed
        },
        PregenEvent::Status(status) => if status == PyramidStatus::Ready || status
            == PyramidStatus::Building {
            PregenStep::Finish { outcome: PregenOutcome::Skipped, mark: false }
        } else {
            PregenStep::FindLoader
        },
        PregenEvent::Loader(ok) => if ok {
            PregenStep::Load
        } else {
            failed
        },
        PregenEvent::Loaded(ok) => if ok {
            PregenStep::Build
        } else {
            failed
        },
        PregenEvent::Saved(ok) => if ok {
            PregenStep::Finish { outcome: PregenOutcome::Generated, mark: false }
        } else {
            PregenStep::Finish { outcome: PregenOutcome::Failed, mark: true }
        },
    }
}

/// What is to be done next for an image.
pub fn pregenerate_step(event: PregenEvent) -> (step: PregenStep)
    ensures
        step == pregen_next(event),
{
    match event {
        PregenEvent::Hashed(true) => PregenStep::CheckStatus,
        PregenEvent::Status(PyramidStatus::Ready) => PregenStep::Finish {
            outcome: PregenOutcome::Skipped,
            mark: false,
        },
        PregenEvent::Status(PyramidStatus::Building) => PregenStep::Finish {
            outcome: PregenOutcome::Skipped,
            mark: false,
        },
        PregenEvent::Status(_) => PregenStep::FindLoader,
        PregenEvent::Loader(true) => PregenStep::Load,
        PregenEvent::Loaded(true) => PregenStep::Build,
        PregenEvent::Saved(true) => PregenStep::Finish {
            outcome: PregenOutcome::Generated,
            mark: false,
        },
        PregenEvent::Saved(false) => PregenStep::Finish {
            outcome: PregenOutcome::Failed,
            mark: true,
        },
        PregenEvent::Hashed(false) | PregenEvent::Loader(false) | PregenEvent::Loaded(false) =>
            PregenStep::Finish { outcome: PregenOutcome::Failed, mark: false },
    }
}

/// How many images had which outcome.
#[derive(Clone, Copy, Debug, PartialEq, Eq, Structural)]
pub struct PregenTally {
    pub generated: usize,
    pub skipped: usize,
    pub failed: usize,
}

/// How many outcomes are of a kind.
pub open spec fn occurrences(outcomes: Seq<PregenOutcome>, kind: PregenOutcome) -> nat
    decreases outcomes.len(),
{
    if outcomes.len() == 0 {
        0
    } else {
        occurrences(outcomes.drop_last(), kind) + if outcomes.last() == kind {
            1nat
        } else {
            0
        }
    }
}

/// Every outcome is of one of the three kinds.
pub proof fn lemma_outcomes_add_up(outcomes: Seq<PregenOutcome>)
    ensures
        occurrences(outcomes, PregenOutcome::Generated) + occurrences(
            outcomes,
            PregenOutcome::Skipped,
        ) + occurrences(outcomes, PregenOutcome::Failed) == outcomes.len(),
    decreases outcomes.len(),
{
    if outcomes.len() > 0 {
        lemma_outcomes_add_up(outcomes.drop_last());
    }
}

/// Counts outcomes.
pub fn tally(outcomes: &Vec<PregenOutcome>) -> (r: PregenTally)
    ensures
        r.generated == occurrences(outcomes@, PregenOutcome::Generated),
        r.skipped == occurrences(outcomes@, PregenOutcome::Skipped),
        r.failed == occurrences(outcomes@, PregenOutcome::Failed),
        r.generated + r.skipped + r.failed == outcomes@.len(),
{
    let mut r = PregenTally { generated: 0, skipped: 0, failed: 0 };
    let mut i: usize = 0;
    assert(outcomes.len() <= usize::MAX);
    assert(outcomes@.take(0) =~= Seq::<PregenOutcome>::empty());
    while i < outcomes.len()
        invariant
            i <= outcomes@.len() <= usize::MAX,
            r.generated == occurrences(outcomes@.take(i as int), PregenOutcome::Generated),
            r.skipped == occurrences(outcomes@.take(i as int), PregenOutcome::Skipped),
            r.failed == occurrences(outcomes@.take(i as int), PregenOutcome::Failed),
        decreases outcomes@.len() - i,
    {
        proof {
            lemma_outcomes_add_up(outcomes@.take(i as int));
            assert(outcomes@.take(i + 1).drop_last() =~= outcomes@.take(i as int));
            assert(outcomes@.take(i + 1).last() == outcomes@[i as int]);
        }
        match outcomes[i] {
            PregenOutcome::Generated => {
                r.generated = r.generated + 1;
            },
            PregenOutcome::Skipped => {
                r.skipped = r.skipped + 1;
            },
            PregenOutcome::Failed => {
                r.failed = r.failed + 1;
            },
        }
        i = i + 1;
    }
    assert(outcomes@.take(i as int) =~= outcomes@);
    proof {
        lemma_outcomes_add_up(outcomes@);
    }
    r
}

/// How many pyramids may be built at once: at least one.
pub fn concurrency_limit(configured: usize) -> (limit: usize)
    ensures
        limit == if configured == 0 {
            1
        } else {
            configured
        },
        limit >= 1,
        configured >= 1 ==> limit == configured,
{
    if configured == 0 {
        1
    } else {
        configured
    }
}

/// An answer to a step of a build that a client waits for.
#[derive(Debug)]
pub enum BuildEvent {
    /// Whether a loader was found.
    Loader(bool),
    /// The bands were loaded, or why not.
    Loaded(Result<(), String>),
    /// The pyramid was built and saved, or why not.
    Saved(Result<(), String>),
}

/// What is to be done next in such a build. At its end it is taken from the list
/// of builds.
#[derive(Debug)]
pub enum BuildTask {
    Load,
    Build,
    /// The pyramid is marked as failed, and the build is over.
    MarkFailed(String),
    Finish,
}

/// What is to be done next in a build: what fails is noted with its reason.
pub open spec fn task_next(event: BuildEvent) -> BuildTask {
    match event {
        BuildEvent::Loader(true) => BuildTask::Load,
        BuildEvent::Loader(false) => BuildTask::Finish,
        BuildEvent::Loaded(Ok(())) => BuildTask::Build,
        BuildEvent::Loaded(Err(cause)) => BuildTask::MarkFailed(cause),
        BuildEvent::Saved(Ok(())) => BuildTask::Finish,
        BuildEvent::Saved(Err(cause)) => BuildTask::MarkFailed(cause),
    }
}

/// What is to be done next in a build: what fails is noted with its reason.
pub fn pyramid_task_step(event: BuildEvent) -> (task: BuildTask)
    ensures
        task == task_next(event),
{
    match event {
        BuildEvent::Loader(found) => if found {
            BuildTask::Load
        } else {
            BuildTask::Finish
        },
        BuildEvent::Loaded(Ok(())) => BuildTask::Build,
        BuildEvent::Loaded(Err(cause)) => BuildTask::MarkFailed(cause),
        BuildEvent::Saved(Ok(())) => BuildTask::Finish,
        BuildEvent::Saved(Err(cause)) => BuildTask::MarkFailed(cause),
    }
}

// ----------------------------------------------------------------------------
// Segmentation
// ----------------------------------------------------------------------------

/// Whether a server segments: not unless it is enabled, and then the engine must be
/// there.
pub open spec fn segments(enabled: bool, engine: Result<(), String>) -> Result<bool, String> {
    if !enabled {
        Ok(false)
    } else {
        match engine {
            Ok(()) => Ok(true),
            Err(cause) => Err(cause),
        }
    }
}

/// Whether a server segments: not unless it is enabled, and then the engine must be
/// there.
pub fn sam_startup(enabled: bool, engine: Result<(), String>) -> (r: Result<bool, String>)
    ensures
        r == segments(enabled, engine),
{
    if !enabled {
        return Ok(false);
    }
    match engine {
        Ok(()) => Ok(true),
        Err(cause) => Err(cause),
    }
}

/// What a user is told whose segmentation engine is enabled and cannot be had.
pub fn sam_failure(cause: &str, model_dir: &str, encoder: &str, decoder: &str) -> (out: String)
    ensures
        out@ == "\n\nERROR: SAM initialization failed!\n\nYou specified --sam-enabled but SAM could not be initialized:\n"@
            + cause@
            + "\n\nThis is usually because the ONNX model files are missing.\nExpected model directory: "@
            + model_dir@ + "\nExpected files:\n- "@ + encoder@ + "\n- "@ + decoder@
            + "\n\nTo fix this, either:\n1. Download the models manually from:\nhttps://huggingface.co/vietanhdev/segment-anything-2-onnx-models\n2. Remove --sam-enabled to run without SAM\n\n"@,
{
    let mut out = "\n\nERROR: SAM initialization failed!\n\nYou specified --sam-enabled but SAM could not be initialized:\n".to_owned();
    out.append(cause);
    out.append(
        "\n\nThis is usually because the ONNX model files are missing.\nExpected model directory: ",
    );
    out.append(model_dir);
    out.append("\nExpected files:\n- ");
    out.append(encoder);
    out.append("\n- ");
    out.append(decoder);
    out.append(
        "\n\nTo fix this, either:\n1. Download the models manually from:\nhttps://huggingface.co/vietanhdev/segment-anything-2-onnx-models\n2. Remove --sam-enabled to run without SAM\n\n",
    );
    out
}

// ----------------------------------------------------------------------------
// Laws
// ----------------------------------------------------------------------------

/// Whether an event is an answer to a step.
pub open spec fn pregen_answers(step: PregenStep, event: PregenEvent) -> bool {
    match step {
        PregenStep::CheckStatus => event is Status,
        PregenStep::FindLoader => event is Loader,
        PregenStep::Load => event is Loaded,
        PregenStep::Build => event is Saved,
        PregenStep::Finish { .. } => false,
    }
}

/// Whether these are the steps that are taken for an image, from an event on: each
/// answers an event, and the next event answers it.
pub open spec fn is_pregen_run(events: Seq<PregenEvent>, steps: Seq<PregenStep>) -> bool {
    &&& events.len() > 0
    &&& events.len() == steps.len()
    &&& forall|i: int| 0 <= i < events.len() ==> #[trigger] steps[i] == pregen_next(events[i])
    &&& forall|i: int|
        0 <= i < steps.len() - 1 ==> pregen_answers(#[trigger] steps[i], events[i + 1])
    &&& steps.last() is Finish
}

/// An event that does not tell of a failure.
pub open spec fn went_well(event: PregenEvent) -> bool {
    match event {
        PregenEvent::Hashed(ok) => ok,
        PregenEvent::Status(_) => true,
        PregenEvent::Loader(ok) => ok,
        PregenEvent::Loaded(ok) => ok,
        PregenEvent::Saved(ok) => ok,
    }
}

/// An image whose pyramid is neither ready nor being built gets one: where nothing
/// fails, a loader is looked for, the image is loaded, the pyramid is built, and the
/// outcome is that it was generated.
pub proof fn lemma_missing_pyramids_are_generated(
    status: PyramidStatus,
    events: Seq<PregenEvent>,
    steps: Seq<PregenStep>,
)
    requires
        status == PyramidStatus::Pending || status == PyramidStatus::Failed,
        is_pregen_run(events, steps),
        events[0] == PregenEvent::Status(status),
        forall|i: int| 0 <= i < events.len() ==> went_well(#[trigger] events[i]),
    ensures
        steps.len() == 4,
        steps[0] is FindLoader,
        steps[1] is Load,
        steps[2] is Build,
        steps[3] == (PregenStep::Finish { outcome: PregenOutcome::Generated, mark: false }),
{
    assert(steps[0] == pregen_next(events[0]));
    assert(steps.len() > 1);
    assert(pregen_answers(steps[0], events[1]));
    assert(went_well(events[1]));
    assert(steps[1] == pregen_next(events[1]));
    assert(steps.len() > 2);
    assert(pregen_answers(steps[1], events[2]));
    assert(went_well(events[2]));
    assert(steps[2] == pregen_next(events[2]));
    assert(steps.len() > 3);
    assert(pregen_answers(steps[2], events[3]));
    assert(went_well(events[3]));
    assert(steps[3] == pregen_next(events[3]));
    if steps.len() > 4 {
        assert(pregen_answers(steps[3], events[4]));
    }
}

/// What becomes of an image: it is skipped exactly where its pyramid is found ready or
/// being built; it counts as generated exactly where a pyramid was built and saved; it
/// fails exactly where something failed, and is marked where that was the saving.
pub proof fn lemma_outcomes_follow_events(events: Seq<PregenEvent>, steps: Seq<PregenStep>)
    requires
        is_pregen_run(events, steps),
    ensures
        match steps.last() {
            PregenStep::Finish { outcome, mark } => {
                &&& outcome == PregenOutcome::Skipped <==> (events.last() == PregenEvent::Status(
                    PyramidStatus::Ready,
                ) || events.last() == PregenEvent::Status(PyramidStatus::Building))
                &&& outcome == PregenOutcome::Generated <==> events.last() == PregenEvent::Saved(
                    true,
                )
                &&& outcome == PregenOutcome::Failed <==> !went_well(events.last())
                &&& mark <==> events.last() == PregenEvent::Saved(false)
            },
            _ => false,
        },
        forall|i: int| 0 <= i < events.len() - 1 ==> went_well(#[trigger] events[i]),
        forall|i: int|
            1 <= i < events.len() && (#[trigger] events[i]) is Saved ==> steps[i - 1] is Build,
{
    let last = events.len() - 1;
    assert(steps[last] == pregen_next(events[last]));
    assert forall|i: int| 0 <= i < events.len() - 1 implies went_well(#[trigger] events[i]) by {
        assert(steps[i] == pregen_next(events[i]));
        assert(pregen_answers(steps[i], events[i + 1]));
    }
    assert forall|i: int| 1 <= i < events.len() && (#[trigger] events[i]) is Saved implies steps[i
        - 1] is Build by {
        assert(pregen_answers(steps[i - 1], events[i - 1 + 1]));
    }
}

/// How many outcomes are of a kind is how often the kind occurs among them, in
/// whatever order.
pub proof fn lemma_occurrences_are_counted(outcomes: Seq<PregenOutcome>, kind: PregenOutcome)
    ensures
        occurrences(outcomes, kind) == outcomes.to_multiset().count(kind),
    decreases outcomes.len(),
{
    broadcast use vstd::seq_lib::group_to_multiset_ensures;

    if outcomes.len() > 0 {
        lemma_occurrences_are_counted(outcomes.drop_last(), kind);
        assert(outcomes =~= outcomes.drop_last().push(outcomes.last()));
    } else {
        assert(outcomes =~= Seq::<PregenOutcome>::empty());
    }
}

/// A build that a client waits for goes on as long as nothing fails; what fails once
/// the image is found is noted with its own reason; and it is over without a mark only
/// where the pyramid was saved or no loader was found.
pub proof fn lemma_build_tasks(event: BuildEvent)
    ensures
        task_next(event) is Load <==> event == BuildEvent::Loader(true),
        task_next(event) is Build <==> (event matches BuildEvent::Loaded(r) && r is Ok),
        task_next(event) is Finish <==> (event == BuildEvent::Loader(false) || (
        event matches BuildEvent::Saved(r) && r is Ok)),
        task_next(event) matches BuildTask::MarkFailed(cause) ==> match event {
            BuildEvent::Loaded(r) => r == Err::<(), String>(cause),
            BuildEvent::Saved(r) => r == Err::<(), String>(cause),
            BuildEvent::Loader(_) => false,
        },
{
}

/// A server segments only where it was asked to and the engine is there; it fails to
/// start only where it was asked to and the engine is not, with the engine's reason.
pub proof fn lemma_segmentation_is_asked_for(enabled: bool, engine: Result<(), String>)
    ensures
        segments(enabled, engine) == Ok::<bool, String>(true) <==> enabled && engine is Ok,
        segments(enabled, engine) is Err <==> enabled && engine is Err,
        segments(enabled, engine) matches Err(cause) ==> engine == Err::<(), String>(cause),
        !enabled ==> segments(enabled, engine) == Ok::<bool, String>(false),
{
}

} // verus!
