//! The order of work of an indexing run.
//!
//! A run goes through the chunks of discovered paths one after the other.
//! For each chunk it first asks the store which paths it knows; a chunk
//! without new paths is done at once. Otherwise the chunk's records are
//! written in dependency order, the image record first. When the last
//! chunk is done the vector index is rebuilt, once. The caller carries out
//! each action and reports how it went; the run decides what comes next.
use vstd::prelude::*;

verus! {

/// One stage of work on a chunk, in the order in which the stages run.
#[derive(Clone, Copy, Debug, PartialEq, Eq, Structural)]
pub enum Step {
    /// Write the image records, so that everything else has a base.
    InsertBaseImages,
    /// Decode the images; one that fails to decode drops out of the chunk.
    LoadImages,
    ImageHash,
    BasicMetadata,
    FaceDetection,
    /// Needs the faces that detection stored.
    FaceEmbedding,
    /// Needs the faces that detection stored.
    AgeAndGender,
    ImageEmbedding,
}

/// Where a run stands.
#[derive(Clone, Copy, Debug, PartialEq, Eq, Structural)]
pub enum Phase {
    /// Asking the store which paths of chunk `chunk` it knows.
    Dedup { chunk: usize },
    /// Working on chunk `chunk` at stage `step`.
    Chunk { chunk: usize, step: Step },
    /// All chunks done, rebuilding the vector index.
    RebuildIndex,
    Finished,
    /// Given up: the store or a model failed.
    Failed,
}

/// What the caller reports back after an action.
#[derive(Clone, Copy, Debug, PartialEq, Eq, Structural)]
pub enum Event {
    /// The action went through and left `produced` items to go on with.
    Completed { produced: usize },
    /// The action failed.
    Failed,
}

/// What the caller has to do next.
#[derive(Clone, Copy, Debug, PartialEq, Eq, Structural)]
pub enum Action {
    FilterKnownPaths { chunk: usize },
    Run { chunk: usize, step: Step },
    RebuildIndex,
    Stop,
}

/// An indexing run over `chunks` chunks.
#[derive(Clone, Copy, Debug, PartialEq, Eq, Structural)]
pub struct MetadataIndexer {
    pub chunks: usize,
    pub phase: Phase,
}

impl Step {
    /// Position of the stage in the order of work.
    pub open spec fn rank(self) -> int {
        match self {
            Step::InsertBaseImages => 0,
            Step::LoadImages => 1,
            Step::ImageHash => 2,
            Step::BasicMetadata => 3,
            Step::FaceDetection => 4,
            Step::FaceEmbedding => 5,
            Step::AgeAndGender => 6,
            Step::ImageEmbedding => 7,
        }
    }

    /// The stage that follows, if any.
    pub open spec fn successor(self) -> Option<Step> {
        match self {
            Step::InsertBaseImages => Some(Step::LoadImages),
            Step::LoadImages => Some(Step::ImageHash),
            Step::ImageHash => Some(Step::BasicMetadata),
            Step::BasicMetadata => Some(Step::FaceDetection),
            Step::FaceDetection => Some(Step::FaceEmbedding),
            Step::FaceEmbedding => Some(Step::AgeAndGender),
            Step::AgeAndGender => Some(Step::ImageEmbedding),
            Step::ImageEmbedding => None,
        }
    }

    /// The stage that follows, if any.
    pub fn next(self) -> (following: Option<Step>)
        ensures
            following == self.successor(),
    {
        match self {
            Step::InsertBaseImages => Some(Step::LoadImages),
            Step::LoadImages => Some(Step::ImageHash),
            Step::ImageHash => Some(Step::BasicMetadata),
            Step::BasicMetadata => Some(Step::FaceDetection),
            Step::FaceDetection => Some(Step::FaceEmbedding),
            Step::FaceEmbedding => Some(Step::AgeAndGender),
            Step::AgeAndGender => Some(Step::ImageEmbedding),
            Step::ImageEmbedding => None,
        }
    }
}

/// The phase in which chunk `chunk` begins, or the rebuild when there is no
/// such chunk.
pub open spec fn enter_chunk(chunks: usize, chunk: int) -> Phase {
    if chunk < chunks {
        Phase::Dedup { chunk: chunk as usize }
    } else {
        Phase::RebuildIndex
    }
}

/// The phase that follows `phase` on `event`.
pub open spec fn next_phase(chunks: usize, phase: Phase, event: Event) -> Phase {
    match phase {
        Phase::Finished => Phase::Finished,
        Phase::Failed => Phase::Failed,
        _ => match event {
            Event::Failed => Phase::Failed,
            Event::Completed { produced } => match phase {
                Phase::Dedup { chunk } => if produced == 0 {
                    enter_chunk(chunks, chunk + 1)
                } else {
                    Phase::Chunk { chunk, step: Step::InsertBaseImages }
                },
                Phase::Chunk { chunk, step } => match step.successor() {
                    Some(following) => Phase::Chunk { chunk, step: following },
                    None => enter_chunk(chunks, chunk + 1),
                },
                Phase::RebuildIndex => Phase::Finished,
                _ => phase,
            },
        },
    }
}

/// The action that a phase asks for.
pub open spec fn action_of(phase: Phase) -> Action {
    match phase {
        Phase::Dedup { chunk } => Action::FilterKnownPaths { chunk },
        Phase::Chunk { chunk, step } => Action::Run { chunk, step },
        Phase::RebuildIndex => Action::RebuildIndex,
        Phase::Finished => Action::Stop,
        Phase::Failed => Action::Stop,
    }
}

/// Upper bound on the number of events a run can still take in.
pub open spec fn remaining_work(chunks: usize, phase: Phase) -> int {
    match phase {
        Phase::Dedup { chunk } => (chunks - chunk) * 9 + 1,
        Phase::Chunk { chunk, step } => (chunks - chunk) * 9 + 1 - (step.rank() + 1),
        Phase::RebuildIndex => 1,
        Phase::Finished => 0,
        Phase::Failed => 0,
    }
}

impl MetadataIndexer {
    /// The chunk in work lies within the run.
    pub open spec fn well_formed(self) -> bool {
        match self.phase {
            Phase::Dedup { chunk } => chunk < self.chunks,
            Phase::Chunk { chunk, step } => chunk < self.chunks,
            _ => true,
        }
    }

    /// A run over `chunks` chunks, about to begin.
    pub fn new(chunks: usize) -> (run: Self)
        ensures
            run.chunks == chunks,
            run.phase == enter_chunk(chunks, 0),
            run.well_formed(),
    {
        let phase = if chunks > 0 {
            Phase::Dedup { chunk: 0 }
        } else {
            Phase::RebuildIndex
        };
        MetadataIndexer { chunks, phase }
    }

    /// What the caller has to do now.
    pub fn action(&self) -> (upcoming: Action)
        ensures
            upcoming == action_of(self.phase),
    {
        match self.phase {
            Phase::Dedup { chunk } => Action::FilterKnownPaths { chunk },
            Phase::Chunk { chunk, step } => Action::Run { chunk, step },
            Phase::RebuildIndex => Action::RebuildIndex,
            Phase::Finished => Action::Stop,
            Phase::Failed => Action::Stop,
        }
    }

    fn begin_chunk(&self, chunk: usize) -> (phase: Phase)
        requires
            chunk <= self.chunks,
        ensures
            phase == enter_chunk(self.chunks, chunk as int),
    {
        if chunk < self.chunks {
            Phase::Dedup { chunk }
        } else {
            Phase::RebuildIndex
        }
    }

    /// Takes in what came of the last action and returns the next one.
    pub fn index_metadata(&mut self, event: Event) -> (upcoming: Action)
        requires
            old(self).well_formed(),
        ensures
            final(self).chunks == old(self).chunks,
            final(self).phase == next_phase(old(self).chunks, old(self).phase, event),
            final(self).well_formed(),
            upcoming == action_of(final(self).phase),
    {
        let phase = match self.phase {
            Phase::Finished => Phase::Finished,
            Phase::Failed => Phase::Failed,
            Phase::Dedup { chunk } => match event {
                Event::Failed => Phase::Failed,
                Event::Completed { produced } => if produced == 0 {
                    self.begin_chunk(chunk + 1)
                } else {
                    Phase::Chunk { chunk, step: Step::InsertBaseImages }
                },
            },
            Phase::Chunk { chunk, step } => match event {
                Event::Failed => Phase::Failed,
                Event::Completed { produced } => match step.next() {
                    Some(following) => Phase::Chunk { chunk, step: following },
                    None => self.begin_chunk(chunk + 1),
                },
            },
            Phase::RebuildIndex => match event {
                Event::Failed => Phase::Failed,
                Event::Completed { produced } => Phase::Finished,
            },
        };
        self.phase = phase;
        self.action()
    }
}

/// Records are written in dependency order: within a chunk the stages run
/// by rising rank, the image record is the first thing written for a
/// chunk, and a chunk is only left forwards.
pub proof fn lemma_dependency_order(chunks: usize, phase: Phase, produced: usize)
    requires
        (MetadataIndexer { chunks, phase }).well_formed(),
    ensures
        match (phase, next_phase(chunks, phase, Event::Completed { produced })) {
            (Phase::Dedup { chunk }, Phase::Chunk { chunk: c, step }) => c == chunk && step
                == Step::InsertBaseImages && produced > 0,
            (Phase::Dedup { chunk }, Phase::Dedup { chunk: c }) => c == chunk + 1 && produced == 0,
            (Phase::Dedup { chunk }, Phase::RebuildIndex) => chunk + 1 == chunks && produced == 0,
            (Phase::Chunk { chunk, step }, Phase::Chunk { chunk: c, step: s }) => c == chunk
                && s.rank() == step.rank() + 1,
            (Phase::Chunk { chunk, step }, Phase::Dedup { chunk: c }) => c == chunk + 1 && step
                == Step::ImageEmbedding,
            (Phase::Chunk { chunk, step }, Phase::RebuildIndex) => chunk + 1 == chunks && step
                == Step::ImageEmbedding,
            (Phase::RebuildIndex, Phase::Finished) => true,
            (Phase::Finished, Phase::Finished) => true,
            (Phase::Failed, Phase::Failed) => true,
            _ => false,
        },
{
}

/// Every event brings a run closer to its end: a run over `chunks` chunks
/// stops after at most nine events per chunk and one for the rebuild.
pub proof fn lemma_run_progresses(chunks: usize, phase: Phase, event: Event)
    requires
        (MetadataIndexer { chunks, phase }).well_formed(),
        phase != Phase::Finished,
        phase != Phase::Failed,
    ensures
        0 <= remaining_work(chunks, next_phase(chunks, phase, event)) < remaining_work(
            chunks,
            phase,
        ),
        remaining_work(chunks, enter_chunk(chunks, 0)) <= chunks * 9 + 1,
{
    match phase {
        Phase::Dedup { chunk } => {
            assert((chunks - chunk) * 9 == (chunks - (chunk + 1)) * 9 + 9) by (nonlinear_arith);
        },
        Phase::Chunk { chunk, step } => {
            assert((chunks - chunk) * 9 == (chunks - (chunk + 1)) * 9 + 9) by (nonlinear_arith);
        },
        _ => {},
    }
}

/// The index is rebuilt once, after the last chunk: the rebuild is entered
/// only from the end of the last chunk, or at once when there is no chunk,
/// and is left for good.
pub proof fn lemma_rebuild_once(chunks: usize, phase: Phase, event: Event)
    requires
        (MetadataIndexer { chunks, phase }).well_formed(),
    ensures
        next_phase(chunks, phase, event) == Phase::RebuildIndex ==> match phase {
            Phase::Dedup { chunk } => chunk + 1 == chunks,
            Phase::Chunk { chunk, step } => chunk + 1 == chunks && step == Step::ImageEmbedding,
            _ => false,
        },
        phase == Phase::RebuildIndex ==> next_phase(chunks, phase, event) != Phase::RebuildIndex,
        (enter_chunk(chunks, 0) == Phase::RebuildIndex) == (chunks == 0),
{
}

/// A chunk whose paths the store already knows is passed over: no stage
/// of it runs, so a second run over an unchanged tree writes nothing.
pub proof fn lemma_known_chunk_is_passed_over(chunks: usize, chunk: usize)
    requires
        chunk < chunks,
    ensures
        next_phase(chunks, Phase::Dedup { chunk }, Event::Completed { produced: 0 })
            == enter_chunk(chunks, chunk + 1),
        !(action_of(
            next_phase(chunks, Phase::Dedup { chunk }, Event::Completed { produced: 0 }),
        ) is Run),
{
}

/// The phase of a run after it has taken in `events`, one after the other.
pub open spec fn phase_after(chunks: usize, phase: Phase, events: Seq<Event>) -> Phase
    decreases events.len(),
{
    if events.len() == 0 {
        phase
    } else {
        next_phase(chunks, phase_after(chunks, phase, events.drop_last()), events.last())
    }
}

/// Whether every event reports an action that went through and left
/// nothing to go on with.
pub open spec fn nothing_new(events: Seq<Event>) -> bool {
    forall|i: int| 0 <= i < events.len() ==> #[trigger] events[i] == (Event::Completed {
        produced: 0,
    })
}

/// A run over a tree of which the store knows every path writes nothing:
/// as long as each answer of the store leaves no new path, the run only
/// asks the store, chunk after chunk, then rebuilds the index and stops.
/// No stage of any chunk runs.
pub proof fn lemma_second_run_writes_nothing(chunks: usize, events: Seq<Event>)
    requires
        nothing_new(events),
    ensures
        events.len() <= chunks ==> phase_after(chunks, enter_chunk(chunks, 0), events)
            == enter_chunk(chunks, events.len() as int),
        events.len() > chunks ==> phase_after(chunks, enter_chunk(chunks, 0), events)
            == Phase::Finished,
        !(action_of(phase_after(chunks, enter_chunk(chunks, 0), events)) is Run),
    decreases events.len(),
{
    if events.len() > 0 {
        let earlier = events.drop_last();
        assert forall|i: int| 0 <= i < earlier.len() implies #[trigger] earlier[i] == (
        Event::Completed { produced: 0 }) by {
            assert(earlier[i] == events[i]);
        }
        lemma_second_run_writes_nothing(chunks, earlier);
        assert(events.last() == events[events.len() - 1]);
    }
}

} // verus!
