//! The orchestrator's decisions: from the extracted segment list to a fixed
//! schedule, and the writer's progress count.
//!
//! A run moves through: list loaded, resume filter applied, then either
//! nothing left to do, or a fixed set of chunks handed to the workers. The
//! decisions are a pure function of the extracted list, the presence flags,
//! the resume flag and the worker count; loading the list and asking the
//! disk happen outside and hand their answers in.

use vstd::prelude::*;
use crate::resume::spec_keep_absent;
use crate::resume::resume_filter;
use crate::schedule::spec_chunk_count;
use crate::schedule::spec_chunk_size;
use crate::schedule::partition;

verus! {

/// What a run does after the segment list is loaded and filtered.
pub enum RunPlan {
    /// The playlist yields no segment at all: fatal, the run must stop.
    InvalidPlaylist,
    /// Resume filtering left nothing to fetch: report success and stop.
    AlreadyDone,
    /// The chunks to hand to the workers, one chunk per worker.
    Work(Vec<Vec<String>>),
}

/// The segments a run still has to fetch: the extracted list, minus the
/// segments already on disk when the run resumes.
pub open spec fn spec_remaining(
    names: Seq<Seq<char>>,
    present: Seq<bool>,
    resume: bool,
) -> Seq<Seq<char>> {
    if resume {
        spec_keep_absent(names, present)
    } else {
        names
    }
}

/// Decides a run from the extracted segment list: fatal on an empty list,
/// already done when resume filtering leaves nothing, otherwise the fixed
/// chunks that the workers are handed.
pub fn plan_download(
    names: Vec<String>,
    present: &Vec<bool>,
    resume: bool,
    workers: usize,
) -> (r: RunPlan)
    requires
        workers >= 1,
        present@.len() == names@.len(),
    ensures
        ({
            let remaining = spec_remaining(names.deep_view(), present@, resume);
            &&& r is InvalidPlaylist <==> names@.len() == 0
            &&& (names@.len() > 0 ==> (r is AlreadyDone <==> remaining.len() == 0))
            &&& (r matches RunPlan::Work(chunks) ==> {
                &&& chunks.deep_view().flatten() == remaining
                &&& chunks@.len() == spec_chunk_count(remaining.len() as int, workers as int)
                &&& forall|k: int|
                    0 <= k < chunks@.len() ==> (#[trigger] chunks.deep_view()[k]).len()
                        == spec_chunk_size(remaining.len() as int, workers as int, k)
            })
        }),
{
    if names.len() == 0 {
        return RunPlan::InvalidPlaylist;
    }
    let remaining = if resume {
        resume_filter(&names, present)
    } else {
        names
    };
    if remaining.len() == 0 {
        return RunPlan::AlreadyDone;
    }
    RunPlan::Work(partition(&remaining, workers))
}

/// The writer's progress: how many of the scheduled segments have been
/// persisted so far.
pub struct Progress {
    pub total: usize,
    pub done: usize,
}

impl Progress {
    /// The count never runs past the number of scheduled segments.
    pub open spec fn wf(&self) -> bool {
        self.done <= self.total
    }

    /// Starts counting against the number of segments scheduled for this
    /// run — the filtered count, not the original one.
    pub fn new(total: usize) -> (r: Progress)
        ensures
            r.total == total,
            r.done == 0,
            r.wf(),
    {
        Progress { total, done: 0 }
    }

    /// Records one persisted segment.
    pub fn advance(&mut self)
        requires
            old(self).wf(),
            old(self).done < old(self).total,
        ensures
            final(self).total == old(self).total,
            final(self).done == old(self).done + 1,
            final(self).wf(),
    {
        self.done = self.done + 1;
    }

    /// Whether every scheduled segment has been persisted.
    pub fn is_done(&self) -> (r: bool)
        ensures
            r == (self.done == self.total),
    {
        self.done == self.total
    }
}

} // verus!
