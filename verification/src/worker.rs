//! Messages between the viewer and the thread that loads and computes.

use vstd::prelude::*;
use vstd::string::StringExecFns;

use crate::audio::{AudioError, AudioFile};
use crate::outputs::{CrossOutput, CwtOutput, Transform};
use crate::wavelet::CwtParams;

verus! {

/// A transform to compute. `channels` stands for the audio data, which is shared.
#[derive(Debug)]
pub struct ComputeRequest<C, F> {
    pub channels: C,
    pub sample_rate: u32,
    pub t_start: usize,
    pub t_end: usize,
    pub width_pixels: usize,
    pub params: CwtParams<F>,
    pub antialias: bool,
    pub unweighted: bool,
    /// Number of superlet passes; 1 is the plain transform.
    pub superlet_order: u32,
}

/// What the viewer asks of the worker.
#[derive(Debug)]
pub enum WorkerMsg<C, F> {
    LoadFile { path: String },
    Compute(ComputeRequest<C, F>),
}

/// What the worker answers.
#[derive(Debug)]
pub enum WorkerResult<F> {
    Loaded(AudioFile<F>),
    Computed { channels: Vec<CwtOutput<F>>, cross: Option<CrossOutput<F>> },
    Error(String),
}

/// How a computation ended.
#[derive(Debug)]
pub enum Outcome<F> {
    Finished(Transform<F>),
    Failed(String),
    /// The device gave up, for instance for want of memory.
    Aborted,
}

impl<C, F> WorkerMsg<C, F> {
    /// Messages that wait behind this one are read at once.
    pub fn drains_queue(&self) -> (b: bool)
        ensures
            b <==> self is Compute,
    {
        match self {
            WorkerMsg::Compute(_) => true,
            WorkerMsg::LoadFile { .. } => false,
        }
    }

    /// The newest of this message and those that waited behind it.
    pub open spec fn latest(self, waiting: Seq<WorkerMsg<C, F>>) -> WorkerMsg<C, F> {
        if waiting.len() == 0 {
            self
        } else {
            waiting.last()
        }
    }

    /// What arrives last is what is done: whatever waits before it makes no difference, and
    /// a message behind which nothing waits is done itself.
    pub proof fn the_last_message_counts(
        self,
        waiting: Seq<WorkerMsg<C, F>>,
        last: WorkerMsg<C, F>,
    )
        ensures
            self.latest(waiting.push(last)) == last,
            self.latest(seq![]) == self,
            self.latest(waiting) == self || waiting.contains(self.latest(waiting)),
    {
        if waiting.len() > 0 {
            assert(waiting[waiting.len() - 1] == waiting.last());
        }
    }

    /// Of a computation and the messages that waited behind it, only the newest counts.
    pub fn newest(self, waiting: Vec<WorkerMsg<C, F>>) -> (m: WorkerMsg<C, F>)
        ensures
            m == self.latest(waiting@),
    {
        let mut waiting = waiting;
        match waiting.pop() {
            Some(last) => last,
            None => self,
        }
    }
}

impl<F> WorkerResult<F> {
    /// The answer to a request to load a file.
    pub fn of_load(r: Result<AudioFile<F>, AudioError>) -> (a: WorkerResult<F>)
        ensures
            r matches Ok(f) ==> a == WorkerResult::Loaded(f),
            r matches Err(e) ==> (a matches WorkerResult::Error(s) && s@ == e.text()),
    {
        match r {
            Ok(f) => WorkerResult::Loaded(f),
            Err(e) => WorkerResult::Error(e.message()),
        }
    }

    /// The answer to a request to compute a transform.
    pub fn of_compute(outcome: Outcome<F>) -> (a: WorkerResult<F>)
        ensures
            match outcome {
                Outcome::Finished(t) => a == (WorkerResult::Computed { channels: t.0, cross: t.1 }),
                Outcome::Failed(e) => a == WorkerResult::<F>::Error(e),
                Outcome::Aborted => a matches WorkerResult::Error(s) && s@
                    == "GPU compute failed — try fewer scales or a smaller window"@,
            },
    {
        match outcome {
            Outcome::Finished(t) => WorkerResult::Computed { channels: t.0, cross: t.1 },
            Outcome::Failed(e) => WorkerResult::Error(e),
            Outcome::Aborted => WorkerResult::Error(
                "GPU compute failed — try fewer scales or a smaller window".to_owned(),
            ),
        }
    }

    /// The answer where the device could not be set up.
    pub fn of_init_failure(why: &str) -> (a: WorkerResult<F>)
        ensures
            a matches WorkerResult::Error(s) && s@ == "GPU init: "@ + why@,
    {
        WorkerResult::Error("GPU init: ".to_owned().concat(why))
    }
}

} // verus!
