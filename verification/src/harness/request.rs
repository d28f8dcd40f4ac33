//! What is done to a request before it is sent.

use vstd::prelude::*;

verus! {

/// The injectors that change a request, in the order in which they do.
#[derive(Debug)]
pub struct RequestPipeline<I> {
    pub injectors: Vec<I>,
}

/// What comes next for a request.
#[derive(Debug, PartialEq, Eq)]
pub enum PipelineStep<E> {
    /// The injector at this place changes it.
    Run(usize),
    /// It is ready.
    Ready,
    /// It is not sent.
    Stop(E),
}

/// What comes next when the first `done` injectors have run and the last of them gave `result`:
/// the next one, up to the first that fails.
pub open spec fn next_step<E>(count: nat, done: int, result: Result<(), E>) -> PipelineStep<E> {
    match result {
        Err(error) => PipelineStep::Stop(error),
        Ok(_) => if done < count {
            PipelineStep::Run(done as usize)
        } else {
            PipelineStep::Ready
        },
    }
}

impl<I> Default for RequestPipeline<I> {
    fn default() -> (pipeline: RequestPipeline<I>)
        ensures
            pipeline.injectors@ == Seq::<I>::empty(),
    {
        RequestPipeline { injectors: Vec::new() }
    }
}

impl<I> RequestPipeline<I> {
    pub fn new(injectors: Vec<I>) -> (pipeline: RequestPipeline<I>)
        ensures
            pipeline.injectors == injectors,
    {
        RequestPipeline { injectors }
    }

    pub fn len(&self) -> (len: usize)
        ensures
            len == self.injectors@.len(),
    {
        self.injectors.len()
    }

    pub fn is_empty(&self) -> (empty: bool)
        ensures
            empty == (self.injectors@.len() == 0),
    {
        self.injectors.len() == 0
    }

    pub fn push(&mut self, injector: I)
        ensures
            final(self).injectors@ == old(self).injectors@.push(injector),
    {
        self.injectors.push(injector);
    }

    pub fn with_injector(self, injector: I) -> (pipeline: RequestPipeline<I>)
        ensures
            pipeline.injectors@ == self.injectors@.push(injector),
    {
        let mut pipeline = self;
        pipeline.push(injector);
        pipeline
    }

    /// What comes next when the first `done` injectors have run and the last of them gave
    /// `result`.
    pub fn prepare_request<E>(&self, done: usize, result: Result<(), E>) -> (step: PipelineStep<E>)
        ensures
            step == next_step(self.injectors@.len(), done as int, result),
    {
        match result {
            Err(error) => PipelineStep::Stop(error),
            Ok(_) => if done < self.injectors.len() {
                PipelineStep::Run(done)
            } else {
                PipelineStep::Ready
            },
        }
    }
}

/// The injectors that have run, in order, when each of the first `steps` succeeds.
pub open spec fn run_order(count: nat, steps: nat) -> Seq<int>
    decreases steps,
{
    if steps == 0 {
        Seq::empty()
    } else {
        let before = run_order(count, (steps - 1) as nat);
        match next_step::<()>(count, before.len() as int, Ok(())) {
            PipelineStep::Run(i) => before.push(i as int),
            _ => before,
        }
    }
}

/// Injectors run in their order, each once, as long as none fails.
pub proof fn law_injectors_run_in_order(count: nat, steps: nat)
    requires
        count <= usize::MAX,
    ensures
        run_order(count, steps).len() == if steps < count {
            steps
        } else {
            count
        },
        forall|i: int| 0 <= i < run_order(count, steps).len() ==> run_order(count, steps)[i] == i,
    decreases steps,
{
    if steps > 0 {
        law_injectors_run_in_order(count, (steps - 1) as nat);
    }
}

/// After an injector fails none runs any more.
pub proof fn law_failure_stops<E>(count: nat, done: int, error: E)
    ensures
        next_step(count, done, Err(error)) == PipelineStep::Stop(error),
{
}

} // verus!
