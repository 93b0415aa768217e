//! What the driver asks of a sensor, of a pool, and of a pool that is fed by a
//! sensor.
//!
//! In each iteration the driver starts the sensors, runs the test function on
//! an input, stops the sensors, and offers the input to each pool together
//! with the sensor that the pool understands.

use crate::either::Either;
use vstd::prelude::*;

verus! {

/// A change of a pool's corpus.
pub struct CorpusDelta<Idx> {
    /// The place of the change, one path segment after the other.
    pub path: Vec<String>,
    /// The index of the input that was added, if one was.
    pub add: Option<Idx>,
    /// The indices of the inputs that were removed.
    pub remove: Vec<Idx>,
}

/// Why a pool could not be made smaller.
#[derive(Clone, Copy, Debug, PartialEq, Eq, Structural)]
pub enum MinifyError {
    /// The pool does not know how to give up inputs.
    NotImplemented,
}

/// Something that observes one run of the test function.
pub trait Sensor {
    /// What the sensor hands out of a run.
    type Observations;

    /// What holds of the sensor at all times.
    spec fn wf(&self) -> bool;

    /// Forgets what was observed and starts to observe.
    fn start_recording(&mut self)
        requires
            old(self).wf(),
        ensures
            final(self).wf(),
    ;

    /// Stops observing.
    fn stop_recording(&mut self)
        requires
            old(self).wf(),
        ensures
            final(self).wf(),
    ;

    /// Hands out what was observed.
    fn iterate_over_observations(&mut self) -> (observations: Self::Observations)
        requires
            old(self).wf(),
        ensures
            final(self).wf(),
    ;
}

/// A collection of inputs worth keeping, each under an index.
pub trait Pool {
    /// An input.
    type TestCase;

    /// What names an input of the pool.
    type Index;

    /// What the pool tells of itself.
    type Stats;

    /// What holds of the pool at all times.
    spec fn wf(&self) -> bool;

    /// The size of the pool.
    spec fn size(&self) -> nat;

    /// Whether `idx` names an input of the pool.
    spec fn valid(&self, idx: Self::Index) -> bool;

    /// The input that `idx` names.
    spec fn input(&self, idx: Self::Index) -> Self::TestCase;

    /// The generation of the input that `idx` names.
    spec fn generation(&self, idx: Self::Index) -> usize;

    /// What the pool tells of itself.
    fn stats(&self) -> Self::Stats;

    /// The size of the pool.
    fn len(&self) -> (len: usize)
        ensures
            len == self.size(),
    ;

    /// The index of an input drawn at random, if the pool can draw one.
    fn get_random_index(&mut self) -> (idx: Option<Self::Index>)
        requires
            old(self).wf(),
        ensures
            final(self).wf(),
            idx matches Some(i) ==> final(self).valid(i),
    ;

    /// The input at `idx`.
    fn get(&self, idx: Self::Index) -> (data: &Self::TestCase)
        requires
            self.valid(idx),
        ensures
            *data == self.input(idx),
    ;

    /// The input at `idx`, to be changed in place.
    fn get_mut(&mut self, idx: Self::Index) -> (data: &mut Self::TestCase)
        requires
            old(self).valid(idx),
        ensures
            *data == old(self).input(idx),
            old(self).wf() ==> final(self).wf(),
    ;

    /// The input at `idx`, to be changed in place, if `idx` still names an
    /// input and that input is of the given generation.
    fn retrieve_after_processing(&mut self, idx: Self::Index, generation: usize) -> (data: Option<
        &mut Self::TestCase,
    >)
        ensures
            old(self).wf() ==> final(self).wf(),
            match data {
                Some(data) => old(self).valid(idx) && old(self).generation(idx) == generation
                    && *data == old(self).input(idx),
                None => !(old(self).valid(idx) && old(self).generation(idx) == generation),
            },
    ;

    /// Removes the input at `idx`, from which nothing more is to be had.
    fn mark_test_case_as_dead_end(&mut self, idx: Self::Index)
        requires
            old(self).valid(idx),
        ensures
            old(self).wf() ==> final(self).wf(),
    ;
}

/// A pool that decides by the observations of the sensor `S` which inputs it
/// keeps.
pub trait CompatibleWithSensor<S: Sensor>: Pool {
    /// Offers the pool an input of the given complexity, together with the
    /// sensor that observed the run of the test function on it. The input is
    /// one of the pool, named by its index, or one from elsewhere. If the pool
    /// keeps the input, it keeps a copy made by `clone_input`, and says in the
    /// delta what changed.
    fn process<F: Fn(&Self::TestCase) -> Self::TestCase>(
        &mut self,
        sensor: &mut S,
        get_input_ref: Either<Self::Index, &Self::TestCase>,
        clone_input: &F,
        complexity: u64,
    ) -> (delta: Option<CorpusDelta<Self::Index>>)
        requires
            old(self).wf(),
            old(sensor).wf(),
            match get_input_ref {
                Either::Left(idx) => old(self).valid(idx) && call_requires(
                    *clone_input,
                    (&old(self).input(idx),),
                ),
                Either::Right(data) => call_requires(*clone_input, (data,)),
            },
        ensures
            final(self).wf(),
            final(sensor).wf(),
    ;

    /// Asks the pool to give up inputs until its size is `target_len`.
    fn minify(&mut self, sensor: &mut S, target_len: usize) -> (result: Result<(), MinifyError>)
        requires
            old(self).wf(),
            old(sensor).wf(),
        ensures
            final(self).wf(),
            final(sensor).wf(),
    ;
}

} // verus!
