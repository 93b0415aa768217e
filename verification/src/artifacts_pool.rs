//! The artifact pool: for each distinct failure of the test function, the
//! least complex inputs known to reproduce it.
//!
//! A complexity is a whole number of ten-thousandths: callers round to four
//! decimals before they hand a complexity to the pool.

use crate::decimal::{decimal, fixed_point, format_complexity, format_decimal};
use crate::either::Either;
use crate::pool_model::{
    admit_at, group_with_id, in_last_bucket, index_of_new_input, input_at,
    lemma_admission_keeps_well_formed, lemma_group_with_id, lemma_new_input_is_at_its_index,
    lemma_with_inputs_keeps_well_formed, other_group_has_display, position_of_new_input,
    representable, valid_index, well_formed, with_data, with_inputs, ComplexityBucket, ErrorGroup,
    Input, PositionOfNewInput, NBR_ARTIFACTS_PER_ERROR_AND_CPLX,
};
use crate::random::{new_rng, random_below};
use crate::sensor_and_pool::{CompatibleWithSensor, CorpusDelta, MinifyError, Pool, Sensor};
use vstd::prelude::*;
use vstd::string::StringExecFns;

verus! {

/// A failure of the test function.
#[derive(Debug, Clone)]
pub struct TestFailure {
    /// What a reader is shown of the failure.
    pub display: String,
    /// The identifier of the failure: two failures are the same when their
    /// identifiers are equal.
    pub id: u64,
}

/// Statistics of the artifact pool. There are none.
#[derive(Clone, Copy, Debug, PartialEq, Eq, Structural)]
pub struct Stats {}

/// Whether `delta` reports that an input was put at `position` for the
/// failure `id` at `complexity`, in the pool called `name` with the groups
/// `groups`, and that none was removed.
pub open spec fn reports_admission<T>(
    delta: CorpusDelta<(usize, usize, usize)>,
    name: Seq<char>,
    groups: Seq<ErrorGroup<T>>,
    position: PositionOfNewInput,
    id: u64,
    complexity: u64,
) -> bool {
    &&& segments(delta.path@) == delta_path(name, id, complexity)
    &&& delta.add == Some(index_of_new_input(groups, position))
    &&& delta.remove@.len() == 0
}

/// The input that `reference` refers to: an input of `groups`, or one from
/// elsewhere.
pub open spec fn referenced_input<T>(
    groups: Seq<ErrorGroup<T>>,
    reference: Either<(usize, usize, usize), &T>,
) -> T {
    match reference {
        Either::Left(idx) => input_at(groups, idx).data,
        Either::Right(data) => *data,
    }
}

/// The path segments of a change for the failure `id` at `complexity` in the
/// pool called `name`: the name, the identifier in decimal notation, and the
/// complexity with four decimals.
pub open spec fn delta_path(name: Seq<char>, id: u64, complexity: u64) -> Seq<Seq<char>> {
    seq![name, decimal(id as nat), fixed_point(complexity as nat)]
}

/// The segments of `path`, each as the characters it holds.
pub open spec fn segments(path: Seq<String>) -> Seq<Seq<char>> {
    Seq::new(path.len(), |i: int| path[i]@)
}

impl Stats {
    /// What a reader is shown of the statistics: nothing.
    pub fn to_string(&self) -> (text: String)
        ensures
            text@ == Seq::<char>::empty(),
    {
        String::new()
    }
}

/// The sensor that holds the failure, if any, of the last run of the test
/// function.
///
/// A failing test function leaves its failure in the sensor while the run
/// goes on; the sensor shows it once the recording has stopped.
pub struct TestFailureSensor {
    error: Option<TestFailure>,
    pending: Option<TestFailure>,
}

impl TestFailureSensor {
    /// The failure that the sensor shows: that of the last run, once its
    /// recording has stopped.
    pub closed spec fn observation(&self) -> Option<TestFailure> {
        self.error
    }

    /// The failure that the test function has left since the recording
    /// started.
    pub closed spec fn pending(&self) -> Option<TestFailure> {
        self.pending
    }

    /// A sensor that holds no failure.
    pub fn new() -> (sensor: TestFailureSensor)
        ensures
            sensor.observation().is_none(),
            sensor.pending().is_none(),
    {
        TestFailureSensor { error: None, pending: None }
    }

    /// Leaves `failure` in the sensor, in place of any that was left before.
    pub fn record_failure(&mut self, failure: TestFailure)
        ensures
            final(self).pending() == Some(failure),
            final(self).observation() == old(self).observation(),
    {
        self.pending = Some(failure);
    }
}

impl Sensor for TestFailureSensor {
    type Observations = Option<TestFailure>;

    open spec fn wf(&self) -> bool {
        true
    }

    /// Forgets the failure of the last run and any that was left since.
    fn start_recording(&mut self)
        ensures
            final(self).observation().is_none(),
            final(self).pending().is_none(),
    {
        self.error = None;
        self.pending = None;
    }

    /// Takes up the failure that the test function has left, if any.
    fn stop_recording(&mut self)
        ensures
            final(self).observation() == old(self).pending(),
            final(self).pending().is_none(),
    {
        self.error = self.pending.take();
    }

    /// Hands out the failure that the sensor shows, if any, and shows none
    /// after that.
    fn iterate_over_observations(&mut self) -> (observations: Option<TestFailure>)
        ensures
            observations == old(self).observation(),
            final(self).observation().is_none(),
            final(self).pending() == old(self).pending(),
    {
        self.error.take()
    }
}

impl Default for TestFailureSensor {
    fn default() -> (sensor: TestFailureSensor)
        ensures
            sensor.observation().is_none(),
            sensor.pending().is_none(),
    {
        TestFailureSensor::new()
    }
}

struct ArtifactListForError<T> {
    cplx: u64,
    inputs: Vec<Input<T>>,
}

impl<T> View for ArtifactListForError<T> {
    type V = ComplexityBucket<T>;

    closed spec fn view(&self) -> ComplexityBucket<T> {
        ComplexityBucket { cplx: self.cplx, inputs: self.inputs@ }
    }
}

struct ArtifactList<T> {
    error: TestFailure,
    inputs: Vec<ArtifactListForError<T>>,
}

impl<T> View for ArtifactList<T> {
    type V = ErrorGroup<T>;

    closed spec fn view(&self) -> ErrorGroup<T> {
        ErrorGroup {
            id: self.error.id,
            display: self.error.display@,
            buckets: self.inputs@.map_values(|bucket: ArtifactListForError<T>| bucket@),
        }
    }
}

/// The pool of inputs that make the test function fail.
pub struct ArtifactsPool<T> {
    name: String,
    inputs: Vec<ArtifactList<T>>,
    stats: Stats,
    rng: fastrand::Rng,
}

impl<T> View for ArtifactsPool<T> {
    type V = Seq<ErrorGroup<T>>;

    closed spec fn view(&self) -> Seq<ErrorGroup<T>> {
        self.inputs@.map_values(|list: ArtifactList<T>| list@)
    }
}

impl<T> ArtifactsPool<T> {
    /// The name of the pool.
    pub closed spec fn name(&self) -> Seq<char> {
        self.name@
    }

    /// The groups of a pool are representable.
    pub proof fn lemma_representable(&self)
        ensures
            representable(self@),
    {
        assert(self.inputs.len() == self.inputs@.len());
        assert forall|g: int| 0 <= g < self@.len() implies (#[trigger] self@[g]).buckets.len()
            <= usize::MAX by {
            let list = self.inputs@[g];
            assert(list.inputs.len() == list.inputs@.len());
        }
    }

    /// An empty pool called `name`. The argument `size` is reserved: the pool
    /// sets no bound on the number of inputs it holds in all.
    pub fn new(name: &str, size: usize) -> (pool: ArtifactsPool<T>)
        ensures
            pool.wf(),
            pool@ == Seq::<ErrorGroup<T>>::empty(),
            pool.name() == name@,
    {
        let pool = ArtifactsPool {
            name: String::from_str(name),
            inputs: Vec::new(),
            stats: Stats {  },
            rng: new_rng(),
        };
        assert(pool@ =~= Seq::<ErrorGroup<T>>::empty());
        pool
    }

    /// Whether `idx` names an input of the pool.
    pub fn is_valid_index(&self, idx: (usize, usize, usize)) -> (valid: bool)
        ensures
            valid == valid_index(self@, idx),
    {
        if idx.0 >= self.inputs.len() {
            return false;
        }
        let list = &self.inputs[idx.0];
        assert(list@ == self@[idx.0 as int]);
        if idx.1 >= list.inputs.len() {
            return false;
        }
        let bucket = &list.inputs[idx.1];
        assert(bucket@ == list@.buckets[idx.1 as int]);
        idx.2 < bucket.inputs.len()
    }

    /// The index of the group for the failure `id`, if there is one.
    fn find_group(&self, id: u64) -> (found: Option<usize>)
        ensures
            match found {
                Some(g) => group_with_id(self@, id) == Some(g as int),
                None => group_with_id(self@, id).is_none(),
            },
    {
        let mut i: usize = 0;
        while i < self.inputs.len()
            invariant
                i <= self.inputs@.len(),
                forall|h: int| 0 <= h < i ==> (#[trigger] self@[h]).id != id,
            decreases self.inputs@.len() - i,
        {
            if self.inputs[i].error.id == id {
                proof {
                    lemma_group_with_id(self@, id);
                    assert(self@[i as int].id == id);
                }
                return Some(i);
            }
            assert(self@[i as int].id != id);
            i += 1;
        }
        proof {
            lemma_group_with_id(self@, id);
        }
        None
    }

    /// Whether a group other than the one at `g` shows its failure as
    /// `display`.
    fn other_group_shows(&self, g: usize, display: &String) -> (found: bool)
        ensures
            found == other_group_has_display(self@, g as int, display@),
    {
        let mut h: usize = 0;
        while h < self.inputs.len()
            invariant
                h <= self.inputs@.len(),
                forall|k: int| 0 <= k < h && k != g ==> (#[trigger] self@[k]).display != display@,
            decreases self.inputs@.len() - h,
        {
            if h != g && self.inputs[h].error.display == *display {
                assert(self@[h as int].display == display@);
                return true;
            }
            assert(h != g ==> self@[h as int].display != display@);
            h += 1;
        }
        false
    }

    /// Where an input of the given complexity that reproduces `error` is put,
    /// or `None` if the pool does not admit it.
    pub fn classify(&self, error: &TestFailure, complexity: u64) -> (position: Option<
        PositionOfNewInput,
    >)
        requires
            self.wf(),
        ensures
            position == position_of_new_input(self@, error.id, error.display@, complexity),
    {
        match self.find_group(error.id) {
            None => Some(PositionOfNewInput::NewError),
            Some(list_index) => {
                proof {
                    lemma_group_with_id(self@, error.id);
                }
                let list = &self.inputs[list_index];
                assert(list@ == self@[list_index as int]);
                let n: usize = list.inputs.len();
                if n == 0 {
                    Some(PositionOfNewInput::ExistingErrorNewCplx(list_index))
                } else {
                    let least_complex = &list.inputs[n - 1];
                    assert(least_complex@ == list@.buckets.last());
                    if least_complex.cplx > complexity {
                        Some(PositionOfNewInput::ExistingErrorNewCplx(list_index))
                    } else if least_complex.cplx == complexity {
                        if least_complex.inputs.len() < NBR_ARTIFACTS_PER_ERROR_AND_CPLX
                            && !self.other_group_shows(list_index, &error.display) {
                            Some(PositionOfNewInput::ExistingErrorAndCplx(list_index))
                        } else {
                            None
                        }
                    } else {
                        None
                    }
                }
            },
        }
    }

    /// Puts `data` at `position`, which is where the pool admits an input of
    /// this complexity for `error`, and reports the change.
    pub fn insert_new_input(
        &mut self,
        position: PositionOfNewInput,
        error: TestFailure,
        complexity: u64,
        data: T,
    ) -> (delta: CorpusDelta<(usize, usize, usize)>)
        requires
            old(self).wf(),
            position_of_new_input(old(self)@, error.id, error.display@, complexity) == Some(
                position,
            ),
        ensures
            final(self).wf(),
            final(self).name() == old(self).name(),
            final(self)@ == admit_at(
                old(self)@,
                position,
                error.id,
                error.display@,
                complexity,
                (Input { generation: 0, data }),
            ),
            reports_admission(
                delta,
                old(self).name(),
                old(self)@,
                position,
                error.id,
                complexity,
            ),
    {
        proof {
            self.lemma_representable();
            lemma_group_with_id(self@, error.id);
            lemma_admission_keeps_well_formed(
                self@,
                position,
                error.id,
                error.display@,
                complexity,
                Input { generation: 0, data },
            );
        }
        let ghost before = self@;
        let ghost after = admit_at(
            before,
            position,
            error.id,
            error.display@,
            complexity,
            Input { generation: 0, data },
        );
        let mut path: Vec<String> = Vec::new();
        path.push(self.name.clone());
        path.push(format_decimal(error.id));
        path.push(format_complexity(complexity));
        assert(segments(path@) =~= delta_path(self.name(), error.id, complexity));
        let input = Input { generation: 0, data };
        let new_index: (usize, usize, usize) = match position {
            PositionOfNewInput::NewError => {
                let mut inputs: Vec<Input<T>> = Vec::new();
                inputs.push(input);
                let mut buckets: Vec<ArtifactListForError<T>> = Vec::new();
                buckets.push(ArtifactListForError { cplx: complexity, inputs });
                let list = ArtifactList { error, inputs: buckets };
                assert(list@.buckets =~= seq![
                    ComplexityBucket { cplx: complexity, inputs: seq![input] },
                ]);
                self.inputs.push(list);
                assert(self@ =~= after);
                (self.inputs.len() - 1, 0, 0)
            },
            PositionOfNewInput::ExistingErrorNewCplx(error_idx) => {
                let mut inputs: Vec<Input<T>> = Vec::new();
                inputs.push(input);
                let bucket = ArtifactListForError { cplx: complexity, inputs };
                assert(bucket@ == ComplexityBucket { cplx: complexity, inputs: seq![input] });
                self.inputs[error_idx].inputs.push(bucket);
                assert(self@[error_idx as int].buckets =~= before[error_idx as int].buckets.push(
                    bucket@,
                ));
                assert(self@ =~= after);
                (error_idx, self.inputs[error_idx].inputs.len() - 1, 0)
            },
            PositionOfNewInput::ExistingErrorAndCplx(error_idx) => {
                let last: usize = self.inputs[error_idx].inputs.len() - 1;
                self.inputs[error_idx].inputs[last].inputs.push(input);
                assert(self@[error_idx as int].buckets =~= after[error_idx as int].buckets);
                assert(self@ =~= after);
                (error_idx, last, self.inputs[error_idx].inputs[last].inputs.len() - 1)
            },
        };
        CorpusDelta { path, add: Some(new_index), remove: Vec::new() }
    }

    /// The index of the input at `input_choice` in the least complex bucket of
    /// the group at `error_choice`, or `None` if there is no such input.
    pub fn least_complex_index(&self, error_choice: usize, input_choice: usize) -> (idx: Option<
        (usize, usize, usize),
    >)
        ensures
            match idx {
                Some(idx) => idx.0 == error_choice && idx.2 == input_choice && in_last_bucket(
                    self@,
                    idx,
                ),
                None => error_choice >= self@.len() || self@[error_choice as int].buckets.len() == 0
                    || input_choice >= self@[error_choice as int].buckets.last().inputs.len(),
            },
    {
        if error_choice >= self.inputs.len() {
            return None;
        }
        let list_for_error = &self.inputs[error_choice];
        assert(list_for_error@ == self@[error_choice as int]);
        if list_for_error.inputs.len() == 0 {
            return None;
        }
        let complexity_choice: usize = list_for_error.inputs.len() - 1;
        let least_complexity = &list_for_error.inputs[complexity_choice];
        assert(least_complexity@ == list_for_error@.buckets.last());
        if input_choice >= least_complexity.inputs.len() {
            return None;
        }
        Some((error_choice, complexity_choice, input_choice))
    }

    /// The number of inputs in the least complex bucket of the group at
    /// `error_choice`.
    fn least_complex_len(&self, error_choice: usize) -> (len: usize)
        requires
            error_choice < self@.len(),
        ensures
            len == if self@[error_choice as int].buckets.len() == 0 {
                0
            } else {
                self@[error_choice as int].buckets.last().inputs.len()
            },
    {
        let list_for_error = &self.inputs[error_choice];
        assert(list_for_error@ == self@[error_choice as int]);
        if list_for_error.inputs.len() == 0 {
            return 0;
        }
        let least_complexity = &list_for_error.inputs[list_for_error.inputs.len() - 1];
        assert(least_complexity@ == list_for_error@.buckets.last());
        least_complexity.inputs.len()
    }

}

impl<T> Pool for ArtifactsPool<T> {
    type TestCase = T;

    type Index = (usize, usize, usize);

    type Stats = Stats;

    /// The groups of the pool are well-formed.
    open spec fn wf(&self) -> bool {
        well_formed(self@)
    }

    /// The number of groups.
    open spec fn size(&self) -> nat {
        self@.len()
    }

    open spec fn valid(&self, idx: (usize, usize, usize)) -> bool {
        valid_index(self@, idx)
    }

    open spec fn input(&self, idx: (usize, usize, usize)) -> T {
        input_at(self@, idx).data
    }

    open spec fn generation(&self, idx: (usize, usize, usize)) -> usize {
        input_at(self@, idx).generation
    }

    /// The statistics of the pool.
    fn stats(&self) -> (stats: Stats)
        ensures
            stats == (Stats {  }),
    {
        self.stats
    }

    /// The number of groups: of distinct failures that the pool holds inputs
    /// for.
    fn len(&self) -> (len: usize)
        ensures
            len == self@.len(),
    {
        self.inputs.len()
    }

    /// The index of an input drawn at random: a group is drawn, and then an
    /// input of the least complex bucket of that group. There is none if the
    /// pool is empty or that bucket is.
    fn get_random_index(&mut self) -> (idx: Option<(usize, usize, usize)>)
        ensures
            final(self)@ == old(self)@,
            final(self).name() == old(self).name(),
            match idx {
                Some(idx) => in_last_bucket(old(self)@, idx),
                None => old(self)@.len() == 0 || exists|g: int|
                    0 <= g < old(self)@.len() && ((#[trigger] old(self)@[g]).buckets.len() == 0
                        || old(self)@[g].buckets.last().inputs.len() == 0),
            },
    {
        if self.inputs.len() == 0 {
            return None;
        }
        let error_choice: usize = random_below(&self.rng, self.inputs.len());
        let len: usize = self.least_complex_len(error_choice);
        if len == 0 {
            return None;
        }
        let input_choice: usize = random_below(&self.rng, len);
        self.least_complex_index(error_choice, input_choice)
    }

    /// The input at `idx`.
    fn get(&self, idx: (usize, usize, usize)) -> (data: &T) {
        &self.inputs[idx.0].inputs[idx.1].inputs[idx.2].data
    }

    /// The input at `idx`, to be changed in place.
    fn get_mut(&mut self, idx: (usize, usize, usize)) -> (data: &mut T)
        ensures
            final(self)@ == with_data(old(self)@, idx, *final(data)),
            final(self).name() == old(self).name(),
    {
        let ghost before = self@;
        let data = &mut self.inputs[idx.0].inputs[idx.1].inputs[idx.2].data;
        proof {
            let after = with_data(before, idx, *final(data));
            if well_formed(before) {
                lemma_with_inputs_keeps_well_formed(
                    before,
                    idx.0 as int,
                    idx.1 as int,
                    before[idx.0 as int].buckets[idx.1 as int].inputs.update(
                        idx.2 as int,
                        Input { data: *final(data), ..input_at(before, idx) },
                    ),
                );
            }
            assert(after_borrow(self)@[idx.0 as int].buckets[idx.1 as int].inputs
                =~= after[idx.0 as int].buckets[idx.1 as int].inputs);
            assert(after_borrow(self)@[idx.0 as int].buckets =~= after[idx.0 as int].buckets);
            assert(after_borrow(self)@ =~= after);
        }
        data
    }

    /// The input at `idx`, to be changed in place, if `idx` still names an
    /// input and that input is of the given generation.
    fn retrieve_after_processing(
        &mut self,
        idx: (usize, usize, usize),
        generation: usize,
    ) -> (data: Option<&mut T>)
        ensures
            final(self).name() == old(self).name(),
            match data {
                Some(data) => final(self)@ == with_data(old(self)@, idx, *final(data)),
                None => final(self)@ == old(self)@,
            },
    {
        if idx.0 >= self.inputs.len() {
            return None;
        }
        assert(self.inputs@[idx.0 as int]@ == self@[idx.0 as int]);
        if idx.1 >= self.inputs[idx.0].inputs.len() {
            return None;
        }
        assert(self.inputs@[idx.0 as int].inputs@[idx.1 as int]@
            == self@[idx.0 as int].buckets[idx.1 as int]);
        if idx.2 >= self.inputs[idx.0].inputs[idx.1].inputs.len() {
            return None;
        }
        if self.inputs[idx.0].inputs[idx.1].inputs[idx.2].generation != generation {
            return None;
        }
        Some(self.get_mut(idx))
    }

    /// Removes the input at `idx`. The inputs that followed it in its bucket
    /// move up by one; no bucket and no group is removed.
    fn mark_test_case_as_dead_end(&mut self, idx: (usize, usize, usize))
        ensures
            final(self)@ == with_inputs(
                old(self)@,
                idx.0 as int,
                idx.1 as int,
                old(self)@[idx.0 as int].buckets[idx.1 as int].inputs.remove(idx.2 as int),
            ),
            final(self).name() == old(self).name(),
    {
        let ghost before = self@;
        let _ = self.inputs[idx.0].inputs[idx.1].inputs.remove(idx.2);
        proof {
            let after = with_inputs(
                before,
                idx.0 as int,
                idx.1 as int,
                before[idx.0 as int].buckets[idx.1 as int].inputs.remove(idx.2 as int),
            );
            assert(self@[idx.0 as int].buckets =~= after[idx.0 as int].buckets);
            assert(self@ =~= after);
            if well_formed(before) {
                lemma_with_inputs_keeps_well_formed(
                    before,
                    idx.0 as int,
                    idx.1 as int,
                    before[idx.0 as int].buckets[idx.1 as int].inputs.remove(idx.2 as int),
                );
            }
        }
    }
}

impl<T> CompatibleWithSensor<TestFailureSensor> for ArtifactsPool<T> {
    /// Offers the pool an input of the given complexity as a reproducer of the
    /// failure that `sensor` holds, and takes that failure from the sensor.
    ///
    /// If the sensor holds no failure, or the pool does not admit the input,
    /// nothing changes and there is no delta. Otherwise the pool keeps a copy
    /// of the input, made by `clone_input`, with generation zero, and the
    /// delta reports where.
    fn process<F: Fn(&T) -> T>(
        &mut self,
        sensor: &mut TestFailureSensor,
        get_input_ref: Either<(usize, usize, usize), &T>,
        clone_input: &F,
        complexity: u64,
    ) -> (delta: Option<CorpusDelta<(usize, usize, usize)>>)
        ensures
            final(self).name() == old(self).name(),
            final(sensor).observation().is_none(),
            final(sensor).pending() == old(sensor).pending(),
            match old(sensor).observation() {
                None => delta.is_none() && final(self)@ == old(self)@,
                Some(error) => match position_of_new_input(
                    old(self)@,
                    error.id,
                    error.display@,
                    complexity,
                ) {
                    None => delta.is_none() && final(self)@ == old(self)@,
                    Some(position) => {
                        let idx = index_of_new_input(old(self)@, position);
                        &&& delta.is_some()
                        &&& reports_admission(
                            delta.unwrap(),
                            old(self).name(),
                            old(self)@,
                            position,
                            error.id,
                            complexity,
                        )
                        &&& valid_index(final(self)@, idx)
                        &&& input_at(final(self)@, idx).generation == 0
                        &&& call_ensures(
                            *clone_input,
                            (&referenced_input(old(self)@, get_input_ref),),
                            input_at(final(self)@, idx).data,
                        )
                        &&& final(self)@ == admit_at(
                            old(self)@,
                            position,
                            error.id,
                            error.display@,
                            complexity,
                            input_at(final(self)@, idx),
                        )
                    },
                },
            },
    {
        let error: Option<TestFailure> = sensor.iterate_over_observations();
        match error {
            None => None,
            Some(error) => {
                match self.classify(&error, complexity) {
                    None => None,
                    Some(position) => {
                        let data: T = match get_input_ref {
                            Either::Left(x) => clone_input(self.get(x)),
                            Either::Right(x) => clone_input(x),
                        };
                        proof {
                            self.lemma_representable();
                            lemma_new_input_is_at_its_index(
                                self@,
                                position,
                                error.id,
                                error.display@,
                                complexity,
                                Input { generation: 0, data },
                            );
                        }
                        let delta = self.insert_new_input(position, error, complexity, data);
                        Some(delta)
                    },
                }
            },
        }
    }

    /// Makes the pool smaller. The pool does not know how to: it reports so
    /// and changes nothing.
    fn minify(&mut self, sensor: &mut TestFailureSensor, target_len: usize) -> (result: Result<
        (),
        MinifyError,
    >)
        ensures
            result == Err::<(), MinifyError>(MinifyError::NotImplemented),
            final(self)@ == old(self)@,
            final(self).name() == old(self).name(),
            final(sensor).observation() == old(sensor).observation(),
            final(sensor).pending() == old(sensor).pending(),
    {
        Err(MinifyError::NotImplemented)
    }
}

} // verus!
