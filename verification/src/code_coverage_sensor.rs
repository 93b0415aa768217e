//! The coverage sensor: it holds what the instrumented program reports during
//! one run of the test function, and turns it into features.

use crate::feature::{
    compare_key_u16, compare_key_u32, compare_key_u64, compare_key_u8, edge_key, instr_key,
    Feature, InstrFeatureWithoutTag,
};
use crate::hbitset::{keys_below, HBitSet, SIZE};
use crate::sensor_and_pool::Sensor;
use vstd::prelude::*;
use vstd::slice::slice_to_vec;

verus! {

/// Number of edge counters that are looked at together: a chunk in which every
/// counter is zero is passed over at once.
pub const CHUNK_SIZE: usize = 32;

/// The edge features of the counters that are not zero, by increasing index.
pub open spec fn edge_features(counters: Seq<u8>) -> Seq<Feature>
    decreases counters.len(),
{
    if counters.len() == 0 {
        Seq::empty()
    } else {
        let rest = edge_features(counters.drop_last());
        if counters.last() != 0 {
            rest.push(Feature(edge_key((counters.len() - 1) as usize, counters.last())))
        } else {
            rest
        }
    }
}

/// The compare features of the recorded keys, in the order of the keys.
pub open spec fn instr_features(keys: Seq<usize>) -> Seq<Feature> {
    Seq::new(keys.len(), |i: int| Feature(instr_key(keys[i])))
}

/// Whether the counters from `from` up to `to` are all zero.
pub open spec fn all_zero(counters: Seq<u8>, from: int, to: int) -> bool {
    forall|k: int| from <= k < to ==> counters[k] == 0
}

proof fn lemma_edge_features_step(counters: Seq<u8>, n: int)
    requires
        0 <= n < counters.len(),
    ensures
        edge_features(counters.take(n + 1)) == if counters[n] != 0 {
            edge_features(counters.take(n)).push(Feature(edge_key(n as usize, counters[n])))
        } else {
            edge_features(counters.take(n))
        },
{
    assert(counters.take(n + 1).drop_last() =~= counters.take(n));
}

proof fn lemma_edge_features_skip(counters: Seq<u8>, from: int, to: int)
    requires
        0 <= from <= to <= counters.len(),
        all_zero(counters, from, to),
    ensures
        edge_features(counters.take(to)) == edge_features(counters.take(from)),
    decreases to - from,
{
    if from < to {
        lemma_edge_features_skip(counters, from, to - 1);
        lemma_edge_features_step(counters, to - 1);
    }
}

/// Records the code coverage of the program under test and converts it into
/// features.
pub struct CodeCoverageSensor {
    /// Whether the hooks record what they are told.
    pub is_recording: bool,
    eight_bit_counters: Vec<u8>,
    features: HBitSet,
}

impl CodeCoverageSensor {
    /// Whether the hooks record what they are told: the field `is_recording`.
    pub closed spec fn recording(&self) -> bool {
        self.is_recording
    }

    /// The edge counters, one for each instrumented edge.
    pub closed spec fn counters(&self) -> Seq<u8> {
        self.eight_bit_counters@
    }

    /// The keys of the comparisons recorded so far.
    pub closed spec fn compare_keys(&self) -> Set<usize> {
        self.features@
    }

    /// A sensor over the given edge counters, which records nothing yet.
    pub fn new(eight_bit_counters: Vec<u8>) -> (sensor: CodeCoverageSensor)
        ensures
            sensor.wf(),
            !sensor.recording(),
            sensor.counters() == eight_bit_counters@,
            sensor.compare_keys() == Set::<usize>::empty(),
    {
        CodeCoverageSensor { is_recording: false, eight_bit_counters, features: HBitSet::new() }
    }

    /// Replaces the edge counters by a copy of `counters`: what the
    /// instrumented program has counted since the recording started.
    pub fn load_counters(&mut self, counters: &[u8])
        requires
            old(self).wf(),
        ensures
            final(self).wf(),
            final(self).counters() == counters@,
            final(self).compare_keys() == old(self).compare_keys(),
            final(self).recording() == old(self).recording(),
    {
        self.eight_bit_counters = slice_to_vec(counters);
    }

    fn record_comparison(&mut self, pc: usize, arg1: u64, arg2: u64)
        requires
            old(self).wf(),
        ensures
            final(self).wf(),
            final(self).recording() == old(self).recording(),
            final(self).counters() == old(self).counters(),
            final(self).compare_keys() == if old(self).recording() {
                old(self).compare_keys().insert(compare_key_u64(pc, arg1, arg2))
            } else {
                old(self).compare_keys()
            },
    {
        if self.is_recording {
            let key = InstrFeatureWithoutTag::from_comparison(pc, arg1, arg2);
            self.features.set(key.0);
        }
    }

    /// Records a comparison of two bytes at `pc`, if the sensor is recording.
    pub fn handle_trace_cmp_u8(&mut self, pc: usize, arg1: u8, arg2: u8)
        requires
            old(self).wf(),
        ensures
            final(self).wf(),
            final(self).recording() == old(self).recording(),
            final(self).counters() == old(self).counters(),
            final(self).compare_keys() == if old(self).recording() {
                old(self).compare_keys().insert(compare_key_u8(pc, arg1, arg2))
            } else {
                old(self).compare_keys()
            },
    {
        self.record_comparison(pc, u64::from(arg1), u64::from(arg2));
    }

    /// Records a comparison of two 16-bit values at `pc`, if the sensor is
    /// recording.
    pub fn handle_trace_cmp_u16(&mut self, pc: usize, arg1: u16, arg2: u16)
        requires
            old(self).wf(),
        ensures
            final(self).wf(),
            final(self).recording() == old(self).recording(),
            final(self).counters() == old(self).counters(),
            final(self).compare_keys() == if old(self).recording() {
                old(self).compare_keys().insert(compare_key_u16(pc, arg1, arg2))
            } else {
                old(self).compare_keys()
            },
    {
        self.record_comparison(pc, u64::from(arg1), u64::from(arg2));
    }

    /// Records a comparison of two 32-bit values at `pc`, if the sensor is
    /// recording.
    pub fn handle_trace_cmp_u32(&mut self, pc: usize, arg1: u32, arg2: u32)
        requires
            old(self).wf(),
        ensures
            final(self).wf(),
            final(self).recording() == old(self).recording(),
            final(self).counters() == old(self).counters(),
            final(self).compare_keys() == if old(self).recording() {
                old(self).compare_keys().insert(compare_key_u32(pc, arg1, arg2))
            } else {
                old(self).compare_keys()
            },
    {
        self.record_comparison(pc, u64::from(arg1), u64::from(arg2));
    }

    /// Records a comparison of two 64-bit values at `pc`, if the sensor is
    /// recording.
    pub fn handle_trace_cmp_u64(&mut self, pc: usize, arg1: u64, arg2: u64)
        requires
            old(self).wf(),
        ensures
            final(self).wf(),
            final(self).recording() == old(self).recording(),
            final(self).counters() == old(self).counters(),
            final(self).compare_keys() == if old(self).recording() {
                old(self).compare_keys().insert(compare_key_u64(pc, arg1, arg2))
            } else {
                old(self).compare_keys()
            },
    {
        self.record_comparison(pc, arg1, arg2);
    }

    /// Whether the counters from `start` up to `end` are all zero.
    fn chunk_is_zero(counters: &Vec<u8>, start: usize, end: usize) -> (zero: bool)
        requires
            start <= end <= counters@.len(),
        ensures
            zero == all_zero(counters@, start as int, end as int),
    {
        let mut k: usize = start;
        while k < end
            invariant
                start <= k <= end <= counters@.len(),
                all_zero(counters@, start as int, k as int),
            decreases end - k,
        {
            if counters[k] != 0 {
                return false;
            }
            k += 1;
        }
        true
    }

    /// Appends the edge features of the counters from `from` up to `to`.
    fn collect_edges(counters: &Vec<u8>, from: usize, to: usize, features: &mut Vec<Feature>)
        requires
            from <= to <= counters@.len(),
            old(features)@ == edge_features(counters@.take(from as int)),
        ensures
            final(features)@ == edge_features(counters@.take(to as int)),
    {
        let mut j: usize = from;
        while j < to
            invariant
                from <= j <= to <= counters@.len(),
                features@ == edge_features(counters@.take(j as int)),
            decreases to - j,
        {
            let x: u8 = counters[j];
            proof {
                lemma_edge_features_step(counters@, j as int);
            }
            if x != 0 {
                features.push(Feature::edge(j, x));
            }
            j += 1;
        }
    }

    /// Returns the features collected since the recording started: the edge
    /// features of the counters that are not zero, by increasing index, then
    /// the compare features of the recorded comparisons, by increasing key.
    /// The recorded comparisons are forgotten; the counters stay.
    pub fn iterate_over_collected_features(&mut self) -> (features: Vec<Feature>)
        requires
            old(self).wf(),
        ensures
            final(self).wf(),
            final(self).recording() == old(self).recording(),
            final(self).counters() == old(self).counters(),
            final(self).compare_keys() == Set::<usize>::empty(),
            features@ == edge_features(old(self).counters()) + instr_features(
                keys_below(old(self).compare_keys(), SIZE as nat),
            ),
    {
        let mut features: Vec<Feature> = Vec::new();
        let len: usize = self.eight_bit_counters.len();
        let length_chunks: usize = len / CHUNK_SIZE;
        let mut i: usize = 0;
        while i < length_chunks
            invariant
                i <= length_chunks,
                len == self.eight_bit_counters@.len(),
                length_chunks == len / CHUNK_SIZE,
                features@ == edge_features(self.eight_bit_counters@.take(i * CHUNK_SIZE)),
            decreases length_chunks - i,
        {
            let start: usize = i * CHUNK_SIZE;
            let end: usize = start + CHUNK_SIZE;
            if CodeCoverageSensor::chunk_is_zero(&self.eight_bit_counters, start, end) {
                proof {
                    lemma_edge_features_skip(self.eight_bit_counters@, start as int, end as int);
                }
            } else {
                CodeCoverageSensor::collect_edges(
                    &self.eight_bit_counters,
                    start,
                    end,
                    &mut features,
                );
            }
            i += 1;
        }
        let start_remainder: usize = length_chunks * CHUNK_SIZE;
        CodeCoverageSensor::collect_edges(
            &self.eight_bit_counters,
            start_remainder,
            len,
            &mut features,
        );
        assert(self.eight_bit_counters@.take(len as int) =~= self.eight_bit_counters@);
        let ghost edges = features@;
        let keys: Vec<usize> = self.features.drain();
        let mut n: usize = 0;
        while n < keys.len()
            invariant
                n <= keys@.len(),
                features@ == edges + instr_features(keys@.take(n as int)),
            decreases keys@.len() - n,
        {
            features.push(Feature::from_instr(InstrFeatureWithoutTag(keys[n])));
            assert(features@ =~= edges + instr_features(keys@.take(n + 1)));
            n += 1;
        }
        assert(keys@.take(n as int) =~= keys@);
        features
    }

    /// Sets every edge counter to zero and forgets the recorded comparisons.
    pub fn clear(&mut self)
        requires
            old(self).wf(),
        ensures
            final(self).wf(),
            final(self).recording() == old(self).recording(),
            final(self).counters() == Seq::new(old(self).counters().len(), |i: int| 0u8),
            final(self).compare_keys() == Set::<usize>::empty(),
    {
        let len: usize = self.eight_bit_counters.len();
        let mut i: usize = 0;
        while i < len
            invariant
                i <= len,
                len == self.eight_bit_counters@.len(),
                self.features == old(self).features,
                self.is_recording == old(self).is_recording,
                forall|k: int| 0 <= k < i ==> self.eight_bit_counters@[k] == 0,
            decreases len - i,
        {
            self.eight_bit_counters[i] = 0;
            i += 1;
        }
        let _ = self.features.drain();
        assert(self.eight_bit_counters@ =~= Seq::new(old(self).counters().len(), |i: int| 0u8));
    }
}

impl Sensor for CodeCoverageSensor {
    type Observations = Vec<Feature>;

    /// The set of recorded comparisons is well-formed.
    closed spec fn wf(&self) -> bool {
        self.features.wf()
    }

    /// Forgets what was recorded and starts to record.
    fn start_recording(&mut self)
        ensures
            final(self).recording(),
            final(self).counters() == Seq::new(old(self).counters().len(), |i: int| 0u8),
            final(self).compare_keys() == Set::<usize>::empty(),
    {
        self.clear();
        self.is_recording = true;
    }

    /// Stops recording: the hooks do nothing until the recording starts again.
    fn stop_recording(&mut self)
        ensures
            !final(self).recording(),
            final(self).counters() == old(self).counters(),
            final(self).compare_keys() == old(self).compare_keys(),
    {
        self.is_recording = false;
    }

    /// Hands out the features collected since the recording started, as
    /// [`CodeCoverageSensor::iterate_over_collected_features`] does.
    fn iterate_over_observations(&mut self) -> (observations: Vec<Feature>)
        ensures
            final(self).recording() == old(self).recording(),
            final(self).counters() == old(self).counters(),
            final(self).compare_keys() == Set::<usize>::empty(),
            observations@ == edge_features(old(self).counters()) + instr_features(
                keys_below(old(self).compare_keys(), SIZE as nat),
            ),
    {
        self.iterate_over_collected_features()
    }
}

} // verus!
