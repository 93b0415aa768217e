use fuzzcheck::artifacts_pool::{ArtifactsPool, Stats, TestFailure, TestFailureSensor};
use fuzzcheck::either::Either;
use fuzzcheck::pool_model::{PositionOfNewInput, NBR_ARTIFACTS_PER_ERROR_AND_CPLX};
use fuzzcheck::sensor_and_pool::{CompatibleWithSensor, CorpusDelta, MinifyError, Pool, Sensor};

type Index = (usize, usize, usize);

const TEN: u64 = 100_000;
const FIVE: u64 = 50_000;

fn failure(id: u64, display: &str) -> TestFailure {
    TestFailure { display: display.to_string(), id }
}

fn offer(
    pool: &mut ArtifactsPool<u32>,
    id: u64,
    display: &str,
    complexity: u64,
    data: u32,
) -> Option<CorpusDelta<Index>> {
    let mut sensor = TestFailureSensor::new();
    sensor.start_recording();
    sensor.record_failure(failure(id, display));
    sensor.stop_recording();
    pool.process(&mut sensor, Either::Right(&data), &|x: &u32| *x, complexity)
}

#[test]
fn first_failure_opens_a_group() {
    let mut pool: ArtifactsPool<u32> = ArtifactsPool::new("artifacts", 100);
    assert_eq!(pool.len(), 0);
    let delta = offer(&mut pool, 7, "boom", TEN, 1).unwrap();
    assert_eq!(delta.add, Some((0, 0, 0)));
    assert!(delta.remove.is_empty());
    assert_eq!(delta.path, vec!["artifacts", "7", "10.0000"]);
    assert!(delta.path.join("/").ends_with("7/10.0000"));
    assert_eq!(pool.len(), 1);
    assert_eq!(*pool.get((0, 0, 0)), 1);
    assert!(pool.retrieve_after_processing((0, 0, 1), 0).is_none());
}

#[test]
fn bucket_is_capped_at_eight() {
    assert_eq!(NBR_ARTIFACTS_PER_ERROR_AND_CPLX, 8);
    let mut pool: ArtifactsPool<u32> = ArtifactsPool::new("artifacts", 100);
    assert!(offer(&mut pool, 7, "boom", TEN, 0).is_some());
    for n in 1..8 {
        let delta = offer(&mut pool, 7, "boom", TEN, n).unwrap();
        assert_eq!(delta.add, Some((0, 0, n as usize)));
        assert_eq!(*pool.get((0, 0, n as usize)), n);
    }
    assert!(offer(&mut pool, 7, "boom", TEN, 8).is_none());
    assert_eq!(pool.len(), 1);
    assert!(pool.retrieve_after_processing((0, 0, 7), 0).is_some());
    assert!(pool.retrieve_after_processing((0, 0, 8), 0).is_none());
    assert!(pool.retrieve_after_processing((0, 1, 0), 0).is_none());
}

#[test]
fn simpler_input_opens_a_bucket_and_shuts_out_the_complex() {
    let mut pool: ArtifactsPool<u32> = ArtifactsPool::new("artifacts", 100);
    assert!(offer(&mut pool, 7, "boom", TEN, 0).is_some());
    let delta = offer(&mut pool, 7, "boom", FIVE, 1).unwrap();
    assert_eq!(delta.add, Some((0, 1, 0)));
    assert_eq!(delta.path, vec!["artifacts", "7", "5.0000"]);
    assert!(offer(&mut pool, 7, "boom", TEN, 2).is_none());
    assert!(offer(&mut pool, 7, "boom", FIVE + 1, 3).is_none());
    assert_eq!(pool.len(), 1);
    assert_eq!(*pool.get((0, 0, 0)), 0);
    assert_eq!(*pool.get((0, 1, 0)), 1);
    assert!(pool.retrieve_after_processing((0, 0, 1), 0).is_none());
    assert!(pool.retrieve_after_processing((0, 2, 0), 0).is_none());
}

#[test]
fn minimum_follows_admissions() {
    let mut pool: ArtifactsPool<u32> = ArtifactsPool::new("artifacts", 100);
    assert!(offer(&mut pool, 7, "boom", TEN, 0).is_some());
    assert_eq!(
        pool.classify(&failure(7, "boom"), FIVE),
        Some(PositionOfNewInput::ExistingErrorNewCplx(0))
    );
    assert_eq!(offer(&mut pool, 7, "boom", FIVE, 1).unwrap().add, Some((0, 1, 0)));
    assert_eq!(
        pool.classify(&failure(7, "boom"), FIVE),
        Some(PositionOfNewInput::ExistingErrorAndCplx(0))
    );
    assert_eq!(pool.classify(&failure(7, "boom"), FIVE + 1), None);
    assert_eq!(
        pool.classify(&failure(7, "boom"), FIVE - 1),
        Some(PositionOfNewInput::ExistingErrorNewCplx(0))
    );
    assert_eq!(pool.classify(&failure(8, "bang"), TEN), Some(PositionOfNewInput::NewError));
}

#[test]
fn same_display_under_another_id_blocks_equal_complexity() {
    let mut pool: ArtifactsPool<u32> = ArtifactsPool::new("artifacts", 100);
    assert_eq!(offer(&mut pool, 7, "boom", FIVE, 0).unwrap().add, Some((0, 0, 0)));
    assert_eq!(offer(&mut pool, 11, "boom", FIVE, 1).unwrap().add, Some((1, 0, 0)));
    assert_eq!(pool.len(), 2);
    assert!(offer(&mut pool, 11, "boom", FIVE, 2).is_none());
    assert!(offer(&mut pool, 7, "boom", FIVE, 3).is_none());
    assert_eq!(pool.len(), 2);
    assert!(pool.retrieve_after_processing((0, 0, 1), 0).is_none());
    assert!(pool.retrieve_after_processing((1, 0, 1), 0).is_none());
    assert_eq!(offer(&mut pool, 11, "boom", FIVE - 1, 4).unwrap().add, Some((1, 1, 0)));
}

#[test]
fn other_display_under_another_id_does_not_block() {
    let mut pool: ArtifactsPool<u32> = ArtifactsPool::new("artifacts", 100);
    assert!(offer(&mut pool, 7, "boom", FIVE, 0).is_some());
    assert!(offer(&mut pool, 11, "bang", FIVE, 1).is_some());
    assert_eq!(offer(&mut pool, 11, "bang", FIVE, 2).unwrap().add, Some((1, 0, 1)));
    assert_eq!(offer(&mut pool, 7, "boom", FIVE, 3).unwrap().add, Some((0, 0, 1)));
    assert_eq!(offer(&mut pool, 7, "another text", FIVE, 4).unwrap().add, Some((0, 0, 2)));
}

#[test]
fn no_failure_no_change() {
    let mut pool: ArtifactsPool<u32> = ArtifactsPool::new("artifacts", 100);
    let mut sensor = TestFailureSensor::new();
    sensor.start_recording();
    sensor.stop_recording();
    let data: u32 = 1;
    assert!(pool.process(&mut sensor, Either::Right(&data), &|x: &u32| *x, TEN).is_none());
    assert_eq!(pool.len(), 0);
    assert!(pool.get_random_index().is_none());
}

#[test]
fn sensor_hands_its_failure_out_once() {
    let mut sensor = TestFailureSensor::default();
    assert!(sensor.iterate_over_observations().is_none());
    sensor.start_recording();
    sensor.record_failure(failure(2, "fresh"));
    assert!(sensor.iterate_over_observations().is_none());
    sensor.stop_recording();
    let seen = sensor.iterate_over_observations().unwrap();
    assert_eq!(seen.id, 2);
    assert_eq!(seen.display, "fresh");
    assert!(sensor.iterate_over_observations().is_none());
    sensor.stop_recording();
    assert!(sensor.iterate_over_observations().is_none());
}

#[test]
fn sensor_keeps_the_most_recent_failure_of_a_run() {
    let mut sensor = TestFailureSensor::new();
    sensor.start_recording();
    sensor.record_failure(failure(1, "first"));
    sensor.record_failure(failure(2, "second"));
    sensor.stop_recording();
    assert_eq!(sensor.iterate_over_observations().map(|f| f.id), Some(2));
}

#[test]
fn start_recording_forgets_both_failures() {
    let mut sensor = TestFailureSensor::new();
    sensor.record_failure(failure(1, "shown"));
    sensor.stop_recording();
    sensor.record_failure(failure(2, "left"));
    sensor.start_recording();
    assert!(sensor.iterate_over_observations().is_none());
    sensor.stop_recording();
    assert!(sensor.iterate_over_observations().is_none());
}

#[test]
fn process_takes_the_failure_from_the_sensor() {
    let mut pool: ArtifactsPool<u32> = ArtifactsPool::new("artifacts", 100);
    let mut sensor = TestFailureSensor::new();
    sensor.record_failure(failure(7, "boom"));
    sensor.stop_recording();
    let data: u32 = 1;
    assert!(pool.process(&mut sensor, Either::Right(&data), &|x: &u32| *x, TEN).is_some());
    assert!(pool.process(&mut sensor, Either::Right(&data), &|x: &u32| *x, FIVE).is_none());
    assert_eq!(pool.len(), 1);
}

#[test]
fn input_of_the_pool_is_offered_again_by_its_index() {
    let mut pool: ArtifactsPool<u32> = ArtifactsPool::new("artifacts", 100);
    assert!(offer(&mut pool, 7, "boom", TEN, 41).is_some());
    let mut sensor = TestFailureSensor::new();
    sensor.record_failure(failure(7, "boom"));
    sensor.stop_recording();
    let delta = pool.process(&mut sensor, Either::Left((0, 0, 0)), &|x: &u32| *x + 1, FIVE);
    assert_eq!(delta.unwrap().add, Some((0, 1, 0)));
    assert_eq!(*pool.get((0, 0, 0)), 41);
    assert_eq!(*pool.get((0, 1, 0)), 42);
}

#[test]
fn random_index_is_in_the_least_complex_bucket() {
    let mut pool: ArtifactsPool<u32> = ArtifactsPool::new("artifacts", 100);
    assert!(offer(&mut pool, 7, "boom", TEN, 0).is_some());
    assert!(offer(&mut pool, 7, "boom", TEN, 1).is_some());
    assert!(offer(&mut pool, 7, "boom", FIVE, 2).is_some());
    assert!(offer(&mut pool, 7, "boom", FIVE, 3).is_some());
    assert!(offer(&mut pool, 7, "boom", FIVE, 4).is_some());
    assert!(offer(&mut pool, 9, "bang", TEN, 5).is_some());
    let mut seen_groups = [false; 2];
    for _ in 0..200 {
        let (g, b, i) = pool.get_random_index().unwrap();
        assert!(g < 2);
        seen_groups[g] = true;
        if g == 0 {
            assert_eq!(b, 1);
            assert!(i < 3);
            assert!(*pool.get((g, b, i)) >= 2);
        } else {
            assert_eq!((b, i), (0, 0));
        }
    }
    assert!(seen_groups[0] && seen_groups[1]);
}

#[test]
fn least_complex_index_checks_its_choices() {
    let mut pool: ArtifactsPool<u32> = ArtifactsPool::new("artifacts", 100);
    assert_eq!(pool.least_complex_index(0, 0), None);
    assert!(offer(&mut pool, 7, "boom", TEN, 0).is_some());
    assert!(offer(&mut pool, 7, "boom", FIVE, 1).is_some());
    assert!(offer(&mut pool, 7, "boom", FIVE, 2).is_some());
    assert_eq!(pool.least_complex_index(0, 0), Some((0, 1, 0)));
    assert_eq!(pool.least_complex_index(0, 1), Some((0, 1, 1)));
    assert_eq!(pool.least_complex_index(0, 2), None);
    assert_eq!(pool.least_complex_index(1, 0), None);
}

#[test]
fn dead_end_is_removed_and_nothing_else() {
    let mut pool: ArtifactsPool<u32> = ArtifactsPool::new("artifacts", 100);
    assert!(offer(&mut pool, 7, "boom", TEN, 0).is_some());
    assert!(offer(&mut pool, 7, "boom", TEN, 1).is_some());
    assert!(offer(&mut pool, 7, "boom", TEN, 2).is_some());
    pool.mark_test_case_as_dead_end((0, 0, 1));
    assert_eq!(*pool.get((0, 0, 0)), 0);
    assert_eq!(*pool.get((0, 0, 1)), 2);
    assert!(pool.retrieve_after_processing((0, 0, 2), 0).is_none());
    pool.mark_test_case_as_dead_end((0, 0, 0));
    pool.mark_test_case_as_dead_end((0, 0, 0));
    assert_eq!(pool.len(), 1);
    assert!(pool.get_random_index().is_none());
    assert_eq!(offer(&mut pool, 7, "boom", TEN, 3).unwrap().add, Some((0, 0, 0)));
    assert_eq!(pool.get_random_index(), Some((0, 0, 0)));
}

#[test]
fn stale_reference_is_not_retrieved() {
    let mut pool: ArtifactsPool<u32> = ArtifactsPool::new("artifacts", 100);
    assert!(offer(&mut pool, 7, "boom", TEN, 5).is_some());
    assert!(pool.retrieve_after_processing((0, 0, 0), 1).is_none());
    assert!(pool.retrieve_after_processing((1, 0, 0), 0).is_none());
    assert!(pool.retrieve_after_processing((0, 1, 0), 0).is_none());
    assert!(pool.retrieve_after_processing((0, 0, 1), 0).is_none());
    let data = pool.retrieve_after_processing((0, 0, 0), 0).unwrap();
    assert_eq!(*data, 5);
    *data = 6;
    assert_eq!(*pool.get((0, 0, 0)), 6);
}

#[test]
fn input_is_changed_in_place() {
    let mut pool: ArtifactsPool<u32> = ArtifactsPool::new("artifacts", 100);
    assert!(offer(&mut pool, 7, "boom", TEN, 5).is_some());
    assert!(offer(&mut pool, 7, "boom", TEN, 6).is_some());
    *pool.get_mut((0, 0, 1)) = 60;
    assert_eq!(*pool.get((0, 0, 0)), 5);
    assert_eq!(*pool.get((0, 0, 1)), 60);
}

#[test]
fn minify_is_not_implemented() {
    let mut pool: ArtifactsPool<u32> = ArtifactsPool::new("artifacts", 100);
    assert!(offer(&mut pool, 7, "boom", TEN, 5).is_some());
    let mut sensor = TestFailureSensor::new();
    assert_eq!(pool.minify(&mut sensor, 0), Err(MinifyError::NotImplemented));
    assert_eq!(pool.len(), 1);
    assert_eq!(*pool.get((0, 0, 0)), 5);
}

#[test]
fn stats_show_nothing() {
    let pool: ArtifactsPool<u32> = ArtifactsPool::new("artifacts", 100);
    assert_eq!(pool.stats(), Stats {});
    assert_eq!(pool.stats().to_string(), "");
}

#[test]
fn delta_path_names_pool_failure_and_complexity() {
    let mut pool: ArtifactsPool<u32> = ArtifactsPool::new("crashes", 0);
    let delta = offer(&mut pool, u64::MAX, "boom", 31_416, 0).unwrap();
    assert_eq!(delta.path, vec!["crashes", "18446744073709551615", "3.1416"]);
}

#[test]
fn insert_new_input_puts_the_input_where_classified() {
    let mut pool: ArtifactsPool<u32> = ArtifactsPool::new("artifacts", 100);
    let position = pool.classify(&failure(3, "oops"), TEN).unwrap();
    let delta = pool.insert_new_input(position, failure(3, "oops"), TEN, 99);
    assert_eq!(delta.add, Some((0, 0, 0)));
    assert_eq!(delta.path, vec!["artifacts", "3", "10.0000"]);
    assert_eq!(*pool.get((0, 0, 0)), 99);
}
