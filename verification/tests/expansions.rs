use fuzzcheck::artifacts_pool::{ArtifactsPool, TestFailure, TestFailureSensor};
use fuzzcheck::either::Either;
use fuzzcheck::sensor_and_pool::{CompatibleWithSensor, Pool, Sensor};

#[derive(Clone)]
pub enum X {
    A(u8),
}

#[test]
fn test_compile() {
    let max_cplx: f64 = 10.0;
    let value = X::A(0);
    let mut pool: ArtifactsPool<X> = ArtifactsPool::new("artifacts", 1);
    let mut sensor = TestFailureSensor::new();
    sensor.record_failure(TestFailure { display: String::new(), id: 0 });
    sensor.stop_recording();
    let complexity = (max_cplx * 10_000.0).round() as u64;
    let delta = pool.process(&mut sensor, Either::Right(&value), &|x: &X| x.clone(), complexity);
    let (_value, _): (X, _) = (pool.get((0, 0, 0)).clone(), delta);
}
