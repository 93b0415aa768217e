use fuzzcheck::code_coverage_sensor::CodeCoverageSensor;
use fuzzcheck::feature::{Feature, FeatureKind, InstrFeatureWithoutTag};
use fuzzcheck::sensor_and_pool::Sensor;

#[test]
fn one_edge_and_one_comparison() {
    let mut sensor = CodeCoverageSensor::new(vec![0; 40]);
    sensor.start_recording();
    let mut counters = vec![0u8; 40];
    counters[5] = 4;
    sensor.load_counters(&counters);
    sensor.handle_trace_cmp_u8(0x10, 0x00, 0x0F);
    sensor.stop_recording();
    let features = sensor.iterate_over_collected_features();
    assert_eq!(features.len(), 2);
    assert_eq!(features[0], Feature::edge(5, 4));
    assert_eq!(features[0].kind(), Some(FeatureKind::Edge));
    assert_eq!(features[0].location(), 5);
    assert_eq!(features[0].payload(), Feature::score_from_counter(4));
    assert_eq!(features[1].kind(), Some(FeatureKind::Instr));
    assert_eq!(features[1].payload(), 4);
    assert_eq!(features[1].location(), 0x10);
}

#[test]
fn hooks_do_nothing_unless_recording() {
    let mut sensor = CodeCoverageSensor::new(vec![0; 8]);
    assert!(!sensor.is_recording);
    sensor.handle_trace_cmp_u8(1, 0, 1);
    sensor.handle_trace_cmp_u16(2, 0, 1);
    sensor.handle_trace_cmp_u32(3, 0, 1);
    sensor.handle_trace_cmp_u64(4, 0, 1);
    assert_eq!(sensor.iterate_over_collected_features(), Vec::<Feature>::new());
    sensor.start_recording();
    assert!(sensor.is_recording);
    sensor.stop_recording();
    assert!(!sensor.is_recording);
    sensor.handle_trace_cmp_u64(4, 0, 1);
    assert_eq!(sensor.iterate_over_collected_features(), Vec::<Feature>::new());
}

#[test]
fn hooks_of_every_width_record_the_distance() {
    let mut sensor = CodeCoverageSensor::new(Vec::new());
    sensor.start_recording();
    sensor.handle_trace_cmp_u8(1, 0xFF, 0x00);
    sensor.handle_trace_cmp_u16(2, 0xFFFF, 0x0000);
    sensor.handle_trace_cmp_u32(3, 0xFFFF_FFFF, 0);
    sensor.handle_trace_cmp_u64(4, u64::MAX, 0);
    let features = sensor.iterate_over_collected_features();
    let expected = vec![
        Feature::from_instr(InstrFeatureWithoutTag((1 << 8) | 8)),
        Feature::from_instr(InstrFeatureWithoutTag((2 << 8) | 16)),
        Feature::from_instr(InstrFeatureWithoutTag((3 << 8) | 32)),
        Feature::from_instr(InstrFeatureWithoutTag((4 << 8) | 64)),
    ];
    assert_eq!(features, expected);
}

#[test]
fn a_comparison_seen_twice_is_one_feature() {
    let mut sensor = CodeCoverageSensor::new(Vec::new());
    sensor.start_recording();
    sensor.handle_trace_cmp_u32(9, 1, 2);
    sensor.handle_trace_cmp_u32(9, 1, 2);
    sensor.handle_trace_cmp_u32(9, 4, 8);
    let features = sensor.iterate_over_collected_features();
    assert_eq!(features, vec![Feature::from_instr(InstrFeatureWithoutTag((9 << 8) | 2))]);
}

#[test]
fn comparisons_are_forgotten_once_collected() {
    let mut sensor = CodeCoverageSensor::new(vec![0, 3]);
    sensor.start_recording();
    sensor.load_counters(&[0, 3]);
    sensor.handle_trace_cmp_u8(1, 1, 0);
    assert_eq!(sensor.iterate_over_collected_features().len(), 2);
    assert_eq!(sensor.iterate_over_collected_features(), vec![Feature::edge(1, 3)]);
}

#[test]
fn edges_come_by_increasing_index_across_chunks() {
    let mut counters = vec![0u8; 100];
    counters[0] = 1;
    counters[31] = 2;
    counters[64] = 255;
    counters[95] = 16;
    counters[96] = 3;
    counters[99] = 8;
    let mut sensor = CodeCoverageSensor::new(Vec::new());
    sensor.load_counters(&counters);
    let features = sensor.iterate_over_collected_features();
    let expected = vec![
        Feature::edge(0, 1),
        Feature::edge(31, 2),
        Feature::edge(64, 255),
        Feature::edge(95, 16),
        Feature::edge(96, 3),
        Feature::edge(99, 8),
    ];
    assert_eq!(features, expected);
}

#[test]
fn start_recording_clears_counters_and_comparisons() {
    let mut sensor = CodeCoverageSensor::new(vec![1, 2, 3]);
    sensor.start_recording();
    sensor.handle_trace_cmp_u8(1, 1, 0);
    sensor.load_counters(&[1, 2, 3]);
    sensor.start_recording();
    assert_eq!(sensor.iterate_over_collected_features(), Vec::<Feature>::new());
}

#[test]
fn clear_zeroes_counters_and_forgets_comparisons() {
    let mut sensor = CodeCoverageSensor::new(vec![7; 70]);
    sensor.start_recording();
    sensor.load_counters(&[7; 70]);
    sensor.handle_trace_cmp_u16(5, 1, 0);
    assert_eq!(sensor.iterate_over_collected_features().len(), 71);
    sensor.handle_trace_cmp_u16(5, 1, 0);
    sensor.clear();
    assert!(sensor.is_recording);
    assert_eq!(sensor.iterate_over_collected_features(), Vec::<Feature>::new());
}

#[test]
fn counters_given_at_construction_are_read() {
    let mut sensor = CodeCoverageSensor::new(vec![0, 0, 9]);
    assert_eq!(sensor.iterate_over_collected_features(), vec![Feature::edge(2, 9)]);
}

#[test]
fn observations_are_the_collected_features() {
    let mut sensor = CodeCoverageSensor::new(vec![0, 0, 9]);
    sensor.start_recording();
    sensor.load_counters(&[0, 2, 0]);
    sensor.handle_trace_cmp_u64(3, 7, 0);
    sensor.stop_recording();
    let expected =
        vec![Feature::edge(1, 2), Feature::from_instr(InstrFeatureWithoutTag((3 << 8) | 3))];
    assert_eq!(sensor.iterate_over_observations(), expected);
    assert_eq!(sensor.iterate_over_observations(), vec![Feature::edge(1, 2)]);
}
