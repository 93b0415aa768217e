use fuzzcheck::feature::{
    Feature, FeatureKind, InstrFeatureWithoutTag, EDGE_INDEX_MASK, ID_OFFSET, INSTR_KEY_SPACE,
    PAYLOAD_MASK, PC_MASK, TAG_OFFSET,
};

#[test]
fn edge_features_differ_by_counter_class() {
    assert_ne!(Feature::edge(100, 1), Feature::edge(100, 2));
}

#[test]
fn edge_features_differ_by_index() {
    assert_ne!(Feature::edge(100, 1), Feature::edge(101, 1));
    assert_ne!(Feature::edge(0, 4), Feature::edge(0xFFFF_FFFF, 4));
}

#[test]
fn edge_features_agree_within_a_class() {
    assert_eq!(Feature::edge(7, 4), Feature::edge(7, 7));
    assert_eq!(Feature::edge(7, 8), Feature::edge(7, 15));
    assert_eq!(Feature::edge(7, 16), Feature::edge(7, 31));
    assert_eq!(Feature::edge(7, 32), Feature::edge(7, 127));
    assert_eq!(Feature::edge(7, 128), Feature::edge(7, 255));
}

#[test]
fn edge_feature_has_exact_key() {
    assert_eq!(Feature::edge(100, 1).0, 100 * 256 + 1);
    assert_eq!(Feature::edge(5, 4).0, 5 * 256 + 4);
    assert_eq!(Feature::edge(5, 200).0, 5 * 256 + 8);
}

#[test]
fn counter_classes() {
    let expected: [(u8, u8); 16] = [
        (0, 0),
        (1, 1),
        (2, 2),
        (3, 3),
        (4, 4),
        (7, 4),
        (8, 5),
        (15, 5),
        (16, 6),
        (31, 6),
        (32, 7),
        (64, 7),
        (127, 7),
        (128, 8),
        (200, 8),
        (255, 8),
    ];
    for (counter, class) in expected {
        assert_eq!(Feature::score_from_counter(counter), class);
    }
}

#[test]
fn edge_feature_decodes() {
    let f = Feature::edge(100, 9);
    assert_eq!(f.kind(), Some(FeatureKind::Edge));
    assert_eq!(f.location(), 100);
    assert_eq!(f.payload(), 5);
}

#[test]
fn compare_feature_has_payload() {
    let shift = Feature::id_offset();
    let f = Feature::from_instr(InstrFeatureWithoutTag(((0 & 0x2F_FFFF) << shift) | 3));
    assert_eq!(f.payload(), 3);
    assert_eq!(f.kind(), Some(FeatureKind::Instr));
    assert_eq!(f.location(), 0);
}

#[test]
fn compare_feature_has_exact_key() {
    let f = Feature::from_instr(InstrFeatureWithoutTag(0x1234));
    assert_eq!(f.0, 0x4000_0000_0000_1234);
}

#[test]
fn comparison_key_holds_hamming_distance() {
    let key = InstrFeatureWithoutTag::from_comparison(0x1234, 0x00, 0x0F);
    assert_eq!(key.0, (0x1234 << 8) | 4);
    let key = InstrFeatureWithoutTag::from_comparison(1, u64::MAX, 0);
    assert_eq!(key.0, (1 << 8) | 64);
    let key = InstrFeatureWithoutTag::from_comparison(1, 0xFF00, 0xFF00);
    assert_eq!(key.0, 1 << 8);
}

#[test]
fn comparison_key_keeps_masked_program_counter() {
    let key = InstrFeatureWithoutTag::from_comparison(0xFFFF_FFFF, 1, 0);
    assert_eq!(key.0, (0x2F_FFFF << 8) | 1);
    assert!(key.0 < INSTR_KEY_SPACE);
    let f = Feature::from_instr(key);
    assert_eq!(f.location(), 0x2F_FFFF);
    assert_eq!(f.payload(), 1);
}

#[test]
fn compare_payload_is_popcount_of_xor() {
    let pairs: [(u64, u64); 5] = [
        (0, 0),
        (0x00, 0x0F),
        (0xAAAA_AAAA, 0x5555_5555),
        (u64::MAX, 0),
        (0x8000_0000_0000_0000, 1),
    ];
    for (a, b) in pairs {
        let f = Feature::from_instr(InstrFeatureWithoutTag::from_comparison(77, a, b));
        assert_eq!(u32::from(f.payload()), (a ^ b).count_ones());
    }
}

#[test]
fn layout_constants() {
    assert_eq!(Feature::tag_offset(), 62);
    assert_eq!(Feature::id_offset(), 8);
    assert_eq!(TAG_OFFSET, 62);
    assert_eq!(ID_OFFSET, 8);
    assert_eq!(PAYLOAD_MASK, 0xFF);
    assert!(PAYLOAD_MASK >= 0x7F);
    assert_eq!(EDGE_INDEX_MASK, 0xFFFF_FFFF);
    assert_eq!(PC_MASK, 0x2F_FFFF);
}

#[test]
fn unknown_kind_is_none() {
    assert_eq!(Feature(0x8000_0000_0000_0000).kind(), None);
    assert_eq!(Feature(0xC000_0000_0000_0000).kind(), None);
}
