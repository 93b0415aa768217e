//! Features: compact integers that each identify one observed behaviour of the
//! program under test.
//!
//! A feature is a 64-bit key. Its two highest bits hold the kind, the eight
//! lowest bits hold a payload, and the bits in between locate the behaviour in
//! the program.

use vstd::arithmetic::power2::{lemma2_to64, lemma2_to64_rest, lemma_pow2_unfold, pow2};
use vstd::prelude::*;

verus! {

/// Position of the two bits that hold a feature's kind.
pub const TAG_OFFSET: u64 = 62;

/// Position of the bits that locate a feature in the program.
pub const ID_OFFSET: u64 = 8;

/// The low bits of a feature, which hold its payload.
pub const PAYLOAD_MASK: u64 = 0xFF;

/// The bits of an edge index that an edge feature keeps.
pub const EDGE_INDEX_MASK: u64 = 0xFFFF_FFFF;

/// The bits of a program counter that a compare feature keeps.
pub const PC_MASK: u64 = 0x2F_FFFF;

/// Number of keys that a compare feature without its kind can take.
pub const INSTR_KEY_SPACE: usize = 0x4000_0000;

/// The kind of behaviour that a feature stands for.
#[derive(Clone, Copy, Debug, PartialEq, Eq, Structural)]
pub enum FeatureKind {
    /// A control-flow edge together with a class of execution counts.
    Edge,
    /// A comparison site together with the Hamming distance of its operands.
    Instr,
}

/// A feature of the program under test.
#[derive(Clone, Copy, Debug, PartialEq, Eq, Structural, PartialOrd, Ord, Hash)]
pub struct Feature(pub u64);

/// A compare feature that has not been given its kind yet: the key under which
/// the sensor records a comparison.
#[derive(Clone, Copy, Debug, PartialEq, Eq, Structural)]
pub struct InstrFeatureWithoutTag(pub usize);

/// Number of bits set in `x`.
pub open spec fn popcount(x: u64) -> nat
    decreases x,
{
    if x == 0 {
        0
    } else {
        (x % 2) as nat + popcount(x / 2)
    }
}

/// The class of an edge counter. Counts of 0 to 3 each form a class, and the
/// larger ones fall into 4..=7, 8..=15, 16..=31, 32..=127 and 128..=255.
pub open spec fn counter_bucket(counter: u8) -> u8 {
    if counter <= 3 {
        counter
    } else if counter <= 7 {
        4
    } else if counter <= 15 {
        5
    } else if counter <= 31 {
        6
    } else if counter <= 127 {
        7
    } else {
        8
    }
}

/// The key of the edge feature for the edge at `pc_index` hit `counter` times.
pub open spec fn edge_key(pc_index: usize, counter: u8) -> u64 {
    ((pc_index as int % 0x1_0000_0000) * 256 + counter_bucket(counter)) as u64
}

/// The key under which a comparison at `pc` whose operands differ in
/// `distance` bits is recorded.
pub open spec fn compare_key(pc: usize, distance: nat) -> usize {
    (((pc as u64) & PC_MASK) * 256 + distance) as usize
}

/// The key under which a comparison of two bytes at `pc` is recorded.
pub open spec fn compare_key_u8(pc: usize, arg1: u8, arg2: u8) -> usize {
    compare_key(pc, popcount((arg1 as u64) ^ (arg2 as u64)))
}

/// The key under which a comparison of two 16-bit values at `pc` is recorded.
pub open spec fn compare_key_u16(pc: usize, arg1: u16, arg2: u16) -> usize {
    compare_key(pc, popcount((arg1 as u64) ^ (arg2 as u64)))
}

/// The key under which a comparison of two 32-bit values at `pc` is recorded.
pub open spec fn compare_key_u32(pc: usize, arg1: u32, arg2: u32) -> usize {
    compare_key(pc, popcount((arg1 as u64) ^ (arg2 as u64)))
}

/// The key under which a comparison of two 64-bit values at `pc` is recorded.
pub open spec fn compare_key_u64(pc: usize, arg1: u64, arg2: u64) -> usize {
    compare_key(pc, popcount(arg1 ^ arg2))
}

/// The key of the compare feature made from the recorded key `key`.
pub open spec fn instr_key(key: usize) -> u64 {
    (key as u64) | 0x4000_0000_0000_0000
}

/// `u64::count_ones` returns the number of ones in the binary representation
/// of its argument.
pub assume_specification[ u64::count_ones ](i: u64) -> (r: u32)
    ensures
        r == popcount(i),
;

/// A number below two to the power `bits` has at most `bits` bits set.
pub proof fn lemma_popcount_bounded(x: u64, bits: nat)
    requires
        x < pow2(bits),
    ensures
        popcount(x) <= bits,
    decreases bits,
{
    if x != 0 {
        if bits == 0 {
            lemma2_to64();
        } else {
            lemma_pow2_unfold(bits);
            lemma_popcount_bounded(x / 2, (bits - 1) as nat);
        }
    }
}

/// No 64-bit number has more than 64 bits set.
pub proof fn lemma_popcount_at_most_64(x: u64)
    ensures
        popcount(x) <= 64,
{
    lemma2_to64_rest();
    lemma_popcount_bounded(x, 64);
}

impl InstrFeatureWithoutTag {
    /// The key for a comparison of `arg1` with `arg2` at program counter `pc`:
    /// the kept bits of `pc` above the Hamming distance of the operands.
    pub fn from_comparison(pc: usize, arg1: u64, arg2: u64) -> (key: InstrFeatureWithoutTag)
        ensures
            key.0 == compare_key(pc, popcount(arg1 ^ arg2)),
            key.0 < INSTR_KEY_SPACE,
    {
        let distance: u64 = (arg1 ^ arg2).count_ones() as u64;
        let site: u64 = (pc as u64) & PC_MASK;
        let raw: u64 = (site << ID_OFFSET) | distance;
        proof {
            lemma_popcount_at_most_64(arg1 ^ arg2);
            let p: u64 = pc as u64;
            assert(((p & 0x2F_FFFF) << 8) | distance == (p & 0x2F_FFFF) * 256 + distance
                && (p & 0x2F_FFFF) * 256 + distance < 0x4000_0000) by (bit_vector)
                requires
                    distance <= 64,
            ;
        }
        InstrFeatureWithoutTag(raw as usize)
    }
}

impl Feature {
    /// Position of the bits that hold the kind.
    pub fn tag_offset() -> (offset: u64)
        ensures
            offset == TAG_OFFSET,
    {
        TAG_OFFSET
    }

    /// Position of the bits that locate the feature in the program.
    pub fn id_offset() -> (offset: u64)
        ensures
            offset == ID_OFFSET,
    {
        ID_OFFSET
    }

    /// The class of an edge counter.
    pub fn score_from_counter(counter: u8) -> (score: u8)
        ensures
            score == counter_bucket(counter),
    {
        if counter <= 3 {
            counter
        } else if counter <= 7 {
            4
        } else if counter <= 15 {
            5
        } else if counter <= 31 {
            6
        } else if counter <= 127 {
            7
        } else {
            8
        }
    }

    /// The feature for the edge at `pc_index` hit `counter` times.
    pub fn edge(pc_index: usize, counter: u8) -> (feature: Feature)
        ensures
            feature.0 == edge_key(pc_index, counter),
    {
        let index: u64 = (pc_index as u64) & EDGE_INDEX_MASK;
        let score: u64 = Feature::score_from_counter(counter) as u64;
        let raw: u64 = (index << ID_OFFSET) | score;
        proof {
            let p: u64 = pc_index as u64;
            assert(((p & 0xFFFF_FFFF) << 8) | score == (p % 0x1_0000_0000) * 256 + score)
                by (bit_vector)
                requires
                    score <= 8,
            ;
        }
        Feature(raw)
    }

    /// The compare feature for a recorded key.
    pub fn from_instr(f: InstrFeatureWithoutTag) -> (feature: Feature)
        ensures
            feature.0 == instr_key(f.0),
    {
        assert(1u64 << 62 == 0x4000_0000_0000_0000) by (bit_vector);
        Feature((f.0 as u64) | (1u64 << TAG_OFFSET))
    }

    /// The kind, as the two highest bits give it.
    pub open spec fn spec_kind(self) -> Option<FeatureKind> {
        if self.0 >> TAG_OFFSET == 0 {
            Some(FeatureKind::Edge)
        } else if self.0 >> TAG_OFFSET == 1 {
            Some(FeatureKind::Instr)
        } else {
            None
        }
    }

    /// The payload: the eight lowest bits.
    pub open spec fn spec_payload(self) -> u8 {
        (self.0 & PAYLOAD_MASK) as u8
    }

    /// The location: the bits between the payload and the kind.
    pub open spec fn spec_location(self) -> u64 {
        (self.0 & 0x3FFF_FFFF_FFFF_FFFF) >> ID_OFFSET
    }

    /// The kind of the feature, or `None` where the two highest bits name no
    /// kind.
    #[verifier::when_used_as_spec(spec_kind)]
    pub fn kind(self) -> (kind: Option<FeatureKind>)
        ensures
            kind == self.spec_kind(),
    {
        let tag: u64 = self.0 >> TAG_OFFSET;
        if tag == 0 {
            Some(FeatureKind::Edge)
        } else if tag == 1 {
            Some(FeatureKind::Instr)
        } else {
            None
        }
    }

    /// The payload of the feature: the class of the counter for an edge, the
    /// Hamming distance for a comparison.
    #[verifier::when_used_as_spec(spec_payload)]
    pub fn payload(self) -> (payload: u8)
        ensures
            payload == self.spec_payload(),
    {
        let low: u64 = self.0 & PAYLOAD_MASK;
        proof {
            let raw: u64 = self.0;
            assert(raw & 0xFF <= 0xFF) by (bit_vector);
        }
        low as u8
    }

    /// The location of the feature: the kept bits of the edge index for an
    /// edge, those of the program counter for a comparison.
    #[verifier::when_used_as_spec(spec_location)]
    pub fn location(self) -> (location: u64)
        ensures
            location == self.spec_location(),
    {
        (self.0 & 0x3FFF_FFFF_FFFF_FFFF) >> ID_OFFSET
    }
}

/// An edge feature decodes to what it was made from: its kind is `Edge`, its
/// payload is the class of the counter, and its location is the edge index as
/// far as it is kept.
pub proof fn lemma_edge_decodes(pc_index: usize, counter: u8)
    ensures
        Feature(edge_key(pc_index, counter)).spec_kind() == Some(FeatureKind::Edge),
        Feature(edge_key(pc_index, counter)).spec_payload() == counter_bucket(counter),
        Feature(edge_key(pc_index, counter)).spec_location() == pc_index as int % 0x1_0000_0000,
{
    let p: u64 = pc_index as u64;
    let b: u64 = counter_bucket(counter) as u64;
    let raw: u64 = edge_key(pc_index, counter);
    assert(raw == (p % 0x1_0000_0000) * 256 + b);
    assert({
        let raw = ((p % 0x1_0000_0000) * 256 + b) as u64;
        &&& raw >> 62 == 0
        &&& raw & 0xFF == b
        &&& (raw & 0x3FFF_FFFF_FFFF_FFFF) >> 8 == p % 0x1_0000_0000
    }) by (bit_vector)
        requires
            b <= 8,
    ;
}

/// Two edges that differ in the kept bits of their index, or in the class of
/// their counter, have different features. The kept bits of an index are its
/// remainder modulo two to the power 32, so that edges with indices below
/// that bound differ as soon as their indices do.
pub proof fn lemma_edge_features_distinct(pc1: usize, counter1: u8, pc2: usize, counter2: u8)
    requires
        pc1 as int % 0x1_0000_0000 != pc2 as int % 0x1_0000_0000 || counter_bucket(counter1)
            != counter_bucket(counter2),
    ensures
        edge_key(pc1, counter1) != edge_key(pc2, counter2),
{
    lemma_edge_decodes(pc1, counter1);
    lemma_edge_decodes(pc2, counter2);
}

/// The payload of the compare feature for a comparison is the Hamming distance
/// of the operands, its kind is `Instr`, and its location is the kept bits of
/// the program counter.
pub proof fn lemma_compare_feature_decodes(pc: usize, arg1: u64, arg2: u64)
    ensures
        Feature(instr_key(compare_key(pc, popcount(arg1 ^ arg2)))).spec_payload() == popcount(
            arg1 ^ arg2,
        ),
        Feature(instr_key(compare_key(pc, popcount(arg1 ^ arg2)))).spec_kind() == Some(
            FeatureKind::Instr,
        ),
        Feature(instr_key(compare_key(pc, popcount(arg1 ^ arg2)))).spec_location() == (pc as u64)
            & PC_MASK,
{
    lemma_popcount_at_most_64(arg1 ^ arg2);
    let p: u64 = pc as u64;
    let d: u64 = popcount(arg1 ^ arg2) as u64;
    let site: u64 = p & 0x2F_FFFF;
    assert(site <= 0x2F_FFFF) by (bit_vector)
        requires
            site == p & 0x2F_FFFF,
    ;
    let key: u64 = (site * 256 + d) as u64;
    assert(compare_key(pc, popcount(arg1 ^ arg2)) == key);
    let raw: u64 = key | 0x4000_0000_0000_0000;
    assert(raw & 0xFF == d && raw >> 62 == 1 && (raw & 0x3FFF_FFFF_FFFF_FFFF) >> 8 == site)
        by (bit_vector)
        requires
            raw == key | 0x4000_0000_0000_0000,
            key == site * 256 + d,
            d <= 64,
            site <= 0x2F_FFFF,
    ;
}

/// Two comparisons that differ in the kept bits of their program counter or
/// in the Hamming distance of their operands have different compare features.
pub proof fn lemma_compare_features_distinct(pc1: usize, distance1: nat, pc2: usize, distance2: nat)
    requires
        distance1 <= 64,
        distance2 <= 64,
        (pc1 as u64) & PC_MASK != (pc2 as u64) & PC_MASK || distance1 != distance2,
    ensures
        compare_key(pc1, distance1) != compare_key(pc2, distance2),
        instr_key(compare_key(pc1, distance1)) != instr_key(compare_key(pc2, distance2)),
{
    let s1: u64 = (pc1 as u64) & 0x2F_FFFF;
    let s2: u64 = (pc2 as u64) & 0x2F_FFFF;
    let p1: u64 = pc1 as u64;
    let p2: u64 = pc2 as u64;
    assert(s1 <= 0x2F_FFFF && s2 <= 0x2F_FFFF) by (bit_vector)
        requires
            s1 == p1 & 0x2F_FFFF,
            s2 == p2 & 0x2F_FFFF,
    ;
    let k1: u64 = (s1 * 256 + distance1) as u64;
    let k2: u64 = (s2 * 256 + distance2) as u64;
    assert(compare_key(pc1, distance1) == k1);
    assert(compare_key(pc2, distance2) == k2);
    assert(k1 != k2);
    assert(k1 | 0x4000_0000_0000_0000 != k2 | 0x4000_0000_0000_0000) by (bit_vector)
        requires
            k1 != k2,
            k1 < 0x4000_0000,
            k2 < 0x4000_0000,
    ;
}

/// No edge feature is a compare feature.
pub proof fn lemma_edge_is_no_compare_feature(pc_index: usize, counter: u8, key: usize)
    ensures
        edge_key(pc_index, counter) != instr_key(key),
{
    lemma_edge_decodes(pc_index, counter);
    let k: u64 = key as u64;
    assert((k | 0x4000_0000_0000_0000) >> 62 != 0) by (bit_vector);
}

} // verus!
