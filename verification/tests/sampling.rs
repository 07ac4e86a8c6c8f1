use svo_tracer::sampling::{leaf_from_samples, populates, random_leaf, unit_bits};
use svo_tracer::svo::Node;

fn unit_value(sample: u32) -> f32 {
    (sample >> 8) as f32 * (1.0 / 16_777_216.0)
}

#[test]
fn unit_bits_of_zero_is_zero() {
    assert_eq!(unit_bits(0), 0);
    assert_eq!(unit_bits(255), 0);
}

#[test]
fn unit_bits_of_known_samples() {
    // one half
    assert_eq!(unit_bits(0x8000_0000), 0x3F00_0000);
    // one quarter
    assert_eq!(unit_bits(0x4000_0000), 0x3E80_0000);
    // three quarters
    assert_eq!(unit_bits(0xC000_0000), 0x3F40_0000);
    // the smallest step, 2^-24
    assert_eq!(unit_bits(0x0000_0100), 0x3380_0000);
    // the largest value, 1 - 2^-24
    assert_eq!(unit_bits(0xFFFF_FFFF), 0x3F7F_FFFF);
}

#[test]
fn unit_bits_is_the_bit_pattern_of_the_scaled_sample() {
    let mut sample: u32 = 1;
    for _ in 0..2000 {
        assert_eq!(f32::from_bits(unit_bits(sample)), unit_value(sample));
        assert_eq!(unit_bits(sample), unit_value(sample).to_bits());
        sample = sample.wrapping_mul(1_664_525).wrapping_add(1_013_904_223);
    }
    for shift in 0..32 {
        let sample = 1u32 << shift;
        assert_eq!(unit_bits(sample), unit_value(sample).to_bits());
        assert_eq!(unit_bits(sample - 1), unit_value(sample - 1).to_bits());
        assert_eq!(unit_bits(!sample), unit_value(!sample).to_bits());
    }
}

#[test]
fn unit_bits_stays_below_one() {
    for sample in [0u32, 1, 0x100, 0x7FFF_FFFF, 0x8000_0000, 0xFFFF_FF00, 0xFFFF_FFFF] {
        let value = f32::from_bits(unit_bits(sample));
        assert!((0.0..1.0).contains(&value));
    }
}

#[test]
fn leaf_is_populated_at_or_above_the_threshold() {
    let threshold = 0x80_0000;
    match leaf_from_samples(0x8000_0000, 0x4000_0000, 0x8000_0000, 0xC000_0000, threshold) {
        Node::Leaf(Some(voxel)) => {
            assert_eq!(f32::from_bits(voxel.material.albedo[0]), 0.25);
            assert_eq!(f32::from_bits(voxel.material.albedo[1]), 0.5);
            assert_eq!(f32::from_bits(voxel.material.albedo[2]), 0.75);
            assert_eq!(f32::from_bits(voxel.material.roughness), 1.0);
        }
        _ => panic!("a populated leaf was expected"),
    }
    assert!(matches!(leaf_from_samples(0x7FFF_FFFF, 1, 2, 3, threshold), Node::Leaf(None)));
    assert!(matches!(leaf_from_samples(0x8000_00FF, 1, 2, 3, threshold), Node::Leaf(Some(_))));
}

#[test]
fn threshold_zero_always_populates() {
    assert!(matches!(leaf_from_samples(0, 0, 0, 0, 0), Node::Leaf(Some(_))));
    assert!(matches!(leaf_from_samples(u32::MAX, 0, 0, 0, 0), Node::Leaf(Some(_))));
}

#[test]
fn threshold_above_every_sample_never_populates() {
    assert!(matches!(leaf_from_samples(u32::MAX, 0, 0, 0, 0x100_0000), Node::Leaf(None)));
    assert!(matches!(leaf_from_samples(u32::MAX, 0, 0, 0, u32::MAX), Node::Leaf(None)));
    assert!(matches!(leaf_from_samples(u32::MAX, 0, 0, 0, 0xFF_FFFF), Node::Leaf(Some(_))));
}

#[test]
fn random_leaves_differ() {
    // Thirty-two leaves with three 24-bit channels each: all equal only if the
    // generator handed the same words back every time.
    let first = random_leaf(0);
    let same = (0..32).all(|_| match (&first, random_leaf(0)) {
        (Node::Leaf(Some(a)), Node::Leaf(Some(b))) => *a == b,
        _ => false,
    });
    assert!(!same);
}

#[test]
fn random_leaf_respects_the_extremes() {
    for _ in 0..64 {
        assert!(matches!(random_leaf(0), Node::Leaf(Some(_))));
        assert!(matches!(random_leaf(0x100_0000), Node::Leaf(None)));
    }
}

#[test]
fn fill_draw_is_compared_by_its_upper_24_bits() {
    assert!(populates(0, 0));
    assert!(!populates(0x0000_00FF, 1));
    assert!(populates(0x0000_0100, 1));
    assert!(populates(0x8000_0000, 0x80_0000));
    assert!(!populates(0x7FFF_FFFF, 0x80_0000));
    assert!(!populates(u32::MAX, 0x100_0000));
}
