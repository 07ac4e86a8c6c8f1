use svo_tracer::PackedNode;

#[test]
fn empty_reference_is_all_ones() {
    let node = PackedNode::empty();
    assert_eq!(node, PackedNode(u32::MAX));
    assert!(node.is_empty());
    assert!(node.is_leaf());
}

#[test]
fn branch_reference_is_neither_leaf_nor_empty() {
    let node = PackedNode::branch(17);
    assert_eq!(node.0, 17);
    assert!(!node.is_empty());
    assert!(!node.is_leaf());
}

#[test]
fn leaf_reference_sets_the_high_bit() {
    let node = PackedNode::leaf(5);
    assert_eq!(node.0, 0x8000_0005);
    assert!(node.is_leaf());
    assert!(!node.is_empty());
    assert_eq!(node.voxel_index(), 5);
}

#[test]
fn leaf_test_is_the_high_bit() {
    assert!(!PackedNode(0x7FFF_FFFF).is_leaf());
    assert!(PackedNode(0x8000_0000).is_leaf());
    assert!(!PackedNode(0xFFFF_FFFE).is_empty());
}

#[test]
fn largest_leaf_index_is_not_the_empty_reference() {
    let node = PackedNode::leaf(0x7FFF_FFFE);
    assert_eq!(node.0, 0xFFFF_FFFE);
    assert!(!node.is_empty());
    assert_eq!(node.voxel_index(), 0x7FFF_FFFE);
}

#[test]
fn voxel_index_drops_the_high_bit_only() {
    assert_eq!(PackedNode(0x8000_0000).voxel_index(), 0);
    assert_eq!(PackedNode(0xFFFF_FFFF).voxel_index(), 0x7FFF_FFFF);
    assert_eq!(PackedNode(123).voxel_index(), 123);
}
