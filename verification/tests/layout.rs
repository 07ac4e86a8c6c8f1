use svo_tracer::svo::{Node, SparseVoxelOctree};
use svo_tracer::{Material, PackedNode, ShaderConstants, Voxel};

fn numbered(n: u32) -> Voxel {
    Voxel { material: Material { albedo: [n, n + 1, n + 2], roughness: n + 3 } }
}

fn native(words: &[u32]) -> Vec<u8> {
    words.iter().flat_map(|w| w.to_ne_bytes()).collect()
}

fn sample_tree() -> SparseVoxelOctree {
    let mut tree = SparseVoxelOctree::from_root(Node::Leaf(None), 2);
    tree.insert(0, 0, 0, Node::Leaf(Some(numbered(0x0102_0304))), 2);
    tree.insert(3, 3, 3, Node::Leaf(Some(numbered(0xA0B0_C0D0))), 1);
    tree
}

#[test]
fn node_words_are_eight_per_record() {
    let packed = sample_tree().pack();
    let words = packed.node_words();
    assert_eq!(words.len(), 16);
    let expected: Vec<u32> = packed.nodes.iter().flat_map(|r| r.iter().map(|n| n.0)).collect();
    assert_eq!(words, expected);
    assert_eq!(
        words,
        vec![
            0x8000_0000, u32::MAX, u32::MAX, u32::MAX, u32::MAX, u32::MAX, u32::MAX, u32::MAX,
            0, u32::MAX, u32::MAX, u32::MAX, u32::MAX, u32::MAX, u32::MAX, 0x8000_0001,
        ]
    );
}

#[test]
fn voxel_words_are_four_per_voxel() {
    let packed = sample_tree().pack();
    assert_eq!(
        packed.voxel_words(),
        vec![
            0x0102_0304, 0x0102_0305, 0x0102_0306, 0x0102_0307,
            0xA0B0_C0D0, 0xA0B0_C0D1, 0xA0B0_C0D2, 0xA0B0_C0D3,
        ]
    );
}

#[test]
fn node_bytes_are_the_words_in_machine_byte_order() {
    let packed = sample_tree().pack();
    let bytes = packed.node_bytes();
    assert_eq!(bytes.len(), 32 * packed.nodes.len());
    assert_eq!(bytes, native(&packed.node_words()));
    assert_eq!(&bytes[0..4], &0x8000_0000u32.to_ne_bytes());
    assert_eq!(&bytes[60..64], &0x8000_0001u32.to_ne_bytes());
}

#[test]
fn voxel_bytes_are_sixteen_per_voxel() {
    let packed = sample_tree().pack();
    let bytes = packed.voxel_bytes();
    assert_eq!(bytes.len(), 16 * packed.voxels.len());
    assert_eq!(bytes, native(&packed.voxel_words()));
    assert_eq!(&bytes[0..4], &0x0102_0304u32.to_ne_bytes());
    assert_eq!(&bytes[28..32], &0xA0B0_C0D3u32.to_ne_bytes());
}

#[test]
fn bytes_of_empty_tables_are_empty() {
    let packed = SparseVoxelOctree::from_root(Node::Leaf(None), 1).pack();
    assert!(packed.node_words().is_empty());
    assert!(packed.node_bytes().is_empty());
    assert!(packed.voxel_bytes().is_empty());
}

#[test]
fn constants_block_is_sixteen_bytes() {
    let constants = ShaderConstants {
        width: 800,
        height: 500,
        time: 1.5f32.to_bits(),
        root_node: PackedNode(72),
    };
    assert_eq!(constants.words(), vec![800, 500, 0x3FC0_0000, 72]);
    let bytes = constants.bytes();
    assert_eq!(bytes.len(), 16);
    assert_eq!(bytes, native(&[800, 500, 0x3FC0_0000, 72]));
    assert_eq!(f32::from_ne_bytes([bytes[8], bytes[9], bytes[10], bytes[11]]), 1.5);
}
