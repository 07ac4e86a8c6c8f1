//! Value records shared by the host-side tree and the traversal kernel.

use vstd::prelude::*;

verus! {

/// Depth of the octree that the renderer walks by default: the root spans
/// `2^TREE_DEPTH` cells on every axis.
pub const TREE_DEPTH: u32 = 4;

/// Bit that marks a packed reference as a leaf.
pub const LEAF_TAG: u32 = 0x8000_0000;

/// The packed reference that stands for empty space.
pub const EMPTY_REF: u32 = 0xFFFF_FFFF;

/// Bit pattern of the single-precision number `1.0`.
pub const ONE_BITS: u32 = 0x3F80_0000;

/// What a packed reference points at.
pub enum NodeRef {
    /// No geometry below this reference.
    Empty,
    /// A populated leaf; the number indexes the voxel table.
    Leaf(nat),
    /// An inner node; the number indexes the node table.
    Branch(nat),
}

/// A 32-bit tagged reference into the packed tables.
///
/// All bits set means empty space. Otherwise the high bit set means a leaf
/// whose low 31 bits index the voxel table, and the high bit clear means a
/// branch whose value indexes the node table.
#[derive(Clone, Copy, PartialEq, Eq, Structural, Debug)]
pub struct PackedNode(pub u32);

impl View for PackedNode {
    type V = NodeRef;

    open spec fn view(&self) -> NodeRef {
        if self.0 == EMPTY_REF {
            NodeRef::Empty
        } else if self.0 >= LEAF_TAG {
            NodeRef::Leaf((self.0 - LEAF_TAG) as nat)
        } else {
            NodeRef::Branch(self.0 as nat)
        }
    }
}

impl PackedNode {
    /// The reference for empty space.
    pub fn empty() -> (r: PackedNode)
        ensures
            r.0 == EMPTY_REF,
            r@ == NodeRef::Empty,
    {
        PackedNode(EMPTY_REF)
    }

    /// The reference to entry `index` of the voxel table.
    pub fn leaf(index: u32) -> (r: PackedNode)
        requires
            index < LEAF_TAG - 1,
        ensures
            r.0 == index + LEAF_TAG,
            r@ == NodeRef::Leaf(index as nat),
    {
        assert(index | 0x8000_0000u32 == index + 0x8000_0000u32) by (bit_vector)
            requires
                index < 0x8000_0000u32,
        ;
        PackedNode(index | LEAF_TAG)
    }

    /// The reference to entry `index` of the node table.
    pub fn branch(index: u32) -> (r: PackedNode)
        requires
            index < LEAF_TAG,
        ensures
            r.0 == index,
            r@ == NodeRef::Branch(index as nat),
    {
        PackedNode(index)
    }

    /// True when the high bit is set; the empty reference counts as a leaf
    /// here, so test `is_empty` first.
    pub fn is_leaf(&self) -> (r: bool)
        ensures
            r == (self.0 >= LEAF_TAG),
            r == !(self@ is Branch),
    {
        self.0 >= LEAF_TAG
    }

    /// True for the all-ones reference.
    pub fn is_empty(&self) -> (r: bool)
        ensures
            r == (self.0 == EMPTY_REF),
            r == (self@ is Empty),
    {
        self.0 == EMPTY_REF
    }

    /// The low 31 bits: the voxel index of a populated leaf.
    pub fn voxel_index(&self) -> (r: u32)
        ensures
            r < LEAF_TAG,
            self.0 >= LEAF_TAG ==> r == self.0 - LEAF_TAG,
            self.0 < LEAF_TAG ==> r == self.0,
            self@ matches NodeRef::Leaf(i) ==> r == i,
    {
        let raw: u32 = self.0;
        assert(raw & 0x7FFF_FFFFu32 < 0x8000_0000u32) by (bit_vector);
        assert(raw >= 0x8000_0000u32 ==> raw & 0x7FFF_FFFFu32 == raw - 0x8000_0000u32)
            by (bit_vector);
        assert(raw < 0x8000_0000u32 ==> raw & 0x7FFF_FFFFu32 == raw) by (bit_vector);
        raw & 0x7FFF_FFFF
    }
}

/// Surface description of a voxel: 16 bytes, no padding.
///
/// Each component is the bit pattern of a single-precision number.
#[derive(Clone, Copy, PartialEq, Eq, Debug)]
pub struct Material {
    pub albedo: [u32; 3],
    pub roughness: u32,
}

/// One populated cell of the octree.
#[derive(Clone, Copy, PartialEq, Eq, Debug)]
pub struct Voxel {
    pub material: Material,
}

/// The block of per-frame constants handed to the kernel: 16 bytes.
///
/// `time` is the bit pattern of the elapsed seconds as a single-precision
/// number.
#[derive(Clone, Copy, Debug)]
pub struct ShaderConstants {
    pub width: u32,
    pub height: u32,
    pub time: u32,
    pub root_node: PackedNode,
}

} // verus!
