//! The packed tables and the constants block as the device reads them:
//! 32-bit words, and the bytes of those words in the byte order of the
//! machine that runs the program.

use vstd::prelude::*;
use vstd::endian::{endianness, Endian};
use crate::shared::{Material, PackedNode, ShaderConstants, Voxel};
use crate::svo::{node_table, PackedSparseVoxelOctree};

verus! {

/// The node table as words: eight per record, in octant order.
pub open spec fn node_words(nodes: Seq<Seq<PackedNode>>) -> Seq<u32> {
    Seq::new(8 * nodes.len(), |k: int| nodes[k / 8][k % 8].0)
}

/// Word `k` of a material record: the three albedo components, then the
/// roughness.
pub open spec fn material_word(material: Material, k: int) -> u32 {
    if 0 <= k < 3 {
        material.albedo[k]
    } else {
        material.roughness
    }
}

/// The voxel table as words: four per voxel.
pub open spec fn voxel_words(voxels: Seq<Voxel>) -> Seq<u32> {
    Seq::new(4 * voxels.len(), |k: int| material_word(voxels[k / 4].material, k % 4))
}

/// The constants block as words: width, height, time, root reference.
pub open spec fn constants_words(constants: ShaderConstants) -> Seq<u32> {
    seq![constants.width, constants.height, constants.time, constants.root_node.0]
}

/// Byte `k` of a word, byte 0 being the least significant.
pub open spec fn byte_of(word: u32, k: int) -> u8 {
    if k == 0 {
        (word % 256) as u8
    } else if k == 1 {
        ((word / 0x100) % 256) as u8
    } else if k == 2 {
        ((word / 0x1_0000) % 256) as u8
    } else {
        ((word / 0x100_0000) % 256) as u8
    }
}

/// The bytes of a sequence of words, least significant byte first.
pub open spec fn little_endian_bytes(words: Seq<u32>) -> Seq<u8> {
    Seq::new(4 * words.len(), |k: int| byte_of(words[k / 4], k % 4))
}

/// The bytes of a sequence of words, most significant byte first.
pub open spec fn big_endian_bytes(words: Seq<u32>) -> Seq<u8> {
    Seq::new(4 * words.len(), |k: int| byte_of(words[k / 4], 3 - k % 4))
}

/// The bytes of a sequence of words as they lie in the memory of the
/// machine that runs the program.
pub open spec fn native_bytes(words: Seq<u32>) -> Seq<u8> {
    match endianness() {
        Endian::Little => little_endian_bytes(words),
        Endian::Big => big_endian_bytes(words),
    }
}

/// Reinterprets the words as bytes by `bytemuck::cast_slice` and copies
/// them out.
///
/// The cast hands back the memory of the slice unchanged, four bytes per
/// word, so the bytes of each word come in the byte order of the machine.
/// From `u32` to `u8` the cast has no failure case: the target is no more
/// strictly aligned and every length divides evenly.
#[verifier::external_body]
fn cast_words(words: &Vec<u32>) -> (bytes: Vec<u8>)
    ensures
        bytes@ == native_bytes(words@),
{
    bytemuck::cast_slice::<u32, u8>(words.as_slice()).to_vec()
}

impl PackedSparseVoxelOctree {
    /// The node table as words.
    pub fn node_words(&self) -> (words: Vec<u32>)
        ensures
            words@ == node_words(self@.nodes),
    {
        let ghost table = node_table(self.nodes@);
        let mut words: Vec<u32> = Vec::new();
        let mut i: usize = 0;
        while i < self.nodes.len()
            invariant
                i <= self.nodes.len(),
                table == node_table(self.nodes@),
                words.len() == 8 * i,
                forall|k: int| 0 <= k < 8 * i ==> #[trigger] words[k] == table[k / 8][k % 8].0,
            decreases self.nodes.len() - i,
        {
            let mut j: usize = 0;
            while j < 8
                invariant
                    j <= 8,
                    i < self.nodes.len(),
                    table == node_table(self.nodes@),
                    words.len() == 8 * i + j,
                    forall|k: int|
                        0 <= k < 8 * i + j ==> #[trigger] words[k] == table[k / 8][k % 8].0,
                decreases 8 - j,
            {
                assert(table[i as int] == self.nodes@[i as int]@);
                words.push(self.nodes[i][j].0);
                j = j + 1;
            }
            i = i + 1;
        }
        assert(words@ =~= node_words(table));
        words
    }

    /// The voxel table as words.
    pub fn voxel_words(&self) -> (words: Vec<u32>)
        ensures
            words@ == voxel_words(self@.voxels),
    {
        let mut words: Vec<u32> = Vec::new();
        let mut i: usize = 0;
        while i < self.voxels.len()
            invariant
                i <= self.voxels.len(),
                words.len() == 4 * i,
                forall|k: int|
                    0 <= k < 4 * i ==> #[trigger] words[k] == material_word(
                        self.voxels@[k / 4].material,
                        k % 4,
                    ),
            decreases self.voxels.len() - i,
        {
            let material = self.voxels[i].material;
            words.push(material.albedo[0]);
            words.push(material.albedo[1]);
            words.push(material.albedo[2]);
            words.push(material.roughness);
            i = i + 1;
        }
        assert(words@ =~= voxel_words(self.voxels@));
        words
    }

    /// The node table as the bytes that are handed to the device: 32 per
    /// record.
    pub fn node_bytes(&self) -> (bytes: Vec<u8>)
        ensures
            bytes@ == native_bytes(node_words(self@.nodes)),
            bytes.len() == 32 * self.nodes.len(),
    {
        let words = self.node_words();
        cast_words(&words)
    }

    /// The voxel table as the bytes that are handed to the device: 16 per
    /// voxel.
    pub fn voxel_bytes(&self) -> (bytes: Vec<u8>)
        ensures
            bytes@ == native_bytes(voxel_words(self@.voxels)),
            bytes.len() == 16 * self.voxels.len(),
    {
        let words = self.voxel_words();
        cast_words(&words)
    }
}

impl ShaderConstants {
    /// The block as its four words.
    pub fn words(&self) -> (words: Vec<u32>)
        ensures
            words@ == constants_words(*self),
    {
        let mut words: Vec<u32> = Vec::new();
        words.push(self.width);
        words.push(self.height);
        words.push(self.time);
        words.push(self.root_node.0);
        assert(words@ =~= constants_words(*self));
        words
    }

    /// The block as the 16 bytes that are handed to the device.
    pub fn bytes(&self) -> (bytes: Vec<u8>)
        ensures
            bytes@ == native_bytes(constants_words(*self)),
            bytes.len() == 16,
    {
        let words = self.words();
        cast_words(&words)
    }
}

} // verus!
