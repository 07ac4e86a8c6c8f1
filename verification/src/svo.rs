//! The host-side octree: construction, point queries and insertion.

use vstd::prelude::*;
use vstd::arithmetic::power2::{lemma_pow2_pos, lemma_pow2_unfold, pow2};
use crate::sampling::{lemma_sampled, plausible, random_leaf, sampled, UNIT_STEPS};
use crate::shared::{PackedNode, Voxel, EMPTY_REF, LEAF_TAG};
use crate::tree::{octant, uniform_children, PackedTree, Tree};

verus! {

/// A node of the host-side octree.
///
/// A branch owns its children, one per octant; a well-formed branch has
/// exactly eight. A leaf holds a voxel or stands for empty space.
pub enum Node {
    Branch { children: Vec<Node> },
    Leaf(Option<Voxel>),
}

/// The octree flattened into two tables and a root reference: a
/// self-contained, read-only snapshot.
///
/// `nodes` holds one record of eight references per branch, children before
/// parents; `voxels` holds one entry per populated leaf.
pub struct PackedSparseVoxelOctree {
    pub root: PackedNode,
    pub nodes: Vec<[PackedNode; 8]>,
    pub voxels: Vec<Voxel>,
}

/// An octree together with the depth that fixes its extent: the root spans
/// `2^max_depth` cells on every axis.
pub struct SparseVoxelOctree {
    root: Node,
    max_depth: u32,
}

/// A count as a 64-bit word: the largest word where it does not fit.
pub open spec fn capped(count: nat) -> u64 {
    if count > u64::MAX {
        u64::MAX
    } else {
        count as u64
    }
}

/// The node table as a sequence of eight-entry sequences.
pub open spec fn node_table(nodes: Seq<[PackedNode; 8]>) -> Seq<Seq<PackedNode>> {
    nodes.map_values(|record: [PackedNode; 8]| record@)
}

impl View for PackedSparseVoxelOctree {
    type V = PackedTree;

    open spec fn view(&self) -> PackedTree {
        PackedTree { root: self.root, nodes: node_table(self.nodes@), voxels: self.voxels@ }
    }
}

impl View for Node {
    type V = Tree;

    open spec fn view(&self) -> Tree {
        self.tree()
    }
}

/// `2^exponent` as a machine word.
pub fn pow2_u32(exponent: u32) -> (r: u32)
    requires
        exponent <= 31,
    ensures
        r == pow2(exponent as nat),
        r >= 1,
{
    proof {
        vstd::bits::lemma_u32_pow2_no_overflow(exponent as nat);
        vstd::bits::lemma_u32_shl_is_mul(1u32, exponent);
    }
    1u32 << exponent
}

/// The octant of `(x, y, z)` in a cell of half-size `size`: the three
/// comparisons against `size`, interleaved as bits 0, 1 and 2.
pub fn octant_index(x: u32, y: u32, z: u32, size: u32) -> (index: usize)
    ensures
        index == octant(x as nat, y as nat, z as nat, size as nat),
        index < 8,
{
    let bit_x: usize = if x >= size { 1 } else { 0 };
    let bit_y: usize = if y >= size { 1 } else { 0 };
    let bit_z: usize = if z >= size { 1 } else { 0 };
    assert(bit_x << 0 | bit_y << 1 | bit_z << 2 == bit_x + 2 * bit_y + 4 * bit_z) by (bit_vector)
        requires
            bit_x <= 1,
            bit_y <= 1,
            bit_z <= 1,
    ;
    bit_x << 0 | bit_y << 1 | bit_z << 2
}

impl Node {
    /// The mathematical tree that this node stands for.
    pub open spec fn tree(self) -> Tree
        decreases self, 0nat,
    {
        match self {
            Node::Leaf(voxel) => Tree::Leaf(voxel),
            Node::Branch { children } => Tree::Branch(Self::trees(children@, children@.len())),
        }
    }

    /// The trees of the first `n` of `children`, in order.
    pub open spec fn trees(children: Seq<Node>, n: nat) -> Seq<Tree>
        decreases children, n,
    {
        if n == 0 || n > children.len() {
            Seq::empty()
        } else {
            Self::trees(children, (n - 1) as nat).push(children[n - 1].tree())
        }
    }

    /// `trees` maps `tree` over a prefix.
    pub proof fn lemma_trees(children: Seq<Node>, n: nat)
        requires
            n <= children.len(),
        ensures
            Self::trees(children, n).len() == n,
            forall|i: int|
                0 <= i < n ==> (#[trigger] Self::trees(children, n)[i]) == children[i]@,
        decreases n,
    {
        if n > 0 {
            Self::lemma_trees(children, (n - 1) as nat);
        }
    }

    /// The view of a leaf is a leaf; the view of a branch is the branch of
    /// the views of its children.
    pub proof fn lemma_view(self)
        ensures
            self matches Node::Leaf(voxel) ==> self@ == Tree::Leaf(voxel),
            self matches Node::Branch { children } ==> {
                &&& self@ is Branch
                &&& self@->Branch_0.len() == children.len()
                &&& forall|i: int|
                    0 <= i < children.len() ==> self@->Branch_0[i] == (#[trigger] children[i])@
            },
    {
        match self {
            Node::Leaf(_) => {},
            Node::Branch { children } => {
                Self::lemma_trees(children@, children@.len());
            },
        }
    }

    /// A complete tree of the given depth whose leaves are filled at random:
    /// every leaf gets a voxel with an albedo drawn uniformly from `[0, 1)`
    /// on each channel and roughness one.
    ///
    /// `(x, y, z)` is the origin of the tree's cell in voxel units. It takes
    /// no part in the filling.
    pub fn new(depth: u32, x: usize, y: usize, z: usize) -> (r: Node)
        requires
            depth <= 32,
            x + pow2(depth as nat) - 1 <= usize::MAX,
            y + pow2(depth as nat) - 1 <= usize::MAX,
            z + pow2(depth as nat) - 1 <= usize::MAX,
        ensures
            r@.complete(depth as nat),
            sampled(r@, 0),
            r@.populated(),
            plausible(r@),
    {
        Node::with_threshold(depth, x, y, z, 0)
    }

    /// A complete tree of the given depth whose leaves are filled at random
    /// under a fill threshold: each leaf, independently of the others, is
    /// populated when a uniform draw from `[0, 1)` is at least `threshold /
    /// 2^24`, and is empty otherwise. A threshold of zero populates every
    /// leaf; one of `2^24` or more leaves every leaf empty.
    pub fn with_threshold(depth: u32, x: usize, y: usize, z: usize, threshold: u32) -> (r: Node)
        requires
            depth <= 32,
            x + pow2(depth as nat) - 1 <= usize::MAX,
            y + pow2(depth as nat) - 1 <= usize::MAX,
            z + pow2(depth as nat) - 1 <= usize::MAX,
        ensures
            r@.complete(depth as nat),
            sampled(r@, threshold),
            threshold == 0 ==> r@.populated(),
            threshold >= UNIT_STEPS ==> r@.vacant(),
            plausible(r@),
        decreases depth,
    {
        if depth == 0 {
            let r = random_leaf(threshold);
            proof {
                lemma_sampled(r@, threshold);
            }
            r
        } else {
            let child_depth: u32 = depth - 1;
            proof {
                lemma_pow2_unfold(depth as nat);
                lemma_pow2_pos(child_depth as nat);
                vstd::bits::lemma_usize_shl_is_mul(1usize, child_depth as usize);
            }
            let child_size: usize = 1usize << child_depth;
            let mut children: Vec<Node> = Vec::new();
            let mut i: usize = 0;
            while i < 8
                invariant
                    i <= 8,
                    children.len() == i,
                    depth == child_depth + 1,
                    child_depth <= 31,
                    child_size == pow2(child_depth as nat),
                    x + 2 * child_size - 1 <= usize::MAX,
                    y + 2 * child_size - 1 <= usize::MAX,
                    z + 2 * child_size - 1 <= usize::MAX,
                    forall|j: int|
                        0 <= j < i ==> {
                            &&& (#[trigger] children[j])@.complete(child_depth as nat)
                            &&& sampled(children[j]@, threshold)
                        },
                decreases 8 - i,
            {
                let dx: usize = if i % 2 == 1 { child_size } else { 0 };
                let dy: usize = if (i / 2) % 2 == 1 { child_size } else { 0 };
                let dz: usize = if i / 4 == 1 { child_size } else { 0 };
                let child = Node::with_threshold(child_depth, x + dx, y + dy, z + dz, threshold);
                children.push(child);
                i = i + 1;
            }
            let r = Node::Branch { children };
            proof {
                r.lemma_view();
                let kids = r@->Branch_0;
                assert forall|j: int| 0 <= j < 8 implies {
                    &&& (#[trigger] kids[j]).complete(child_depth as nat)
                    &&& sampled(kids[j], threshold)
                } by {
                    assert(kids[j] == children[j]@);
                }
                lemma_sampled(r@, threshold);
            }
            r
        }
    }

    /// A branch whose eight children are copies of one leaf.
    pub fn uniform(voxel: Option<Voxel>) -> (r: Node)
        ensures
            r@ == Tree::Branch(uniform_children(voxel)),
            r@.wf(),
    {
        let mut children: Vec<Node> = Vec::new();
        let mut i: usize = 0;
        while i < 8
            invariant
                i <= 8,
                children.len() == i,
                forall|j: int| 0 <= j < i ==> (#[trigger] children[j]) == Node::Leaf(voxel),
            decreases 8 - i,
        {
            children.push(Node::Leaf(voxel));
            i = i + 1;
        }
        let r = Node::Branch { children };
        proof {
            r.lemma_view();
            assert forall|j: int| 0 <= j < 8 implies r@->Branch_0[j] == Tree::Leaf(voxel) by {
                assert(children[j]@ == Tree::Leaf(voxel));
            }
            assert(r@->Branch_0 =~= uniform_children(voxel));
            assert forall|j: int| 0 <= j < 8 implies (#[trigger] r@->Branch_0[j]).wf() by {}
        }
        r
    }

    /// Descends from this node to the leaf that holds `(x, y, z)` and
    /// returns its voxel, if it has one. `size` is the half-size of this
    /// node's cell.
    pub fn get(&self, x: u32, y: u32, z: u32, size: u32) -> (r: Option<&Voxel>)
        requires
            self@.fits(size as nat),
        ensures
            r.is_some() == self@.get(x as nat, y as nat, z as nat, size as nat).is_some(),
            r matches Some(voxel) ==> self@.get(x as nat, y as nat, z as nat, size as nat)
                == Some(*voxel),
        decreases self,
    {
        proof {
            self.lemma_view();
        }
        match self {
            Node::Leaf(voxel) => match voxel {
                Some(v) => Some(v),
                None => None,
            },
            Node::Branch { children } => {
                let index = octant_index(x, y, z, size);
                assert(children@[index as int]@ == self@->Branch_0[index as int]);
                children[index].get(x % size, y % size, z % size, size / 2)
            },
        }
    }

    /// Replaces the subtree `depth` levels down the descent towards
    /// `(x, y, z)` by `node`. A leaf met on the way is first turned into a
    /// branch of eight copies of itself, so what it held stays in the seven
    /// octants that the descent does not enter. Every branch keeps its eight
    /// children when those of `node` have theirs.
    pub fn insert(&mut self, x: u32, y: u32, z: u32, node: Node, size: u32, depth: u32)
        requires
            old(self)@.wf(),
            depth > 0 ==> size >= pow2((depth - 1) as nat),
        ensures
            final(self)@ == old(self)@.insert(
                x as nat,
                y as nat,
                z as nat,
                node@,
                size as nat,
                depth as nat,
            ),
            node@.wf() ==> final(self)@.wf(),
            old(self)@.fits(size as nat) && node@.fits(size as nat / pow2(depth as nat))
                ==> final(self)@.fits(size as nat),
        decreases depth,
    {
        proof {
            if node@.wf() {
                self@.lemma_insert_wf(
                    x as nat,
                    y as nat,
                    z as nat,
                    node@,
                    size as nat,
                    depth as nat,
                );
            }
            if self@.fits(size as nat) && node@.fits(size as nat / pow2(depth as nat)) {
                self@.lemma_insert_fits(
                    x as nat,
                    y as nat,
                    z as nat,
                    node@,
                    size as nat,
                    depth as nat,
                );
            }
        }
        if depth == 0 {
            *self = node;
            return ;
        }
        proof {
            lemma_pow2_pos((depth - 1) as nat);
            if depth > 1 {
                lemma_pow2_unfold((depth - 1) as nat);
            }
            self.lemma_view();
        }
        let ghost before = self@.expanded();
        if let Node::Leaf(voxel) = self {
            let held: Option<Voxel> = *voxel;
            *self = Node::uniform(held);
        }
        assert(self@ == Tree::Branch(before));
        proof {
            self.lemma_view();
        }
        match self {
            Node::Branch { children } => {
                let index = octant_index(x, y, z, size);
                let ghost kids = children@;
                assert(kids[index as int]@ == before[index as int]);
                children[index].insert(x % size, y % size, z % size, node, size / 2, depth - 1);
                proof {
                    let after = children@;
                    assert(after == kids.update(index as int, after[index as int]));
                    let now = Node::Branch { children: *children };
                    now.lemma_view();
                    assert forall|j: int| 0 <= j < 8 implies now@->Branch_0[j] == before.update(
                        index as int,
                        after[index as int]@,
                    )[j] by {
                        assert(now@->Branch_0[j] == after[j]@);
                        if j != index {
                            assert(after[j] == kids[j]);
                            assert(kids[j]@ == before[j]);
                        }
                    }
                    assert(now@->Branch_0 =~= before.update(index as int, after[index as int]@));
                }
            },
            Node::Leaf(_) => {},
        }
    }

    /// The numbers of branches and of populated leaves in this subtree, each
    /// stopping at the largest 64-bit value.
    pub fn counts(&self) -> (r: (u64, u64))
        requires
            self@.wf(),
        ensures
            r.0 == capped(self@.branch_count()),
            r.1 == capped(self@.voxel_count()),
        decreases self,
    {
        proof {
            self.lemma_view();
        }
        match self {
            Node::Branch { children } => {
                let ghost kids = self@->Branch_0;
                let mut branches: u64 = 1;
                let mut voxels: u64 = 0;
                let mut i: usize = 0;
                while i < 8
                    invariant
                        i <= 8,
                        children.len() == 8,
                        *self == (Node::Branch { children: *children }),
                        kids.len() == 8,
                        self@.wf(),
                        self@ == Tree::Branch(kids),
                        forall|j: int| 0 <= j < 8 ==> kids[j] == (#[trigger] children[j])@,
                        branches == capped(1 + Tree::branch_count_of(kids, i as nat)),
                        voxels == capped(Tree::voxel_count_of(kids, i as nat)),
                    decreases 8 - i,
                {
                    assert(kids[i as int].wf());
                    let (b, v) = children[i].counts();
                    branches = branches.saturating_add(b);
                    voxels = voxels.saturating_add(v);
                    i = i + 1;
                }
                (branches, voxels)
            },
            Node::Leaf(Some(_)) => (0, 1),
            Node::Leaf(None) => (0, 0),
        }
    }

    /// Whether packing this subtree into empty tables stays within the
    /// 31-bit indices of the packed references.
    pub fn is_packable(&self) -> (r: bool)
        requires
            self@.wf(),
        ensures
            r == self@.packable_after(0, 0),
    {
        let (branches, voxels) = self.counts();
        branches <= LEAF_TAG as u64 && voxels < LEAF_TAG as u64
    }

    /// Appends the packed form of this subtree to the two tables and
    /// returns the reference to it. Children are packed before their
    /// parent, in octant order.
    pub fn pack_traverse(&self, nodes: &mut Vec<[PackedNode; 8]>, voxels: &mut Vec<Voxel>) -> (r:
        PackedNode)
        requires
            self@.wf(),
            self@.packable_after(old(nodes).len() as nat, old(voxels).len() as nat),
        ensures
            r == self@.pack(node_table(old(nodes)@), old(voxels)@).root,
            node_table(final(nodes)@) == self@.pack(node_table(old(nodes)@), old(voxels)@).nodes,
            final(voxels)@ == self@.pack(node_table(old(nodes)@), old(voxels)@).voxels,
        decreases self,
    {
        let ghost nodes0 = node_table(nodes@);
        let ghost voxels0 = voxels@;
        proof {
            self.lemma_view();
        }
        match self {
            Node::Branch { children } => {
                let ghost kids = self@->Branch_0;
                let mut packed_children: [PackedNode; 8] = [PackedNode(EMPTY_REF);8];
                let mut i: usize = 0;
                while i < 8
                    invariant
                        i <= 8,
                        children.len() == 8,
                        *self == (Node::Branch { children: *children }),
                        kids.len() == 8,
                        self@ == Tree::Branch(kids),
                        self@.wf(),
                        forall|j: int| 0 <= j < 8 ==> kids[j] == (#[trigger] children[j])@,
                        nodes0.len() + self@.branch_count() <= LEAF_TAG,
                        voxels0.len() + self@.voxel_count() < LEAF_TAG,
                        node_table(nodes@) == Tree::pack_children(kids, i as nat, nodes0, voxels0).nodes,
                        voxels@ == Tree::pack_children(kids, i as nat, nodes0, voxels0).voxels,
                        forall|j: int|
                            0 <= j < i ==> packed_children@[j] == Tree::pack_children(
                                kids,
                                i as nat,
                                nodes0,
                                voxels0,
                            ).refs[j],
                    decreases 8 - i,
                {
                    proof {
                        Tree::lemma_pack_children_appends(kids, i as nat, nodes0, voxels0);
                        Tree::lemma_counts_monotone(kids, (i + 1) as nat, 8);
                        assert(kids[i as int].wf());
                    }
                    let child = children[i].pack_traverse(nodes, voxels);
                    packed_children[i] = child;
                    i = i + 1;
                }
                proof {
                    Tree::lemma_pack_children_appends(kids, 8, nodes0, voxels0);
                    assert(packed_children@ =~= Tree::pack_children(kids, 8, nodes0, voxels0).refs);
                }
                let branch_idx: usize = nodes.len();
                let ghost table = node_table(nodes@);
                nodes.push(packed_children);
                assert(node_table(nodes@) =~= table.push(packed_children@));
                PackedNode(branch_idx as u32)
            },
            Node::Leaf(Some(voxel)) => {
                let voxel_idx: usize = voxels.len();
                voxels.push(*voxel);
                PackedNode::leaf(voxel_idx as u32)
            },
            Node::Leaf(None) => PackedNode(EMPTY_REF),
        }
    }
}

impl View for SparseVoxelOctree {
    type V = Tree;

    closed spec fn view(&self) -> Tree {
        self.root@
    }
}

impl SparseVoxelOctree {
    /// The depth that fixes the extent of the tree.
    pub closed spec fn depth(&self) -> nat {
        self.max_depth as nat
    }

    /// The half-size of the root cell: `2^(depth - 1)`.
    pub open spec fn half(&self) -> nat {
        pow2((self.depth() - 1) as nat)
    }

    /// What holds of every octree: the depth is between 1 and 32, every
    /// branch has eight children, and no branch lies deeper than the depth
    /// allows. An insertion that would break this is not accepted.
    #[verifier::type_invariant]
    pub open spec fn wf(&self) -> bool {
        &&& 1 <= self.depth() <= 32
        &&& self@.fits(self.half())
    }

    /// A complete octree of the given depth with every leaf populated at
    /// random: see `Node::new`.
    pub fn new(depth: u32) -> (r: Self)
        requires
            1 <= depth <= 32,
        ensures
            r.wf(),
            r.depth() == depth,
            r@.complete(depth as nat),
            sampled(r@, 0),
            r@.populated(),
            plausible(r@),
    {
        Self::with_threshold(depth, 0)
    }

    /// A complete octree of the given depth with its leaves filled at
    /// random under a fill threshold: see `Node::with_threshold`.
    pub fn with_threshold(depth: u32, threshold: u32) -> (r: Self)
        requires
            1 <= depth <= 32,
        ensures
            r.wf(),
            r.depth() == depth,
            r@.complete(depth as nat),
            sampled(r@, threshold),
            threshold == 0 ==> r@.populated(),
            threshold >= UNIT_STEPS ==> r@.vacant(),
            plausible(r@),
    {
        proof {
            vstd::bits::lemma_u32_pow2_no_overflow(31);
            vstd::arithmetic::power2::lemma2_to64();
            if depth < 32 {
                vstd::arithmetic::power2::lemma_pow2_strictly_increases(depth as nat, 32);
            }
        }
        let root = Node::with_threshold(depth, 0, 0, 0, threshold);
        proof {
            root@.lemma_complete_fits(depth as nat, pow2((depth - 1) as nat));
            lemma_sampled(root@, threshold);
        }
        SparseVoxelOctree { root, max_depth: depth }
    }

    /// An octree with the given root and depth.
    pub fn from_root(root: Node, max_depth: u32) -> (r: Self)
        requires
            1 <= max_depth <= 32,
            root@.fits(pow2((max_depth - 1) as nat)),
        ensures
            r.wf(),
            r@ == root@,
            r.depth() == max_depth,
    {
        SparseVoxelOctree { root, max_depth }
    }

    /// The depth that fixes the extent of the tree.
    pub fn max_depth(&self) -> (r: u32)
        ensures
            r == self.depth(),
            self.wf(),
    {
        proof {
            use_type_invariant(self);
        }
        self.max_depth
    }

    /// The root node.
    pub fn root(&self) -> (r: &Node)
        ensures
            r@ == self@,
            self.wf(),
    {
        proof {
            use_type_invariant(self);
        }
        &self.root
    }

    /// The voxel of the cell `(x, y, z)`, if it has one. Coordinates beyond
    /// the extent are not rejected: only their remainders below the root
    /// are looked at, and the octant at the root is the upper one.
    pub fn get(&self, x: u32, y: u32, z: u32) -> (r: Option<&Voxel>)
        ensures
            r.is_some() == self@.get(x as nat, y as nat, z as nat, self.half()).is_some(),
            r matches Some(voxel) ==> self@.get(x as nat, y as nat, z as nat, self.half())
                == Some(*voxel),
    {
        proof {
            use_type_invariant(self);
        }
        let size = pow2_u32(self.max_depth - 1);
        self.root.get(x, y, z, size)
    }

    /// Replaces the subtree `depth` levels below the root, on the descent
    /// towards `(x, y, z)`, by `node`.
    ///
    /// An insertion deeper than the current depth raises the depth to
    /// `depth`. The shape of the tree above the insertion stays as it is, so
    /// the extent grows from `2^old` to `2^depth` cells and every cell that
    /// was there before now covers `2^(depth - old)` cells on each axis.
    ///
    /// The subtree must fit below the place it is put in: with `deepest`
    /// the larger of the current depth and `depth`, it may hold branches on
    /// `deepest - depth` levels at most.
    pub fn insert(&mut self, x: u32, y: u32, z: u32, node: Node, depth: u32)
        requires
            depth <= 32,
            node@.fits(
                pow2((vstd::math::max(old(self).depth() as int, depth as int) - 1) as nat) / pow2(
                    depth as nat,
                ),
            ),
        ensures
            final(self).depth() == vstd::math::max(old(self).depth() as int, depth as int),
            final(self)@ == old(self)@.insert(
                x as nat,
                y as nat,
                z as nat,
                node@,
                final(self).half(),
                depth as nat,
            ),
    {
        proof {
            use_type_invariant(&*self);
        }
        let ghost old_half = self.half();
        let deepest: u32 = if depth > self.max_depth { depth } else { self.max_depth };
        let size = pow2_u32(deepest - 1);
        proof {
            if self.max_depth < deepest {
                vstd::arithmetic::power2::lemma_pow2_strictly_increases(
                    (self.max_depth - 1) as nat,
                    (deepest - 1) as nat,
                );
            }
            self.root@.lemma_fits_monotone(old_half, size as nat);
            self.root@.lemma_fits_wf(size as nat);
            if 0 < depth < deepest {
                vstd::arithmetic::power2::lemma_pow2_strictly_increases(
                    (depth - 1) as nat,
                    (deepest - 1) as nat,
                );
            }
            self.root@.lemma_insert_fits(
                x as nat,
                y as nat,
                z as nat,
                node@,
                size as nat,
                depth as nat,
            );
        }
        let mut root = Node::Leaf(None);
        std::mem::swap(&mut self.root, &mut root);
        self.max_depth = deepest;
        root.insert(x, y, z, node, size, depth);
        self.root = root;
    }

    /// Whether the tree can be packed: the packed references index the node
    /// table with 31 bits and the voxel table with 31 bits less one value.
    pub fn is_packable(&self) -> (r: bool)
        ensures
            r == self@.packable_after(0, 0),
    {
        proof {
            use_type_invariant(self);
            self@.lemma_fits_wf(self.half());
        }
        self.root.is_packable()
    }

    /// Flattens the tree into the two tables, starting from empty tables.
    pub fn pack(&self) -> (r: PackedSparseVoxelOctree)
        requires
            self@.packable_after(0, 0),
        ensures
            r@ == self@.pack(Seq::empty(), Seq::empty()),
    {
        proof {
            use_type_invariant(self);
            self@.lemma_fits_wf(self.half());
        }
        let mut nodes: Vec<[PackedNode; 8]> = Vec::new();
        let mut voxels: Vec<Voxel> = Vec::new();
        assert(node_table(nodes@) =~= Seq::empty());
        let root = self.root.pack_traverse(&mut nodes, &mut voxels);
        PackedSparseVoxelOctree { voxels, nodes, root }
    }
}

} // verus!
