//! The mathematical octree: what the host-side `Node` stands for.

use vstd::prelude::*;
use vstd::arithmetic::div_mod::lemma_div_denominator;
use vstd::arithmetic::power2::{lemma_pow2_pos, lemma_pow2_unfold, pow2};
use crate::shared::{Material, PackedNode, Voxel, EMPTY_REF, LEAF_TAG};

verus! {

/// An octree as a value of the specification language.
pub enum Tree {
    /// An inner node and its children, one per octant.
    Branch(Seq<Tree>),
    /// A terminal cell: a voxel, or empty space.
    Leaf(Option<Voxel>),
}

/// The packed form of an octree as a value of the specification language:
/// a root reference, the node table as a sequence of eight-entry records, and
/// the voxel table.
pub struct PackedTree {
    pub root: PackedNode,
    pub nodes: Seq<Seq<PackedNode>>,
    pub voxels: Seq<Voxel>,
}

/// What packing the first children of a branch gives: their references in
/// octant order, and the two tables as they stand after the last of them.
pub struct PackedChildren {
    pub refs: Seq<PackedNode>,
    pub nodes: Seq<Seq<PackedNode>>,
    pub voxels: Seq<Voxel>,
}

/// The child that holds the point `(x, y, z)` of a cell whose half-size is
/// `half`: bit 0 is set when `x` lies in the upper half, bit 1 for `y`,
/// bit 2 for `z`.
pub open spec fn octant(x: nat, y: nat, z: nat, half: nat) -> int {
    (if x >= half { 1int } else { 0int }) + (if y >= half { 2int } else { 0int }) + (if z >= half {
        4int
    } else {
        0int
    })
}

/// `big` starts with `small`.
pub open spec fn extends<T>(big: Seq<T>, small: Seq<T>) -> bool {
    &&& small.len() <= big.len()
    &&& forall|i: int| 0 <= i < small.len() ==> #[trigger] big[i] == small[i]
}

/// The material of a voxel that may be absent.
pub open spec fn material_of(voxel: Option<Voxel>) -> Option<Material> {
    match voxel {
        Some(v) => Some(v.material),
        None => None,
    }
}

/// Eight copies of one leaf.
pub open spec fn uniform_children(voxel: Option<Voxel>) -> Seq<Tree> {
    Seq::new(8, |i: int| Tree::Leaf(voxel))
}

impl Tree {
    /// Every branch has exactly eight children.
    pub open spec fn wf(self) -> bool
        decreases self,
    {
        match self {
            Tree::Leaf(_) => true,
            Tree::Branch(children) => children.len() == 8 && forall|i: int|
                0 <= i < children.len() ==> (#[trigger] children[i]).wf(),
        }
    }

    /// The tree is well formed and a descent that starts at its root with
    /// half-size `half` and halves it at each level never meets a branch
    /// with half-size zero.
    pub open spec fn fits(self, half: nat) -> bool
        decreases self,
    {
        match self {
            Tree::Leaf(_) => true,
            Tree::Branch(children) => half > 0 && children.len() == 8 && forall|i: int|
                0 <= i < children.len() ==> (#[trigger] children[i]).fits(half / 2),
        }
    }

    /// Every leaf lies exactly `depth` levels below the root.
    pub open spec fn complete(self, depth: nat) -> bool
        decreases self,
    {
        match self {
            Tree::Leaf(_) => depth == 0,
            Tree::Branch(children) => depth > 0 && children.len() == 8 && forall|i: int|
                0 <= i < children.len() ==> (#[trigger] children[i]).complete((depth - 1) as nat),
        }
    }

    /// Every leaf holds a voxel.
    pub open spec fn populated(self) -> bool
        decreases self,
    {
        match self {
            Tree::Leaf(voxel) => voxel is Some,
            Tree::Branch(children) => forall|i: int|
                0 <= i < children.len() ==> (#[trigger] children[i]).populated(),
        }
    }

    /// No leaf holds a voxel.
    pub open spec fn vacant(self) -> bool
        decreases self,
    {
        match self {
            Tree::Leaf(voxel) => voxel is None,
            Tree::Branch(children) => forall|i: int|
                0 <= i < children.len() ==> (#[trigger] children[i]).vacant(),
        }
    }

    /// The children of a branch; for a leaf, the eight copies of it that
    /// take its place when an insertion has to go below it.
    pub open spec fn expanded(self) -> Seq<Tree> {
        match self {
            Tree::Leaf(voxel) => uniform_children(voxel),
            Tree::Branch(children) => children,
        }
    }

    /// The content of the leaf that a descent from this node reaches: at
    /// each branch the octant of `(x, y, z)` against `half` is taken, the
    /// coordinates are reduced modulo `half`, and `half` is halved.
    pub open spec fn get(self, x: nat, y: nat, z: nat, half: nat) -> Option<Voxel>
        decreases self,
    {
        match self {
            Tree::Leaf(voxel) => voxel,
            Tree::Branch(children) => if half == 0 || children.len() != 8 {
                None
            } else {
                children[octant(x, y, z, half)].get(x % half, y % half, z % half, half / 2)
            },
        }
    }

    /// The number of branches passed before a descent reaches a leaf.
    pub open spec fn leaf_level(self, x: nat, y: nat, z: nat, half: nat) -> nat
        decreases self,
    {
        match self {
            Tree::Leaf(_) => 0,
            Tree::Branch(children) => if half == 0 || children.len() != 8 {
                0
            } else {
                1 + children[octant(x, y, z, half)].leaf_level(
                    x % half,
                    y % half,
                    z % half,
                    half / 2,
                )
            },
        }
    }

    /// The tree in which the subtree `depth` levels down the descent
    /// towards `(x, y, z)` is `node`. A leaf met on the way is first
    /// replaced by a branch of eight copies of itself.
    pub open spec fn insert(
        self,
        x: nat,
        y: nat,
        z: nat,
        node: Tree,
        half: nat,
        depth: nat,
    ) -> Tree
        decreases depth,
    {
        if depth == 0 {
            node
        } else {
            let children = self.expanded();
            let i = octant(x, y, z, half);
            Tree::Branch(
                children.update(
                    i,
                    children[i].insert(
                        x % half,
                        y % half,
                        z % half,
                        node,
                        half / 2,
                        (depth - 1) as nat,
                    ),
                ),
            )
        }
    }
}

impl Tree {
    /// The number of branches in the tree.
    pub open spec fn branch_count(self) -> nat
        decreases self, 0nat,
    {
        match self {
            Tree::Leaf(_) => 0,
            Tree::Branch(children) => 1 + Self::branch_count_of(children, children.len()),
        }
    }

    /// The number of branches in the first `n` of `children`.
    pub open spec fn branch_count_of(children: Seq<Tree>, n: nat) -> nat
        decreases children, n,
    {
        if n == 0 || n > children.len() {
            0
        } else {
            Self::branch_count_of(children, (n - 1) as nat) + children[n - 1].branch_count()
        }
    }

    /// The number of populated leaves in the tree.
    pub open spec fn voxel_count(self) -> nat
        decreases self, 0nat,
    {
        match self {
            Tree::Leaf(voxel) => if voxel is Some {
                1
            } else {
                0
            },
            Tree::Branch(children) => Self::voxel_count_of(children, children.len()),
        }
    }

    /// The number of populated leaves in the first `n` of `children`.
    pub open spec fn voxel_count_of(children: Seq<Tree>, n: nat) -> nat
        decreases children, n,
    {
        if n == 0 || n > children.len() {
            0
        } else {
            Self::voxel_count_of(children, (n - 1) as nat) + children[n - 1].voxel_count()
        }
    }

    /// The tree's branch records and voxels all get an index that the
    /// 31-bit references can hold, whatever the tables hold already being
    /// counted by `nodes` and `voxels`.
    pub open spec fn packable_after(self, nodes: nat, voxels: nat) -> bool {
        &&& nodes + self.branch_count() <= LEAF_TAG
        &&& voxels + self.voxel_count() < LEAF_TAG
    }

    /// Packing into tables that already hold `nodes` and `voxels`: the
    /// children of a branch are packed first, in octant order, then the
    /// branch's own record is appended and referred to by its index. A
    /// populated leaf appends its voxel and is referred to by that index
    /// with the leaf tag; an empty leaf appends nothing.
    pub open spec fn pack(self, nodes: Seq<Seq<PackedNode>>, voxels: Seq<Voxel>) -> PackedTree
        decreases self, 0nat,
    {
        match self {
            Tree::Leaf(None) => PackedTree { root: PackedNode(EMPTY_REF), nodes, voxels },
            Tree::Leaf(Some(voxel)) => PackedTree {
                root: PackedNode((voxels.len() + LEAF_TAG) as u32),
                nodes,
                voxels: voxels.push(voxel),
            },
            Tree::Branch(children) => {
                let packed = Self::pack_children(children, children.len(), nodes, voxels);
                PackedTree {
                    root: PackedNode(packed.nodes.len() as u32),
                    nodes: packed.nodes.push(packed.refs),
                    voxels: packed.voxels,
                }
            },
        }
    }

    /// Packing the first `n` of `children`, one after the other.
    pub open spec fn pack_children(
        children: Seq<Tree>,
        n: nat,
        nodes: Seq<Seq<PackedNode>>,
        voxels: Seq<Voxel>,
    ) -> PackedChildren
        decreases children, n,
    {
        if n == 0 || n > children.len() {
            PackedChildren { refs: Seq::empty(), nodes, voxels }
        } else {
            let before = Self::pack_children(children, (n - 1) as nat, nodes, voxels);
            let child = children[n - 1].pack(before.nodes, before.voxels);
            PackedChildren {
                refs: before.refs.push(child.root),
                nodes: child.nodes,
                voxels: child.voxels,
            }
        }
    }

    /// Packing appends one record per branch and one voxel per populated
    /// leaf, and leaves what the tables held in place.
    pub proof fn lemma_pack_appends(self, nodes: Seq<Seq<PackedNode>>, voxels: Seq<Voxel>)
        ensures
            self.pack(nodes, voxels).nodes.len() == nodes.len() + self.branch_count(),
            self.pack(nodes, voxels).voxels.len() == voxels.len() + self.voxel_count(),
            self.pack(nodes, voxels).nodes.subrange(0, nodes.len() as int) == nodes,
            self.pack(nodes, voxels).voxels.subrange(0, voxels.len() as int) == voxels,
        decreases self, 0nat,
    {
        let packed = self.pack(nodes, voxels);
        match self {
            Tree::Leaf(_) => {
                assert(packed.nodes.subrange(0, nodes.len() as int) =~= nodes);
                assert(packed.voxels.subrange(0, voxels.len() as int) =~= voxels);
            },
            Tree::Branch(children) => {
                Self::lemma_pack_children_appends(children, children.len(), nodes, voxels);
                assert(packed.nodes.subrange(0, nodes.len() as int) =~= nodes);
                assert(packed.voxels.subrange(0, voxels.len() as int) =~= voxels);
            },
        }
    }

    /// The same for the first `n` children of a branch; their references
    /// number `n`.
    pub proof fn lemma_pack_children_appends(
        children: Seq<Tree>,
        n: nat,
        nodes: Seq<Seq<PackedNode>>,
        voxels: Seq<Voxel>,
    )
        requires
            n <= children.len(),
        ensures
            Self::pack_children(children, n, nodes, voxels).refs.len() == n,
            Self::pack_children(children, n, nodes, voxels).nodes.len() == nodes.len()
                + Self::branch_count_of(children, n),
            Self::pack_children(children, n, nodes, voxels).voxels.len() == voxels.len()
                + Self::voxel_count_of(children, n),
            Self::pack_children(children, n, nodes, voxels).nodes.subrange(0, nodes.len() as int)
                == nodes,
            Self::pack_children(children, n, nodes, voxels).voxels.subrange(
                0,
                voxels.len() as int,
            ) == voxels,
        decreases children, n,
    {
        let packed = Self::pack_children(children, n, nodes, voxels);
        if n == 0 {
            assert(packed.nodes.subrange(0, nodes.len() as int) =~= nodes);
            assert(packed.voxels.subrange(0, voxels.len() as int) =~= voxels);
        } else {
            let before = Self::pack_children(children, (n - 1) as nat, nodes, voxels);
            Self::lemma_pack_children_appends(children, (n - 1) as nat, nodes, voxels);
            children[n - 1].lemma_pack_appends(before.nodes, before.voxels);
            assert(packed.nodes.subrange(0, nodes.len() as int) =~= before.nodes.subrange(
                0,
                nodes.len() as int,
            ));
            assert(packed.voxels.subrange(0, voxels.len() as int) =~= before.voxels.subrange(
                0,
                voxels.len() as int,
            ));
        }
    }

    /// Packing the first `n` children: the reference of child `i` is the
    /// root of that child packed into the tables as the first `i` children
    /// left them, and the tables after child `i` are the start of the tables
    /// after child `n - 1`.
    pub proof fn lemma_pack_children_at(
        children: Seq<Tree>,
        n: nat,
        i: nat,
        nodes: Seq<Seq<PackedNode>>,
        voxels: Seq<Voxel>,
    )
        requires
            i < n <= children.len(),
        ensures
            ({
                let all = Self::pack_children(children, n, nodes, voxels);
                let before = Self::pack_children(children, i, nodes, voxels);
                let child = children[i as int].pack(before.nodes, before.voxels);
                &&& all.refs[i as int] == child.root
                &&& extends(all.nodes, child.nodes)
                &&& extends(all.voxels, child.voxels)
            }),
        decreases n,
    {
        let all = Self::pack_children(children, n, nodes, voxels);
        let before = Self::pack_children(children, i, nodes, voxels);
        let child = children[i as int].pack(before.nodes, before.voxels);
        Self::lemma_pack_children_appends(children, i, nodes, voxels);
        if n == i + 1 {
            assert(all.refs == before.refs.push(child.root));
        } else {
            let earlier = Self::pack_children(children, (n - 1) as nat, nodes, voxels);
            let last = children[n - 1].pack(earlier.nodes, earlier.voxels);
            Self::lemma_pack_children_at(children, (n - 1) as nat, i, nodes, voxels);
            Self::lemma_pack_children_appends(children, (n - 1) as nat, nodes, voxels);
            children[n - 1].lemma_pack_appends(earlier.nodes, earlier.voxels);
            assert(all.refs == earlier.refs.push(last.root));
            assert(all.nodes == last.nodes);
            assert(all.voxels == last.voxels);
            assert forall|j: int| 0 <= j < child.nodes.len() implies #[trigger] all.nodes[j]
                == child.nodes[j] by {
                assert(earlier.nodes[j] == child.nodes[j]);
                assert(all.nodes.subrange(0, earlier.nodes.len() as int)[j] == all.nodes[j]);
            }
            assert forall|j: int| 0 <= j < child.voxels.len() implies #[trigger] all.voxels[j]
                == child.voxels[j] by {
                assert(earlier.voxels[j] == child.voxels[j]);
                assert(all.voxels.subrange(0, earlier.voxels.len() as int)[j] == all.voxels[j]);
            }
        }
    }

    /// The counts of a prefix of the children never exceed those of the
    /// whole branch.
    pub proof fn lemma_counts_monotone(children: Seq<Tree>, m: nat, n: nat)
        requires
            m <= n <= children.len(),
        ensures
            Self::branch_count_of(children, m) <= Self::branch_count_of(children, n),
            Self::voxel_count_of(children, m) <= Self::voxel_count_of(children, n),
        decreases n - m,
    {
        if m < n {
            Self::lemma_counts_monotone(children, m, (n - 1) as nat);
        }
    }
}

impl Tree {
    /// A tree that fits a cell fits every larger cell.
    pub proof fn lemma_fits_monotone(self, small: nat, large: nat)
        requires
            self.fits(small),
            small <= large,
        ensures
            self.fits(large),
        decreases self,
    {
        match self {
            Tree::Leaf(_) => {},
            Tree::Branch(children) => {
                assert forall|i: int| 0 <= i < children.len() implies (#[trigger] children[i]).fits(
                    large / 2,
                ) by {
                    children[i].lemma_fits_monotone(small / 2, large / 2);
                }
            },
        }
    }

    /// A complete tree of depth `depth` fits a root cell of half-size
    /// `2^(depth - 1)` or more.
    pub proof fn lemma_complete_fits(self, depth: nat, half: nat)
        requires
            self.complete(depth),
            depth > 0 ==> half >= pow2((depth - 1) as nat),
        ensures
            self.fits(half),
        decreases self,
    {
        match self {
            Tree::Leaf(_) => {},
            Tree::Branch(children) => {
                let below = (depth - 1) as nat;
                lemma_pow2_pos(below);
                if below > 0 {
                    lemma_pow2_unfold(below);
                }
                assert forall|i: int| 0 <= i < children.len() implies (#[trigger] children[i]).fits(
                    half / 2,
                ) by {
                    children[i].lemma_complete_fits(below, half / 2);
                }
            },
        }
    }

    /// A tree that fits some cell is well formed.
    pub proof fn lemma_fits_wf(self, half: nat)
        requires
            self.fits(half),
        ensures
            self.wf(),
        decreases self,
    {
        match self {
            Tree::Leaf(_) => {},
            Tree::Branch(children) => {
                assert forall|i: int| 0 <= i < children.len() implies (#[trigger] children[i]).wf() by {
                    children[i].lemma_fits_wf(half / 2);
                }
            },
        }
    }

    /// Insertion keeps eight children on every branch when the new subtree
    /// has them.
    pub proof fn lemma_insert_wf(
        self,
        x: nat,
        y: nat,
        z: nat,
        node: Tree,
        half: nat,
        depth: nat,
    )
        requires
            self.wf(),
            node.wf(),
            depth > 0 ==> half >= pow2((depth - 1) as nat),
        ensures
            self.insert(x, y, z, node, half, depth).wf(),
        decreases depth,
    {
        if depth > 0 {
            let below = (depth - 1) as nat;
            let children = self.expanded();
            let i = octant(x, y, z, half);
            lemma_pow2_pos(below);
            if below > 0 {
                lemma_pow2_unfold(below);
            }
            assert(children.len() == 8);
            assert forall|j: int| 0 <= j < 8 implies (#[trigger] children[j]).wf() by {}
            children[i].lemma_insert_wf(x % half, y % half, z % half, node, half / 2, below);
            let result = self.insert(x, y, z, node, half, depth);
            assert forall|j: int| 0 <= j < 8 implies (#[trigger] result->Branch_0[j]).wf() by {}
        }
    }

    /// Insertion keeps the tree within its cell when the new subtree fits the
    /// cell it is put in.
    pub proof fn lemma_insert_fits(
        self,
        x: nat,
        y: nat,
        z: nat,
        node: Tree,
        half: nat,
        depth: nat,
    )
        requires
            self.fits(half),
            depth > 0 ==> half >= pow2((depth - 1) as nat),
            node.fits(half / pow2(depth)),
        ensures
            self.insert(x, y, z, node, half, depth).fits(half),
        decreases depth,
    {
        if depth == 0 {
            assert(pow2(0) == 1) by {
                vstd::arithmetic::power2::lemma2_to64();
            }
        } else {
            let below = (depth - 1) as nat;
            let children = self.expanded();
            let i = octant(x, y, z, half);
            lemma_pow2_pos(below);
            lemma_pow2_unfold(depth);
            if below > 0 {
                lemma_pow2_unfold(below);
            }
            assert(half / pow2(depth) == (half / 2) / pow2(below)) by {
                lemma_div_denominator(half as int, 2, pow2(below) as int);
            }
            assert(children.len() == 8);
            assert forall|j: int| 0 <= j < 8 implies (#[trigger] children[j]).fits(half / 2) by {}
            children[i].lemma_insert_fits(x % half, y % half, z % half, node, half / 2, below);
            let result = self.insert(x, y, z, node, half, depth);
            assert forall|j: int| 0 <= j < 8 implies (#[trigger] result->Branch_0[j]).fits(
                half / 2,
            ) by {}
        }
    }
}

} // verus!
