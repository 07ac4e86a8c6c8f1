//! Laws of packing: how the packed form of a tree answers for the tree.

use vstd::prelude::*;
use vstd::arithmetic::power2::{lemma_pow2_pos, lemma_pow2_unfold, pow2};
use crate::layout::{native_bytes, node_words, voxel_words};
use crate::shared::{NodeRef, PackedNode, Voxel, LEAF_TAG};
use crate::svo::{node_table, PackedSparseVoxelOctree};
use crate::traversal::{
    in_range, material_at, material_below, query, query_from, root_half, GetResult,
};
use crate::tree::{extends, material_of, octant, Tree};
use crate::tree_laws::{lemma_get_wraps, wrapped};

verus! {

/// Where packing leaves a populated leaf: its reference is a leaf reference
/// to an entry of the voxel table that holds its voxel.
pub proof fn lemma_packed_leaf(
    voxel: Voxel,
    nodes: Seq<Seq<PackedNode>>,
    voxels: Seq<Voxel>,
    table: Seq<Voxel>,
)
    requires
        Tree::Leaf(Some(voxel)).packable_after(nodes.len(), voxels.len()),
        extends(table, Tree::Leaf(Some(voxel)).pack(nodes, voxels).voxels),
    ensures
        Tree::Leaf(Some(voxel)).pack(nodes, voxels).root@ == NodeRef::Leaf(voxels.len()),
        voxels.len() < table.len(),
        table[voxels.len() as int] == voxel,
{
    let packed = Tree::Leaf(Some(voxel)).pack(nodes, voxels);
    assert(packed.voxels[voxels.len() as int] == voxel);
}

/// Where packing leaves child `i` of a branch: the branch's reference is a
/// branch reference to a record of the node table whose entry `i` is the
/// root of the packed child, and the tables hold the packed child unchanged.
pub proof fn lemma_packed_branch(
    children: Seq<Tree>,
    nodes: Seq<Seq<PackedNode>>,
    voxels: Seq<Voxel>,
    records: Seq<Seq<PackedNode>>,
    entries: Seq<Voxel>,
    i: int,
)
    requires
        children.len() == 8,
        0 <= i < 8,
        Tree::Branch(children).packable_after(nodes.len(), voxels.len()),
        extends(records, Tree::Branch(children).pack(nodes, voxels).nodes),
        extends(entries, Tree::Branch(children).pack(nodes, voxels).voxels),
    ensures
        ({
            let packed = Tree::Branch(children).pack(nodes, voxels);
            let before = Tree::pack_children(children, i as nat, nodes, voxels);
            let child = children[i].pack(before.nodes, before.voxels);
            &&& packed.root@ matches NodeRef::Branch(index) && index < records.len()
                && records[index as int][i] == child.root
            &&& children[i].packable_after(before.nodes.len(), before.voxels.len())
            &&& extends(records, child.nodes)
            &&& extends(entries, child.voxels)
        }),
{
    let packed = Tree::Branch(children).pack(nodes, voxels);
    let all = Tree::pack_children(children, 8, nodes, voxels);
    let before = Tree::pack_children(children, i as nat, nodes, voxels);
    let child = children[i].pack(before.nodes, before.voxels);
    Tree::lemma_pack_children_appends(children, 8, nodes, voxels);
    Tree::lemma_pack_children_appends(children, i as nat, nodes, voxels);
    Tree::lemma_pack_children_at(children, 8, i as nat, nodes, voxels);
    Tree::lemma_counts_monotone(children, (i + 1) as nat, 8);
    let index = all.nodes.len();
    assert(packed.nodes == all.nodes.push(all.refs));
    assert(packed.nodes[index as int] == all.refs);
    assert(records[index as int] == packed.nodes[index as int]);
    assert forall|j: int| 0 <= j < child.nodes.len() implies #[trigger] records[j]
        == child.nodes[j] by {
        assert(all.nodes[j] == child.nodes[j]);
        assert(packed.nodes[j] == all.nodes[j]);
    }
    assert forall|j: int| 0 <= j < child.voxels.len() implies #[trigger] entries[j]
        == child.voxels[j] by {
        assert(all.voxels[j] == child.voxels[j]);
    }
}

/// Direct descent through the packed form of a tree finds what the descent
/// through the tree itself finds, also when the tables have grown since.
pub proof fn lemma_material_below_packed(
    tree: Tree,
    nodes: Seq<Seq<PackedNode>>,
    voxels: Seq<Voxel>,
    records: Seq<Seq<PackedNode>>,
    entries: Seq<Voxel>,
    x: nat,
    y: nat,
    z: nat,
    half: nat,
    levels: nat,
)
    requires
        tree.fits(half),
        half < pow2(levels),
        tree.packable_after(nodes.len(), voxels.len()),
        extends(records, tree.pack(nodes, voxels).nodes),
        extends(entries, tree.pack(nodes, voxels).voxels),
    ensures
        material_below(
            records,
            entries,
            tree.pack(nodes, voxels).root,
            x,
            y,
            z,
            half,
            levels,
        ) == material_of(tree.get(x, y, z, half)),
    decreases tree,
{
    match tree {
        Tree::Leaf(None) => {},
        Tree::Leaf(Some(voxel)) => {
            lemma_packed_leaf(voxel, nodes, voxels, entries);
        },
        Tree::Branch(children) => {
            let i = octant(x, y, z, half);
            let before = Tree::pack_children(children, i as nat, nodes, voxels);
            lemma_packed_branch(children, nodes, voxels, records, entries, i);
            if levels == 0 {
                assert(pow2(0) == 1) by {
                    vstd::arithmetic::power2::lemma2_to64();
                }
            } else {
                lemma_pow2_unfold(levels);
                lemma_material_below_packed(
                    children[i],
                    before.nodes,
                    before.voxels,
                    records,
                    entries,
                    x % half,
                    y % half,
                    z % half,
                    half / 2,
                    (levels - 1) as nat,
                );
            }
        },
    }
}

/// For every cell inside the extent, direct descent through the packed
/// tree and the descent through the tree it was packed from give the same
/// material, or both give none.
pub proof fn lemma_round_trip(tree: Tree, depth: nat, x: int, y: int, z: int)
    requires
        depth >= 1,
        tree.fits(root_half(depth)),
        tree.packable_after(0, 0),
        in_range(x, y, z, depth),
    ensures
        ({
            let packed = tree.pack(Seq::empty(), Seq::empty());
            material_at(packed.nodes, packed.voxels, packed.root, x, y, z, depth) == material_of(
                tree.get(x as nat, y as nat, z as nat, root_half(depth)),
            )
        }),
{
    let packed = tree.pack(Seq::empty(), Seq::empty());
    lemma_pow2_unfold(depth);
    lemma_pow2_pos((depth - 1) as nat);
    lemma_material_below_packed(
        tree,
        Seq::empty(),
        Seq::empty(),
        packed.nodes,
        packed.voxels,
        x as nat,
        y as nat,
        z as nat,
        root_half(depth),
        depth,
    );
}

/// A query through the packed form of a tree is answered by where the
/// descent through the tree itself ends: with more levels to go than the
/// leaf lies deep, the tree is reported coarser; with as many, the leaf's
/// content is reported; with fewer, a branch is reported where the tree may
/// be finer, and empty space where it may not.
pub proof fn lemma_query_from_packed(
    tree: Tree,
    nodes: Seq<Seq<PackedNode>>,
    voxels: Seq<Voxel>,
    records: Seq<Seq<PackedNode>>,
    entries: Seq<Voxel>,
    x: nat,
    y: nat,
    z: nat,
    half: nat,
    levels: nat,
    finer: bool,
)
    requires
        tree.fits(half),
        tree.packable_after(nodes.len(), voxels.len()),
        extends(records, tree.pack(nodes, voxels).nodes),
        extends(entries, tree.pack(nodes, voxels).voxels),
    ensures
        ({
            let answer = query_from(
                records,
                entries,
                tree.pack(nodes, voxels).root,
                x,
                y,
                z,
                half,
                levels,
                finer,
            );
            let level = tree.leaf_level(x, y, z, half);
            &&& levels > level ==> answer == GetResult::Higher
            &&& levels == level ==> answer == match tree.get(x, y, z, half) {
                Some(voxel) => GetResult::Hit(voxel.material),
                None => GetResult::Empty,
            }
            &&& levels < level ==> answer == if finer {
                GetResult::Branch
            } else {
                GetResult::Empty
            }
        }),
    decreases tree,
{
    match tree {
        Tree::Leaf(None) => {},
        Tree::Leaf(Some(voxel)) => {
            lemma_packed_leaf(voxel, nodes, voxels, entries);
        },
        Tree::Branch(children) => {
            let i = octant(x, y, z, half);
            let before = Tree::pack_children(children, i as nat, nodes, voxels);
            lemma_packed_branch(children, nodes, voxels, records, entries, i);
            if levels > 0 {
                lemma_query_from_packed(
                    children[i],
                    before.nodes,
                    before.voxels,
                    records,
                    entries,
                    x % half,
                    y % half,
                    z % half,
                    half / 2,
                    (levels - 1) as nat,
                    finer,
                );
            }
        },
    }
}

/// At the depth at which the tree holds a leaf for a cell, the query through
/// the packed tree reports that leaf's content.
pub proof fn lemma_query_round_trip(tree: Tree, depth: nat, x: int, y: int, z: int)
    requires
        depth >= 1,
        tree.fits(root_half(depth)),
        tree.packable_after(0, 0),
        in_range(x, y, z, depth),
    ensures
        ({
            let packed = tree.pack(Seq::empty(), Seq::empty());
            let level = tree.leaf_level(x as nat, y as nat, z as nat, root_half(depth));
            query(packed.nodes, packed.voxels, packed.root, x, y, z, depth, level)
                == match tree.get(x as nat, y as nat, z as nat, root_half(depth)) {
                Some(voxel) => GetResult::Hit(voxel.material),
                None => GetResult::Empty,
            }
        }),
{
    let packed = tree.pack(Seq::empty(), Seq::empty());
    let level = tree.leaf_level(x as nat, y as nat, z as nat, root_half(depth));
    lemma_query_from_packed(
        tree,
        Seq::empty(),
        Seq::empty(),
        packed.nodes,
        packed.voxels,
        x as nat,
        y as nat,
        z as nat,
        root_half(depth),
        level,
        level < depth,
    );
}

/// For a cell with a coordinate outside the extent, the query reports out
/// of range and direct descent finds nothing, whatever the tables hold,
/// well formed or not, and whatever depth is assumed.
pub proof fn lemma_out_of_range(
    nodes: Seq<Seq<PackedNode>>,
    voxels: Seq<Voxel>,
    root: PackedNode,
    x: int,
    y: int,
    z: int,
    tree_depth: nat,
    depth: nat,
)
    requires
        x < 0 || x >= pow2(tree_depth) || y < 0 || y >= pow2(tree_depth) || z < 0 || z >= pow2(
            tree_depth,
        ),
    ensures
        query(nodes, voxels, root, x, y, z, tree_depth, depth) == GetResult::OutOfRange,
        material_at(nodes, voxels, root, x, y, z, tree_depth) is None,
{
}

/// For a cell with a coordinate outside the extent, the query through the
/// packed tree reports out of range and direct descent finds nothing. The
/// host-side descent finds nothing there either, provided the cell inside
/// the extent that it takes the coordinates for is empty.
pub proof fn lemma_range_guard(tree: Tree, depth: nat, assumed: nat, x: nat, y: nat, z: nat)
    requires
        depth >= 1,
        !in_range(x as int, y as int, z as int, depth),
        tree.get(
            wrapped(x, root_half(depth)),
            wrapped(y, root_half(depth)),
            wrapped(z, root_half(depth)),
            root_half(depth),
        ) is None,
    ensures
        ({
            let packed = tree.pack(Seq::empty(), Seq::empty());
            &&& query(
                packed.nodes,
                packed.voxels,
                packed.root,
                x as int,
                y as int,
                z as int,
                depth,
                assumed,
            ) == GetResult::OutOfRange
            &&& material_at(
                packed.nodes,
                packed.voxels,
                packed.root,
                x as int,
                y as int,
                z as int,
                depth,
            ) is None
            &&& tree.get(x, y, z, root_half(depth)) is None
        }),
{
    lemma_pow2_pos((depth - 1) as nat);
    lemma_get_wraps(tree, x, y, z, root_half(depth));
}

/// A tree without a populated leaf has no voxel to pack.
pub proof fn lemma_vacant_counts(tree: Tree)
    requires
        tree.vacant(),
    ensures
        tree.voxel_count() == 0,
    decreases tree, 0nat,
{
    match tree {
        Tree::Leaf(_) => {},
        Tree::Branch(children) => {
            lemma_vacant_children_counts(children, children.len());
        },
    }
}

/// The same for the first `n` children of a branch.
pub proof fn lemma_vacant_children_counts(children: Seq<Tree>, n: nat)
    requires
        n <= children.len(),
        forall|i: int| 0 <= i < children.len() ==> (#[trigger] children[i]).vacant(),
    ensures
        Tree::voxel_count_of(children, n) == 0,
    decreases children, n,
{
    if n > 0 {
        lemma_vacant_children_counts(children, (n - 1) as nat);
        lemma_vacant_counts(children[n - 1]);
    }
}

/// Two packed forms of one tree have the same root reference, the same node
/// and voxel tables, and so the same bytes.
pub proof fn lemma_pack_deterministic(
    tree: Tree,
    first: PackedSparseVoxelOctree,
    second: PackedSparseVoxelOctree,
)
    requires
        first@ == tree.pack(Seq::empty(), Seq::empty()),
        second@ == tree.pack(Seq::empty(), Seq::empty()),
    ensures
        first.root == second.root,
        first.nodes@ == second.nodes@,
        first.voxels@ == second.voxels@,
        native_bytes(node_words(first@.nodes)) == native_bytes(node_words(second@.nodes)),
        native_bytes(voxel_words(first@.voxels)) == native_bytes(voxel_words(second@.voxels)),
{
    assert(node_table(first.nodes@).len() == node_table(second.nodes@).len());
    assert forall|i: int| 0 <= i < first.nodes@.len() implies first.nodes@[i] == second.nodes@[i] by {
        assert(node_table(first.nodes@)[i] == node_table(second.nodes@)[i]);
        assert(first.nodes@[i] =~= second.nodes@[i]);
    }
    assert(first.nodes@ =~= second.nodes@);
}

/// A reference points into the tables: a leaf reference at one of the first
/// `voxels` entries of the voxel table, a branch reference at one of the
/// first `nodes` records of the node table.
pub open spec fn points_within(node: PackedNode, nodes: nat, voxels: nat) -> bool {
    match node@ {
        NodeRef::Empty => true,
        NodeRef::Leaf(index) => index < voxels,
        NodeRef::Branch(index) => index < nodes,
    }
}

/// The tables are self-contained: every record has eight entries, every
/// leaf reference in them points into the voxel table, and every branch
/// reference points at a record that comes before the one that holds it.
pub open spec fn self_contained(nodes: Seq<Seq<PackedNode>>, voxels: Seq<Voxel>) -> bool {
    forall|i: int|
        0 <= i < nodes.len() ==> {
            &&& (#[trigger] nodes[i]).len() == 8
            &&& forall|j: int|
                0 <= j < 8 ==> points_within(#[trigger] nodes[i][j], i as nat, voxels.len())
        }
}

/// Packing keeps the tables self-contained, and the reference it returns
/// points into them.
pub proof fn lemma_pack_self_contained(
    tree: Tree,
    nodes: Seq<Seq<PackedNode>>,
    voxels: Seq<Voxel>,
)
    requires
        tree.wf(),
        tree.packable_after(nodes.len(), voxels.len()),
        self_contained(nodes, voxels),
    ensures
        self_contained(tree.pack(nodes, voxels).nodes, tree.pack(nodes, voxels).voxels),
        points_within(
            tree.pack(nodes, voxels).root,
            tree.pack(nodes, voxels).nodes.len(),
            tree.pack(nodes, voxels).voxels.len(),
        ),
    decreases tree, 0nat,
{
    let packed = tree.pack(nodes, voxels);
    match tree {
        Tree::Leaf(None) => {},
        Tree::Leaf(Some(voxel)) => {
            assert forall|i: int| 0 <= i < packed.nodes.len() implies {
                &&& (#[trigger] packed.nodes[i]).len() == 8
                &&& forall|j: int|
                    0 <= j < 8 ==> points_within(
                        #[trigger] packed.nodes[i][j],
                        i as nat,
                        packed.voxels.len(),
                    )
            } by {
                assert forall|j: int| 0 <= j < 8 implies points_within(
                    #[trigger] packed.nodes[i][j],
                    i as nat,
                    packed.voxels.len(),
                ) by {
                    assert(points_within(nodes[i][j], i as nat, voxels.len()));
                }
            }
        },
        Tree::Branch(children) => {
            let all = Tree::pack_children(children, 8, nodes, voxels);
            lemma_pack_children_self_contained(children, 8, nodes, voxels);
            Tree::lemma_pack_children_appends(children, 8, nodes, voxels);
            let own = all.nodes.len() as int;
            assert(packed.nodes == all.nodes.push(all.refs));
            assert forall|i: int| 0 <= i < packed.nodes.len() implies {
                &&& (#[trigger] packed.nodes[i]).len() == 8
                &&& forall|j: int|
                    0 <= j < 8 ==> points_within(
                        #[trigger] packed.nodes[i][j],
                        i as nat,
                        packed.voxels.len(),
                    )
            } by {
                if i < own {
                    assert(packed.nodes[i] == all.nodes[i]);
                } else {
                    assert(packed.nodes[i] == all.refs);
                }
            }
        },
    }
}

/// The same for the first `n` children of a branch: their references point
/// into the tables as the last of them left them.
pub proof fn lemma_pack_children_self_contained(
    children: Seq<Tree>,
    n: nat,
    nodes: Seq<Seq<PackedNode>>,
    voxels: Seq<Voxel>,
)
    requires
        n <= children.len() == 8,
        forall|i: int| 0 <= i < 8 ==> (#[trigger] children[i]).wf(),
        nodes.len() + Tree::branch_count_of(children, n) < LEAF_TAG,
        voxels.len() + Tree::voxel_count_of(children, n) < LEAF_TAG,
        self_contained(nodes, voxels),
    ensures
        ({
            let packed = Tree::pack_children(children, n, nodes, voxels);
            &&& self_contained(packed.nodes, packed.voxels)
            &&& packed.refs.len() == n
            &&& forall|j: int|
                0 <= j < n ==> points_within(
                    #[trigger] packed.refs[j],
                    packed.nodes.len(),
                    packed.voxels.len(),
                )
        }),
    decreases children, n,
{
    let packed = Tree::pack_children(children, n, nodes, voxels);
    if n > 0 {
        let before = Tree::pack_children(children, (n - 1) as nat, nodes, voxels);
        let child = children[n - 1].pack(before.nodes, before.voxels);
        lemma_pack_children_self_contained(children, (n - 1) as nat, nodes, voxels);
        Tree::lemma_pack_children_appends(children, (n - 1) as nat, nodes, voxels);
        lemma_pack_self_contained(children[n - 1], before.nodes, before.voxels);
        children[n - 1].lemma_pack_appends(before.nodes, before.voxels);
        assert(packed.refs == before.refs.push(child.root));
        assert forall|j: int| 0 <= j < n implies points_within(
            #[trigger] packed.refs[j],
            packed.nodes.len(),
            packed.voxels.len(),
        ) by {
            if j < n - 1 {
                assert(packed.refs[j] == before.refs[j]);
                assert(points_within(before.refs[j], before.nodes.len(), before.voxels.len()));
            }
        }
    }
}

} // verus!
