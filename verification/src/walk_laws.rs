//! Laws of the walk: where it stops, and how it finds the level of the tree.

use vstd::prelude::*;
use vstd::arithmetic::power2::{lemma_pow2_pos, lemma_pow2_unfold};
use crate::packing_laws::{lemma_query_from_packed, lemma_vacant_counts};
use crate::shared::{NodeRef, PackedNode, Voxel};
use crate::traversal::{
    cell_size, empty_material, in_range, query_from, root_half, shifted, walk, GetResult,
    HitResult, Ray, Walk, TRAVERSAL_STEPS,
};
use vstd::arithmetic::power2::pow2;
use crate::tree::{octant, Tree};
use crate::tree_laws::lemma_leaf_level_bound;

verus! {

/// A query into tables without voxels never reports a hit.
pub proof fn lemma_no_voxels_no_hit(
    nodes: Seq<Seq<PackedNode>>,
    voxels: Seq<Voxel>,
    node: PackedNode,
    x: nat,
    y: nat,
    z: nat,
    half: nat,
    levels: nat,
    finer: bool,
)
    requires
        voxels.len() == 0,
    ensures
        !(query_from(nodes, voxels, node, x, y, z, half, levels, finer) is Hit),
    decreases levels,
{
    if levels > 0 {
        if let NodeRef::Branch(index) = node@ {
            if index < nodes.len() && half != 0 {
                lemma_no_voxels_no_hit(
                    nodes,
                    voxels,
                    nodes[index as int][octant(x, y, z, half)],
                    x % half,
                    y % half,
                    z % half,
                    half / 2,
                    (levels - 1) as nat,
                    finer,
                );
            }
        }
    }
}

/// A walk through tables without voxels uses up its budget and reports a
/// miss with the empty material.
pub proof fn lemma_no_voxels_miss(
    ray: Ray,
    nodes: Seq<Seq<PackedNode>>,
    voxels: Seq<Voxel>,
    root: PackedNode,
    tree_depth: nat,
    budget: nat,
    taken: nat,
)
    requires
        voxels.len() == 0,
    ensures
        !walk(ray, nodes, voxels, root, tree_depth, budget, taken).hit.exists,
        walk(ray, nodes, voxels, root, tree_depth, budget, taken).hit.material == empty_material(),
        walk(ray, nodes, voxels, root, tree_depth, budget, taken).hit.steps == (taken
            + budget) as usize,
    decreases budget,
{
    if budget > 0 {
        let result = ray.observed(nodes, voxels, root, tree_depth);
        if in_range(ray.cell.x as int, ray.cell.y as int, ray.cell.z as int, tree_depth) {
            lemma_no_voxels_no_hit(
                nodes,
                voxels,
                root,
                ray.cell.x as nat,
                ray.cell.y as nat,
                ray.cell.z as nat,
                root_half(tree_depth),
                ray.depth as nat,
                ray.depth < tree_depth,
            );
        }
        lemma_no_voxels_miss(
            ray.after(result, tree_depth),
            nodes,
            voxels,
            root,
            tree_depth,
            (budget - 1) as nat,
            taken + 1,
        );
    }
}

/// A walk through the packed form of a tree whose leaves are all empty makes
/// exactly `TRAVERSAL_STEPS` queries and reports a miss, whatever the ray.
pub proof fn lemma_vacant_tree_miss(tree: Tree, ray: Ray, tree_depth: nat)
    requires
        tree.vacant(),
    ensures
        ({
            let packed = tree.pack(Seq::empty(), Seq::empty());
            let report = walk(
                ray,
                packed.nodes,
                packed.voxels,
                packed.root,
                tree_depth,
                TRAVERSAL_STEPS as nat,
                0,
            ).hit;
            &&& !report.exists
            &&& report.material == empty_material()
            &&& report.steps == TRAVERSAL_STEPS
        }),
{
    let packed = tree.pack(Seq::empty(), Seq::empty());
    lemma_vacant_counts(tree);
    tree.lemma_pack_appends(Seq::empty(), Seq::empty());
    lemma_no_voxels_miss(
        ray,
        packed.nodes,
        packed.voxels,
        packed.root,
        tree_depth,
        TRAVERSAL_STEPS as nat,
        0,
    );
}

/// Once a query has reported the tree coarser than assumed, the next move of
/// the walk is by a cell twice as large as the one it would have moved by
/// before.
pub proof fn lemma_coarser_step_doubles(ray: Ray, tree_depth: nat)
    requires
        0 < ray.depth <= tree_depth,
    ensures
        ({
            let coarser = ray.after(GetResult::Higher, tree_depth);
            let size = cell_size(tree_depth, ray.depth as nat);
            let mask = ray.side_dist.nearest();
            let moved = coarser.advanced(tree_depth);
            &&& coarser.depth == ray.depth - 1
            &&& cell_size(tree_depth, coarser.depth as nat) == 2 * size
            &&& moved.cell.x == if mask.x {
                shifted(ray.cell.x, ray.ray_step.x, 2 * size)
            } else {
                ray.cell.x
            }
            &&& moved.cell.y == if mask.y {
                shifted(ray.cell.y, ray.ray_step.y, 2 * size)
            } else {
                ray.cell.y
            }
            &&& moved.cell.z == if mask.z {
                shifted(ray.cell.z, ray.ray_step.z, 2 * size)
            } else {
                ray.cell.z
            }
        }),
{
    lemma_pow2_unfold((tree_depth - ray.depth + 1) as nat);
}

/// The number of levels between two depths.
pub open spec fn levels_apart(a: nat, b: nat) -> nat {
    if a >= b {
        (a - b) as nat
    } else {
        (b - a) as nat
    }
}

/// The walk finds the level of the tree without a stack: from any assumed
/// depth, in a cell inside the extent, it corrects the depth by one level
/// per query until it stands at the depth of the leaf that holds the cell.
/// If that leaf is populated the walk stops there with the leaf's material;
/// if it is empty the walk moves on by one cell of that leaf's size.
pub proof fn lemma_walk_settles(tree: Tree, ray: Ray, depth: nat, budget: nat, taken: nat)
    requires
        1 <= depth <= 32,
        tree.fits(root_half(depth)),
        tree.packable_after(0, 0),
        in_range(ray.cell.x as int, ray.cell.y as int, ray.cell.z as int, depth),
        ray.depth <= depth,
        budget > levels_apart(
            ray.depth as nat,
            tree.leaf_level(
                ray.cell.x as nat,
                ray.cell.y as nat,
                ray.cell.z as nat,
                root_half(depth),
            ),
        ),
    ensures
        ({
            let packed = tree.pack(Seq::empty(), Seq::empty());
            let level = tree.leaf_level(
                ray.cell.x as nat,
                ray.cell.y as nat,
                ray.cell.z as nat,
                root_half(depth),
            );
            let queries = levels_apart(ray.depth as nat, level) + 1;
            let settled = Ray { depth: level as u32, ..ray };
            let found = walk(ray, packed.nodes, packed.voxels, packed.root, depth, budget, taken);
            &&& level <= depth
            &&& match tree.get(
                ray.cell.x as nat,
                ray.cell.y as nat,
                ray.cell.z as nat,
                root_half(depth),
            ) {
                Some(voxel) => found == Walk {
                    ray: settled,
                    hit: HitResult {
                        exists: true,
                        material: voxel.material,
                        steps: (taken + queries) as usize,
                    },
                },
                None => found == walk(
                    settled.advanced(depth),
                    packed.nodes,
                    packed.voxels,
                    packed.root,
                    depth,
                    (budget - queries) as nat,
                    taken + queries,
                ),
            }
        }),
    decreases
        levels_apart(
            ray.depth as nat,
            tree.leaf_level(
                ray.cell.x as nat,
                ray.cell.y as nat,
                ray.cell.z as nat,
                root_half(depth),
            ),
        ),
{
    let packed = tree.pack(Seq::empty(), Seq::empty());
    let (x, y, z) = (ray.cell.x as nat, ray.cell.y as nat, ray.cell.z as nat);
    let level = tree.leaf_level(x, y, z, root_half(depth));
    lemma_pow2_unfold(depth);
    lemma_pow2_pos((depth - 1) as nat);
    lemma_leaf_level_bound(tree, x, y, z, root_half(depth), depth);
    lemma_query_from_packed(
        tree,
        Seq::empty(),
        Seq::empty(),
        packed.nodes,
        packed.voxels,
        x,
        y,
        z,
        root_half(depth),
        ray.depth as nat,
        ray.depth < depth,
    );
    let answer = ray.observed(packed.nodes, packed.voxels, packed.root, depth);
    if ray.depth > level {
        assert(answer == GetResult::Higher);
        lemma_walk_settles(
            tree,
            ray.after(answer, depth),
            depth,
            (budget - 1) as nat,
            taken + 1,
        );
    } else if ray.depth < level {
        assert(answer == GetResult::Branch);
        lemma_walk_settles(
            tree,
            ray.after(answer, depth),
            depth,
            (budget - 1) as nat,
            taken + 1,
        );
    } else {
        assert(Ray { depth: level as u32, ..ray } == ray);
    }
}

/// A walk never makes more queries than its budget allows. It reports a
/// miss only when the budget is used up, and then with the empty material.
pub proof fn lemma_walk_bounded(
    ray: Ray,
    nodes: Seq<Seq<PackedNode>>,
    voxels: Seq<Voxel>,
    root: PackedNode,
    tree_depth: nat,
    budget: nat,
    taken: nat,
)
    requires
        taken + budget <= usize::MAX,
    ensures
        ({
            let report = walk(ray, nodes, voxels, root, tree_depth, budget, taken).hit;
            &&& taken <= report.steps <= taken + budget
            &&& report.exists ==> report.steps > taken
            &&& !report.exists ==> report.steps == taken + budget && report.material
                == empty_material()
        }),
    decreases budget,
{
    if budget > 0 {
        let result = ray.observed(nodes, voxels, root, tree_depth);
        lemma_walk_bounded(
            ray.after(result, tree_depth),
            nodes,
            voxels,
            root,
            tree_depth,
            (budget - 1) as nat,
            taken + 1,
        );
    }
}

/// The ray stands outside the extent on some axis and does not move towards
/// the extent on that axis.
pub open spec fn leaving(ray: Ray, tree_depth: nat) -> bool {
    ||| ray.cell.x < 0 && ray.ray_step.x <= 0
    ||| ray.cell.x >= pow2(tree_depth) && ray.ray_step.x >= 0
    ||| ray.cell.y < 0 && ray.ray_step.y <= 0
    ||| ray.cell.y >= pow2(tree_depth) && ray.ray_step.y >= 0
    ||| ray.cell.z < 0 && ray.ray_step.z <= 0
    ||| ray.cell.z >= pow2(tree_depth) && ray.ray_step.z >= 0
}

/// A ray that has left the extent and keeps going away never comes back:
/// the walk reads no table, uses up its budget and reports a miss.
pub proof fn lemma_leaving_ray_misses(
    ray: Ray,
    nodes: Seq<Seq<PackedNode>>,
    voxels: Seq<Voxel>,
    root: PackedNode,
    tree_depth: nat,
    budget: nat,
    taken: nat,
)
    requires
        leaving(ray, tree_depth),
        ray.depth <= tree_depth,
    ensures
        walk(ray, nodes, voxels, root, tree_depth, budget, taken).hit == (HitResult {
            exists: false,
            material: empty_material(),
            steps: (taken + budget) as usize,
        }),
    decreases budget,
{
    if budget > 0 {
        let result = ray.observed(nodes, voxels, root, tree_depth);
        assert(result == GetResult::OutOfRange);
        lemma_pow2_pos((tree_depth - ray.depth) as nat);
        lemma_leaving_ray_misses(
            ray.advanced(tree_depth),
            nodes,
            voxels,
            root,
            tree_depth,
            (budget - 1) as nat,
            taken + 1,
        );
    }
}

} // verus!
