//! Laws of the mathematical octree: what descents find, before and after
//! an insertion.

use vstd::prelude::*;
use vstd::arithmetic::div_mod::{
    lemma_basic_div, lemma_fundamental_div_mod, lemma_fundamental_div_mod_converse,
    lemma_small_mod,
};
use vstd::arithmetic::power2::{lemma_pow2_adds, lemma_pow2_pos, lemma_pow2_unfold, pow2};
use crate::shared::Voxel;
use crate::tree::{octant, uniform_children, Tree};

verus! {

/// The coordinate inside the extent that the host-side descent treats a
/// coordinate as: the upper half of the root cell holds every coordinate
/// from `half` on, by its remainder.
pub open spec fn wrapped(coordinate: nat, half: nat) -> nat {
    if coordinate >= half {
        half + coordinate % half
    } else {
        coordinate
    }
}

/// The host-side descent does not guard its range: a coordinate beyond the
/// extent is answered as the cell of the upper half that has the same
/// remainder.
pub proof fn lemma_get_wraps(tree: Tree, x: nat, y: nat, z: nat, half: nat)
    requires
        half > 0,
    ensures
        wrapped(x, half) < 2 * half,
        wrapped(y, half) < 2 * half,
        wrapped(z, half) < 2 * half,
        tree.get(x, y, z, half) == tree.get(
            wrapped(x, half),
            wrapped(y, half),
            wrapped(z, half),
            half,
        ),
{
    assert((half + x % half) % half == x % half) by (nonlinear_arith)
        requires
            half > 0,
    ;
    assert((half + y % half) % half == y % half) by (nonlinear_arith)
        requires
            half > 0,
    ;
    assert((half + z % half) % half == z % half) by (nonlinear_arith)
        requires
            half > 0,
    ;
}

/// In a complete tree of depth `depth`, the descent by octant and remainder
/// reaches a leaf after exactly `depth` branches, for every cell.
pub proof fn lemma_complete_descent(tree: Tree, depth: nat, x: nat, y: nat, z: nat, half: nat)
    requires
        tree.complete(depth),
        depth > 0 ==> half >= pow2((depth - 1) as nat),
    ensures
        tree.leaf_level(x, y, z, half) == depth,
    decreases tree,
{
    match tree {
        Tree::Leaf(_) => {},
        Tree::Branch(children) => {
            let below = (depth - 1) as nat;
            lemma_pow2_pos(below);
            if below > 0 {
                lemma_pow2_unfold(below);
            }
            lemma_complete_descent(
                children[octant(x, y, z, half)],
                below,
                x % half,
                y % half,
                z % half,
                half / 2,
            );
        },
    }
}

/// An insertion that has to go below a leaf first puts a branch of eight
/// copies of the leaf in its place. Seven of them stay; the one on the way
/// to the target takes the rest of the insertion.
pub proof fn lemma_insert_materializes(
    voxel: Option<Voxel>,
    x: nat,
    y: nat,
    z: nat,
    node: Tree,
    half: nat,
    depth: nat,
)
    requires
        depth > 0,
        half > 0,
    ensures
        ({
            let leaf = Tree::Leaf(voxel);
            let result = leaf.insert(x, y, z, node, half, depth);
            let i = octant(x, y, z, half);
            &&& result == Tree::Branch(uniform_children(voxel)).insert(x, y, z, node, half, depth)
            &&& result matches Tree::Branch(children) && children.len() == 8 && children[i]
                == leaf.insert(x % half, y % half, z % half, node, half / 2, (depth - 1) as nat) && (
            forall|j: int| 0 <= j < 8 && j != i ==> #[trigger] children[j] == leaf)
        }),
{
    let leaf = Tree::Leaf(voxel);
    let copies = uniform_children(voxel);
    assert(leaf.expanded() == copies);
    assert(Tree::Branch(copies).expanded() == copies);
}

/// In a tree that fits its cell, no leaf lies deeper than the cell can be
/// halved.
pub proof fn lemma_leaf_level_bound(tree: Tree, x: nat, y: nat, z: nat, half: nat, levels: nat)
    requires
        tree.fits(half),
        half < pow2(levels),
    ensures
        tree.leaf_level(x, y, z, half) <= levels,
    decreases tree,
{
    match tree {
        Tree::Leaf(_) => {},
        Tree::Branch(children) => {
            if levels == 0 {
                assert(pow2(0) == 1) by {
                    vstd::arithmetic::power2::lemma2_to64();
                }
            } else {
                lemma_pow2_unfold(levels);
                lemma_leaf_level_bound(
                    children[octant(x, y, z, half)],
                    x % half,
                    y % half,
                    z % half,
                    half / 2,
                    (levels - 1) as nat,
                );
            }
        },
    }
}

/// A coordinate below `2 * half`, where `half` is `count` cells of size
/// `cell`: its cell number is the cell number of its remainder modulo
/// `half`, plus `count` when it lies in the upper half; and its offset in
/// its cell is that of the remainder.
pub proof fn lemma_split_axis(p: nat, half: nat, cell: nat, count: nat)
    requires
        cell > 0,
        count > 0,
        half == cell * count,
        p < 2 * half,
    ensures
        p % half == if p >= half {
            p - half
        } else {
            p as int
        },
        p / cell == (if p >= half {
            count
        } else {
            0
        }) + (p % half) / cell,
        (p % half) / cell < count,
        (p % half) % cell == p % cell,
{
    let upper: int = if p >= half {
        1
    } else {
        0
    };
    let rest: int = p - upper * half;
    assert(half > 0) by (nonlinear_arith)
        requires
            cell > 0,
            count > 0,
            half == cell * count,
    ;
    lemma_fundamental_div_mod_converse(p as int, half as int, upper, rest);
    let quotient = rest / cell as int;
    let remainder = rest % cell as int;
    lemma_fundamental_div_mod(rest, cell as int);
    assert(0 <= quotient < count) by (nonlinear_arith)
        requires
            rest == cell * quotient + remainder,
            0 <= remainder < cell,
            0 <= rest < cell * count,
            cell > 0,
    ;
    assert(p == (upper * count + quotient) * cell + remainder) by (nonlinear_arith)
        requires
            p == upper * half + rest,
            half == cell * count,
            rest == cell * quotient + remainder,
    ;
    lemma_fundamental_div_mod_converse(
        p as int,
        cell as int,
        upper * count + quotient,
        remainder,
    );
}

/// What a descent finds after an insertion: inside the cell that the
/// insertion replaced, what the new subtree holds there; everywhere else,
/// what the tree held before.
///
/// `span` is the number of times the cell of the tree can be halved, so its
/// half-size is `2^span / 2`, and the cell that an insertion at `depth`
/// replaces has size `2^(span - depth)`.
pub proof fn lemma_get_after_insert(
    tree: Tree,
    x: nat,
    y: nat,
    z: nat,
    node: Tree,
    span: nat,
    depth: nat,
    px: nat,
    py: nat,
    pz: nat,
)
    requires
        depth <= span,
        tree.fits(pow2(span) / 2),
        x < pow2(span),
        y < pow2(span),
        z < pow2(span),
        px < pow2(span),
        py < pow2(span),
        pz < pow2(span),
    ensures
        ({
            let half = pow2(span) / 2;
            let cell = pow2((span - depth) as nat);
            tree.insert(x, y, z, node, half, depth).get(px, py, pz, half) == if px / cell == x
                / cell && py / cell == y / cell && pz / cell == z / cell {
                node.get(px % cell, py % cell, pz % cell, cell / 2)
            } else {
                tree.get(px, py, pz, half)
            }
        }),
    decreases depth,
{
    let half = pow2(span) / 2;
    let cell = pow2((span - depth) as nat);
    lemma_pow2_pos(span);
    lemma_pow2_pos((span - depth) as nat);
    if depth == 0 {
        lemma_basic_div(px as int, cell as int);
        lemma_basic_div(py as int, cell as int);
        lemma_basic_div(pz as int, cell as int);
        lemma_basic_div(x as int, cell as int);
        lemma_basic_div(y as int, cell as int);
        lemma_basic_div(z as int, cell as int);
        lemma_small_mod(px, cell);
        lemma_small_mod(py, cell);
        lemma_small_mod(pz, cell);
    } else {
        let below = (depth - 1) as nat;
        let count = pow2(below);
        lemma_pow2_unfold(span);
        lemma_pow2_pos(below);
        lemma_pow2_adds((span - depth) as nat, below);
        assert(half == pow2((span - 1) as nat));
        assert(half == cell * count);
        lemma_split_axis(px, half, cell, count);
        lemma_split_axis(py, half, cell, count);
        lemma_split_axis(pz, half, cell, count);
        lemma_split_axis(x, half, cell, count);
        lemma_split_axis(y, half, cell, count);
        lemma_split_axis(z, half, cell, count);
        let children = tree.expanded();
        let i = octant(x, y, z, half);
        let j = octant(px, py, pz, half);
        let inner = children[i].insert(x % half, y % half, z % half, node, half / 2, below);
        let result = tree.insert(x, y, z, node, half, depth);
        assert(children.len() == 8);
        assert forall|k: int| 0 <= k < 8 implies (#[trigger] children[k]).fits(half / 2) by {}
        assert(result == Tree::Branch(children.update(i, inner)));
        assert(tree.get(px, py, pz, half) == children[j].get(
            px % half,
            py % half,
            pz % half,
            half / 2,
        ));
        if i == j {
            lemma_get_after_insert(
                children[i],
                x % half,
                y % half,
                z % half,
                node,
                (span - 1) as nat,
                below,
                px % half,
                py % half,
                pz % half,
            );
        }
    }
}

/// What raising the depth of a tree does to its cells: read with a root
/// cell of `2^grown` instead of `2^span`, the tree holds at `(px, py, pz)`
/// what it held at those coordinates divided by `2^(grown - span)`. Every
/// cell keeps its place relative to the root and covers `2^(grown - span)`
/// cells of the finer grid on each axis.
pub proof fn lemma_get_rescaled(tree: Tree, px: nat, py: nat, pz: nat, span: nat, grown: nat)
    requires
        span <= grown,
        tree.fits(pow2(span) / 2),
        px < pow2(grown),
        py < pow2(grown),
        pz < pow2(grown),
    ensures
        ({
            let scale = pow2((grown - span) as nat);
            tree.get(px, py, pz, pow2(grown) / 2) == tree.get(
                px / scale,
                py / scale,
                pz / scale,
                pow2(span) / 2,
            )
        }),
    decreases tree,
{
    lemma_pow2_pos((grown - span) as nat);
    match tree {
        Tree::Leaf(_) => {},
        Tree::Branch(children) => {
            let scale = pow2((grown - span) as nat);
            let half = pow2(span) / 2;
            let wide = pow2(grown) / 2;
            assert(span >= 1) by {
                vstd::arithmetic::power2::lemma2_to64();
            }
            lemma_pow2_unfold(span);
            lemma_pow2_unfold(grown);
            lemma_pow2_pos((span - 1) as nat);
            lemma_pow2_pos((grown - span) as nat);
            lemma_pow2_adds((grown - span) as nat, (span - 1) as nat);
            assert(wide == scale * half);
            lemma_split_axis(px, wide, scale, half);
            lemma_split_axis(py, wide, scale, half);
            lemma_split_axis(pz, wide, scale, half);
            let (sx, sy, sz) = (px / scale, py / scale, pz / scale);
            lemma_fundamental_div_mod_converse(
                sx as int,
                half as int,
                if px >= wide {
                    1
                } else {
                    0
                },
                ((px % wide) / scale) as int,
            );
            lemma_fundamental_div_mod_converse(
                sy as int,
                half as int,
                if py >= wide {
                    1
                } else {
                    0
                },
                ((py % wide) / scale) as int,
            );
            lemma_fundamental_div_mod_converse(
                sz as int,
                half as int,
                if pz >= wide {
                    1
                } else {
                    0
                },
                ((pz % wide) / scale) as int,
            );
            assert(octant(px, py, pz, wide) == octant(sx, sy, sz, half));
            lemma_get_rescaled(
                children[octant(px, py, pz, wide)],
                px % wide,
                py % wide,
                pz % wide,
                (span - 1) as nat,
                (grown - 1) as nat,
            );
        },
    }
}

} // verus!
