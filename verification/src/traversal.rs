//! The traversal kernel: bounded queries into the packed octree, and the
//! stackless grid walk that drives them.
//!
//! The walk keeps no record of the nodes it has passed. It carries a cell
//! position, one distance accumulator per axis, and the depth at which it
//! currently believes the octree to be resolved; each query either settles
//! the current cell or corrects that belief by one level.
//!
//! A hit reports the material only. The cell in which the walk stopped is
//! left in the ray; surface position and normal are not computed.

use vstd::prelude::*;
use vstd::arithmetic::power2::{lemma_pow2_pos, lemma_pow2_strictly_increases, pow2};
use crate::shared::{Material, NodeRef, PackedNode, Voxel, ONE_BITS};
use crate::svo::{node_table, octant_index};
use crate::tree::octant;

verus! {

/// The number of queries after which a walk gives up and reports a miss.
pub const TRAVERSAL_STEPS: usize = 40;

/// The fixed-point unit of directions and distances along a ray: `2^16`
/// steps make one.
pub const FIXED_ONE: u64 = 0x1_0000;

/// A cell position, or one sign per axis.
#[derive(Clone, Copy, PartialEq, Eq, Structural, Debug)]
pub struct IVec3 {
    pub x: i64,
    pub y: i64,
    pub z: i64,
}

/// One unsigned fixed-point distance per axis. The largest value stands for
/// a distance that is never reached.
#[derive(Clone, Copy, PartialEq, Eq, Structural, Debug)]
pub struct UVec3 {
    pub x: u64,
    pub y: u64,
    pub z: u64,
}

/// One flag per axis.
#[derive(Clone, Copy, PartialEq, Eq, Structural, Debug)]
pub struct BVec3 {
    pub x: bool,
    pub y: bool,
    pub z: bool,
}

/// Where the octree sits in the grid of the world: the world cell that
/// holds the octree's cell `(0, 0, 0)`.
#[derive(Clone, Copy, PartialEq, Eq, Structural, Debug)]
pub struct Placement {
    pub x: i32,
    pub y: i32,
    pub z: i32,
}

/// What a query at an assumed depth reports.
#[derive(Clone, Copy, PartialEq, Eq, Debug)]
pub enum GetResult {
    /// A coordinate lies outside the extent of the tree; no table was read.
    OutOfRange,
    /// Nothing here at this resolution.
    Empty,
    /// A populated leaf exactly at the assumed depth.
    Hit(Material),
    /// The node at the assumed depth is a branch: the tree is finer than
    /// assumed.
    Branch,
    /// A leaf lies above the assumed depth: the tree is coarser than
    /// assumed.
    Higher,
}

/// What a walk reports.
#[derive(Clone, Copy, PartialEq, Eq, Debug)]
pub struct HitResult {
    /// Whether a populated leaf was found.
    pub exists: bool,
    /// Its material; the empty material on a miss.
    pub material: Material,
    /// The number of queries made.
    pub steps: usize,
}

/// The state of a walk.
#[derive(Clone, Copy, PartialEq, Eq, Debug)]
pub struct Ray {
    /// The current cell, in units of the smallest cell of the tree.
    pub cell: IVec3,
    /// The sign of the direction on each axis; only the sign is looked at.
    pub ray_step: IVec3,
    /// The distance along the ray between two cell borders of each axis.
    pub delta_dist: UVec3,
    /// The distance along the ray to the next cell border of each axis.
    pub side_dist: UVec3,
    /// The depth at which the walk assumes the octree to be resolved.
    pub depth: u32,
}

/// The walk and its report, taken together.
pub struct Walk {
    pub ray: Ray,
    pub hit: HitResult,
}

/// The material reported on a miss, which no voxel table needs to hold:
/// zero albedo, and fully rough.
pub open spec fn empty_material() -> Material {
    Material { albedo: [0u32, 0u32, 0u32], roughness: ONE_BITS }
}

/// The half-size of the root cell of a tree of the given depth.
pub open spec fn root_half(tree_depth: nat) -> nat {
    if tree_depth == 0 {
        0
    } else {
        pow2((tree_depth - 1) as nat)
    }
}

/// All three coordinates lie in `[0, 2^tree_depth)`.
pub open spec fn in_range(x: int, y: int, z: int, tree_depth: nat) -> bool {
    &&& 0 <= x < pow2(tree_depth)
    &&& 0 <= y < pow2(tree_depth)
    &&& 0 <= z < pow2(tree_depth)
}

/// The query below `node`, with `levels` levels of the assumed depth still
/// to go. `finer` says whether the tree may be deeper than assumed.
///
/// A reference that points outside its table is treated as empty space.
pub open spec fn query_from(
    nodes: Seq<Seq<PackedNode>>,
    voxels: Seq<Voxel>,
    node: PackedNode,
    x: nat,
    y: nat,
    z: nat,
    half: nat,
    levels: nat,
    finer: bool,
) -> GetResult
    decreases levels,
{
    match node@ {
        NodeRef::Empty => if levels == 0 {
            GetResult::Empty
        } else {
            GetResult::Higher
        },
        NodeRef::Leaf(index) => if levels > 0 {
            GetResult::Higher
        } else if index < voxels.len() {
            GetResult::Hit(voxels[index as int].material)
        } else {
            GetResult::Empty
        },
        NodeRef::Branch(index) => if levels == 0 {
            if finer {
                GetResult::Branch
            } else {
                GetResult::Empty
            }
        } else if index >= nodes.len() || half == 0 {
            GetResult::Empty
        } else {
            query_from(
                nodes,
                voxels,
                nodes[index as int][octant(x, y, z, half)],
                x % half,
                y % half,
                z % half,
                half / 2,
                (levels - 1) as nat,
                finer,
            )
        },
    }
}

/// The query at cell `(x, y, z)` with the given assumed depth, in a tree of
/// depth `tree_depth`.
pub open spec fn query(
    nodes: Seq<Seq<PackedNode>>,
    voxels: Seq<Voxel>,
    root: PackedNode,
    x: int,
    y: int,
    z: int,
    tree_depth: nat,
    depth: nat,
) -> GetResult {
    if !in_range(x, y, z, tree_depth) {
        GetResult::OutOfRange
    } else {
        query_from(
            nodes,
            voxels,
            root,
            x as nat,
            y as nat,
            z as nat,
            root_half(tree_depth),
            depth,
            depth < tree_depth,
        )
    }
}

/// The material of the leaf that a descent of at most `levels` levels below
/// `node` reaches, if it reaches one and the leaf is populated.
pub open spec fn material_below(
    nodes: Seq<Seq<PackedNode>>,
    voxels: Seq<Voxel>,
    node: PackedNode,
    x: nat,
    y: nat,
    z: nat,
    half: nat,
    levels: nat,
) -> Option<Material>
    decreases levels,
{
    match node@ {
        NodeRef::Empty => None,
        NodeRef::Leaf(index) => if index < voxels.len() {
            Some(voxels[index as int].material)
        } else {
            None
        },
        NodeRef::Branch(index) => if levels == 0 || index >= nodes.len() || half == 0 {
            None
        } else {
            material_below(
                nodes,
                voxels,
                nodes[index as int][octant(x, y, z, half)],
                x % half,
                y % half,
                z % half,
                half / 2,
                (levels - 1) as nat,
            )
        },
    }
}

/// The material at cell `(x, y, z)` by direct descent from the root, in a
/// tree of depth `tree_depth`; nothing outside the extent.
pub open spec fn material_at(
    nodes: Seq<Seq<PackedNode>>,
    voxels: Seq<Voxel>,
    root: PackedNode,
    x: int,
    y: int,
    z: int,
    tree_depth: nat,
) -> Option<Material> {
    if !in_range(x, y, z, tree_depth) {
        None
    } else {
        material_below(
            nodes,
            voxels,
            root,
            x as nat,
            y as nat,
            z as nat,
            root_half(tree_depth),
            tree_depth,
        )
    }
}

/// `2^exponent` as a 64-bit word.
pub fn pow2_u64(exponent: u32) -> (r: u64)
    requires
        exponent <= 32,
    ensures
        r == pow2(exponent as nat),
        1 <= r <= 0x1_0000_0000,
{
    proof {
        vstd::arithmetic::power2::lemma2_to64();
        if exponent < 32 {
            lemma_pow2_strictly_increases(exponent as nat, 32);
        }
        lemma_pow2_pos(exponent as nat);
        vstd::bits::lemma_u64_shl_is_mul(1u64, exponent as u64);
    }
    1u64 << exponent
}

/// The half-size of the root cell of a tree of the given depth.
pub fn root_half_u64(tree_depth: u32) -> (r: u64)
    requires
        tree_depth <= 32,
    ensures
        r == root_half(tree_depth as nat),
        r <= 0x8000_0000,
{
    if tree_depth == 0 {
        0
    } else {
        proof {
            vstd::arithmetic::power2::lemma2_to64();
            if tree_depth < 32 {
                lemma_pow2_strictly_increases((tree_depth - 1) as nat, 31);
            }
        }
        pow2_u64(tree_depth - 1)
    }
}

/// Whether all three coordinates lie inside a tree of the given depth.
pub fn inside(x: i64, y: i64, z: i64, tree_depth: u32) -> (r: bool)
    requires
        tree_depth <= 32,
    ensures
        r == in_range(x as int, y as int, z as int, tree_depth as nat),
{
    let extent: i64 = pow2_u64(tree_depth) as i64;
    0 <= x && x < extent && 0 <= y && y < extent && 0 <= z && z < extent
}

/// Queries the packed octree at cell `(x, y, z)`, descending at most
/// `depth + 1` levels from the root.
///
/// A coordinate outside `[0, 2^tree_depth)` is answered before any table
/// is read, whatever the tables hold and whatever depth is assumed. A
/// reference that points outside its table is answered as empty space, and
/// so is a descent that goes on below the depth of the tree.
pub fn get(
    x: i64,
    y: i64,
    z: i64,
    nodes: &[[PackedNode; 8]],
    voxels: &[Voxel],
    root: PackedNode,
    tree_depth: u32,
    depth: u32,
) -> (r: GetResult)
    requires
        tree_depth <= 32,
    ensures
        r == query(
            node_table(nodes@),
            voxels@,
            root,
            x as int,
            y as int,
            z as int,
            tree_depth as nat,
            depth as nat,
        ),
        !in_range(x as int, y as int, z as int, tree_depth as nat) ==> r == GetResult::OutOfRange,
{
    if !inside(x, y, z, tree_depth) {
        return GetResult::OutOfRange;
    }
    proof {
        vstd::arithmetic::power2::lemma2_to64();
        if tree_depth < 32 {
            lemma_pow2_strictly_increases(tree_depth as nat, 32);
        }
    }
    let mut cx: u64 = x as u64;
    let mut cy: u64 = y as u64;
    let mut cz: u64 = z as u64;
    let mut node: PackedNode = root;
    let mut half: u64 = root_half_u64(tree_depth);
    let mut level: u32 = 0;
    let finer: bool = depth < tree_depth;
    let ghost table = node_table(nodes@);
    let ghost goal = query(
        table,
        voxels@,
        root,
        x as int,
        y as int,
        z as int,
        tree_depth as nat,
        depth as nat,
    );
    while level < depth
        invariant
            level <= depth,
            table == node_table(nodes@),
            goal == query(
                table,
                voxels@,
                root,
                x as int,
                y as int,
                z as int,
                tree_depth as nat,
                depth as nat,
            ),
            cx <= u32::MAX,
            cy <= u32::MAX,
            cz <= u32::MAX,
            half <= u32::MAX,
            goal == query_from(
                table,
                voxels@,
                node,
                cx as nat,
                cy as nat,
                cz as nat,
                half as nat,
                (depth - level) as nat,
                finer,
            ),
        decreases depth - level,
    {
        if node.is_leaf() {
            return GetResult::Higher;
        }
        let index: usize = node.0 as usize;
        if index >= nodes.len() || half == 0 {
            return GetResult::Empty;
        }
        let child: usize = octant_index(cx as u32, cy as u32, cz as u32, half as u32);
        assert(table[index as int] == nodes@[index as int]@);
        node = nodes[index][child];
        cx = cx % half;
        cy = cy % half;
        cz = cz % half;
        half = half / 2;
        level = level + 1;
    }
    if node.is_empty() {
        GetResult::Empty
    } else if node.is_leaf() {
        let index: usize = node.voxel_index() as usize;
        if index < voxels.len() {
            GetResult::Hit(voxels[index].material)
        } else {
            GetResult::Empty
        }
    } else if finer {
        GetResult::Branch
    } else {
        GetResult::Empty
    }
}

/// Looks up the material at cell `(x, y, z)` by direct descent from the
/// root: no assumed depth, no stepping.
pub fn lookup(
    x: i64,
    y: i64,
    z: i64,
    nodes: &[[PackedNode; 8]],
    voxels: &[Voxel],
    root: PackedNode,
    tree_depth: u32,
) -> (r: Option<Material>)
    requires
        tree_depth <= 32,
    ensures
        r == material_at(
            node_table(nodes@),
            voxels@,
            root,
            x as int,
            y as int,
            z as int,
            tree_depth as nat,
        ),
        !in_range(x as int, y as int, z as int, tree_depth as nat) ==> r is None,
{
    if !inside(x, y, z, tree_depth) {
        return None;
    }
    proof {
        vstd::arithmetic::power2::lemma2_to64();
        if tree_depth < 32 {
            lemma_pow2_strictly_increases(tree_depth as nat, 32);
        }
    }
    let mut cx: u64 = x as u64;
    let mut cy: u64 = y as u64;
    let mut cz: u64 = z as u64;
    let mut node: PackedNode = root;
    let mut half: u64 = root_half_u64(tree_depth);
    let mut level: u32 = 0;
    let ghost table = node_table(nodes@);
    let ghost goal = material_at(table, voxels@, root, x as int, y as int, z as int, tree_depth as nat);
    while level < tree_depth && !node.is_leaf()
        invariant
            level <= tree_depth,
            table == node_table(nodes@),
            goal == material_at(table, voxels@, root, x as int, y as int, z as int, tree_depth as nat),
            cx <= u32::MAX,
            cy <= u32::MAX,
            cz <= u32::MAX,
            half <= u32::MAX,
            goal == material_below(
                table,
                voxels@,
                node,
                cx as nat,
                cy as nat,
                cz as nat,
                half as nat,
                (tree_depth - level) as nat,
            ),
        decreases tree_depth - level,
    {
        let index: usize = node.0 as usize;
        if index >= nodes.len() || half == 0 {
            return None;
        }
        let child: usize = octant_index(cx as u32, cy as u32, cz as u32, half as u32);
        assert(table[index as int] == nodes@[index as int]@);
        node = nodes[index][child];
        cx = cx % half;
        cy = cy % half;
        cz = cz % half;
        half = half / 2;
        level = level + 1;
    }
    if node.is_empty() {
        None
    } else if node.is_leaf() {
        let index: usize = node.voxel_index() as usize;
        if index < voxels.len() {
            Some(voxels[index].material)
        } else {
            None
        }
    } else {
        None
    }
}

/// Component-wise `<=`.
pub fn less_than_equal(vec1: UVec3, vec2: UVec3) -> (r: BVec3)
    ensures
        r == (BVec3 { x: vec1.x <= vec2.x, y: vec1.y <= vec2.y, z: vec1.z <= vec2.z }),
{
    BVec3 { x: vec1.x <= vec2.x, y: vec1.y <= vec2.y, z: vec1.z <= vec2.z }
}

/// The smaller of two distances.
pub open spec fn smaller(a: u64, b: u64) -> u64 {
    if a <= b {
        a
    } else {
        b
    }
}

/// The sum of two distances, stopping at the largest value.
pub open spec fn saturating_sum(a: u64, b: u64) -> u64 {
    if a + b > u64::MAX {
        u64::MAX
    } else {
        (a + b) as u64
    }
}

/// A coordinate moved by `size` in the direction of `step`, stopping at the
/// ends of the machine range.
pub open spec fn shifted(coordinate: i64, step: i64, size: nat) -> i64 {
    if step > 0 {
        if coordinate + size > i64::MAX {
            i64::MAX
        } else {
            (coordinate + size) as i64
        }
    } else if step < 0 {
        if coordinate - size < i64::MIN {
            i64::MIN
        } else {
            (coordinate - size) as i64
        }
    } else {
        coordinate
    }
}

/// The edge of a cell at the given depth, in units of the smallest cell.
pub open spec fn cell_size(tree_depth: nat, depth: nat) -> nat {
    pow2((tree_depth - depth) as nat)
}

/// A coordinate moved by `size` in the direction of `step`.
pub fn shift(coordinate: i64, step: i64, size: u64) -> (r: i64)
    requires
        size <= 0x1_0000_0000,
    ensures
        r == shifted(coordinate, step, size as nat),
{
    let by: i64 = size as i64;
    if step > 0 {
        if coordinate > i64::MAX - by {
            i64::MAX
        } else {
            coordinate + by
        }
    } else if step < 0 {
        if coordinate < i64::MIN + by {
            i64::MIN
        } else {
            coordinate - by
        }
    } else {
        coordinate
    }
}

impl Placement {
    /// The octree cell that the world cell `(x, y, z)` is.
    pub fn to_octree(&self, x: i32, y: i32, z: i32) -> (cell: IVec3)
        ensures
            cell.x == x - self.x,
            cell.y == y - self.y,
            cell.z == z - self.z,
    {
        let wide_x: i64 = x as i64;
        let wide_y: i64 = y as i64;
        let wide_z: i64 = z as i64;
        IVec3 {
            x: wide_x - self.x as i64,
            y: wide_y - self.y as i64,
            z: wide_z - self.z as i64,
        }
    }
}

impl UVec3 {
    /// The axes whose distance is the smallest of the three: more than one
    /// where distances tie.
    pub open spec fn nearest(self) -> BVec3 {
        BVec3 {
            x: self.x <= smaller(self.y, self.z),
            y: self.y <= smaller(self.z, self.x),
            z: self.z <= smaller(self.x, self.y),
        }
    }

    /// The component-wise smaller of two vectors.
    pub fn min(self, other: UVec3) -> (r: UVec3)
        ensures
            r == (UVec3 {
                x: smaller(self.x, other.x),
                y: smaller(self.y, other.y),
                z: smaller(self.z, other.z),
            }),
    {
        UVec3 {
            x: if self.x <= other.x { self.x } else { other.x },
            y: if self.y <= other.y { self.y } else { other.y },
            z: if self.z <= other.z { self.z } else { other.z },
        }
    }

    /// The axes whose distance is the smallest of the three.
    pub fn nearest_axes(self) -> (r: BVec3)
        ensures
            r == self.nearest(),
    {
        let yzx = UVec3 { x: self.y, y: self.z, z: self.x };
        let zxy = UVec3 { x: self.z, y: self.x, z: self.y };
        less_than_equal(self, yzx.min(zxy))
    }
}

/// Under a query that reports a coarser tree, the assumed depth is not zero;
/// under one that reports a finer tree, `finer` holds.
pub proof fn lemma_query_from_corrects(
    nodes: Seq<Seq<PackedNode>>,
    voxels: Seq<Voxel>,
    node: PackedNode,
    x: nat,
    y: nat,
    z: nat,
    half: nat,
    levels: nat,
    finer: bool,
)
    ensures
        query_from(nodes, voxels, node, x, y, z, half, levels, finer) is Higher ==> levels > 0,
        query_from(nodes, voxels, node, x, y, z, half, levels, finer) is Branch ==> finer,
    decreases levels,
{
    if levels > 0 {
        if let NodeRef::Branch(index) = node@ {
            if index < nodes.len() && half != 0 {
                lemma_query_from_corrects(
                    nodes,
                    voxels,
                    nodes[index as int][octant(x, y, z, half)],
                    x % half,
                    y % half,
                    z % half,
                    half / 2,
                    (levels - 1) as nat,
                    finer,
                );
            }
        }
    }
}

/// The sign of a direction component: the way the walk moves on that axis.
pub open spec fn step_sign(direction: i32) -> i64 {
    if direction > 0 {
        1i64
    } else if direction < 0 {
        -1i64
    } else {
        0i64
    }
}

/// The absolute value of a direction component.
pub open spec fn magnitude(direction: i32) -> nat {
    if direction < 0 {
        (-direction) as nat
    } else {
        direction as nat
    }
}

/// The distance along the ray between two cell borders of an axis: the
/// reciprocal of the magnitude of the direction on that axis, rounded down
/// in fixed point. An axis along which the ray does not move has the
/// largest distance.
pub open spec fn delta_distance(direction: i32) -> u64 {
    if direction == 0 {
        u64::MAX
    } else {
        ((FIXED_ONE * FIXED_ONE) / magnitude(direction) as int) as u64
    }
}

/// The distance along the ray from its origin to the first cell border of
/// an axis. `fraction` is the offset of the origin within its cell on that
/// axis, in fixed point: the border lies `1 - fraction` ahead where the ray
/// moves up the axis and `fraction` behind where it moves down.
pub open spec fn side_distance(direction: i32, fraction: u16) -> u64 {
    if direction > 0 {
        ((FIXED_ONE - fraction) * delta_distance(direction) / FIXED_ONE as int) as u64
    } else if direction < 0 {
        (fraction * delta_distance(direction) / FIXED_ONE as int) as u64
    } else {
        u64::MAX
    }
}

/// The sign, the delta distance and the first side distance of one axis.
pub fn start_axis(direction: i32, fraction: u16) -> (r: (i64, u64, u64))
    ensures
        r.0 == step_sign(direction),
        r.1 == delta_distance(direction),
        r.2 == side_distance(direction, fraction),
{
    if direction == 0 {
        return (0, u64::MAX, u64::MAX);
    }
    let wide: i64 = direction as i64;
    let size: u64 = if direction < 0 {
        (-wide) as u64
    } else {
        wide as u64
    };
    let delta: u64 = (FIXED_ONE * FIXED_ONE) / size;
    let ahead: u64 = if direction > 0 {
        FIXED_ONE - fraction as u64
    } else {
        fraction as u64
    };
    assert(delta <= 0x1_0000_0000) by (nonlinear_arith)
        requires
            delta == 0x1_0000_0000u64 / size,
            size >= 1,
    ;
    assert(ahead * delta <= 0x1_0000 * 0x1_0000_0000) by (nonlinear_arith)
        requires
            ahead <= 0x1_0000,
            delta <= 0x1_0000_0000,
    ;
    let side: u64 = ahead * delta / FIXED_ONE;
    (if direction > 0 { 1 } else { -1 }, delta, side)
}

/// The walk of at most `budget` further queries, `taken` queries having been
/// made before: it stops at the first hit, and reports a miss with the empty
/// material when the budget is used up.
pub open spec fn walk(
    ray: Ray,
    nodes: Seq<Seq<PackedNode>>,
    voxels: Seq<Voxel>,
    root: PackedNode,
    tree_depth: nat,
    budget: nat,
    taken: nat,
) -> Walk
    decreases budget,
{
    if budget == 0 {
        Walk {
            ray,
            hit: HitResult { exists: false, material: empty_material(), steps: taken as usize },
        }
    } else {
        let result = ray.observed(nodes, voxels, root, tree_depth);
        match result {
            GetResult::Hit(material) => Walk {
                ray,
                hit: HitResult { exists: true, material, steps: (taken + 1) as usize },
            },
            _ => walk(
                ray.after(result, tree_depth),
                nodes,
                voxels,
                root,
                tree_depth,
                (budget - 1) as nat,
                taken + 1,
            ),
        }
    }
}

/// The colour that a report stands for: the albedo of a hit, black for a
/// miss.
pub open spec fn color_of(hit: HitResult) -> [u32; 3] {
    if hit.exists {
        hit.material.albedo
    } else {
        [0u32, 0u32, 0u32]
    }
}

impl Ray {
    /// The walk of a ray at its start, with an assumed depth of one.
    ///
    /// `cell` is the cell that holds the origin of the ray and `fraction`
    /// the offset of the origin within that cell, `direction` the direction
    /// of the ray; the last two in fixed point, axis by axis.
    pub fn start(cell: IVec3, fraction: (u16, u16, u16), direction: (i32, i32, i32)) -> (r: Ray)
        ensures
            r == (Ray {
                cell,
                ray_step: IVec3 {
                    x: step_sign(direction.0),
                    y: step_sign(direction.1),
                    z: step_sign(direction.2),
                },
                delta_dist: UVec3 {
                    x: delta_distance(direction.0),
                    y: delta_distance(direction.1),
                    z: delta_distance(direction.2),
                },
                side_dist: UVec3 {
                    x: side_distance(direction.0, fraction.0),
                    y: side_distance(direction.1, fraction.1),
                    z: side_distance(direction.2, fraction.2),
                },
                depth: 1,
            }),
    {
        let x = start_axis(direction.0, fraction.0);
        let y = start_axis(direction.1, fraction.1);
        let z = start_axis(direction.2, fraction.2);
        Ray {
            cell,
            ray_step: IVec3 { x: x.0, y: y.0, z: z.0 },
            delta_dist: UVec3 { x: x.1, y: y.1, z: z.1 },
            side_dist: UVec3 { x: x.2, y: y.2, z: z.2 },
            depth: 1,
        }
    }

    /// A walk that starts in `cell` with an assumed depth of one.
    pub fn new(cell: IVec3, ray_step: IVec3, delta_dist: UVec3, side_dist: UVec3) -> (r: Ray)
        ensures
            r == (Ray { cell, ray_step, delta_dist, side_dist, depth: 1 }),
    {
        Ray { cell, ray_step, delta_dist, side_dist, depth: 1 }
    }

    /// What a query at the current cell and assumed depth reports.
    pub open spec fn observed(
        self,
        nodes: Seq<Seq<PackedNode>>,
        voxels: Seq<Voxel>,
        root: PackedNode,
        tree_depth: nat,
    ) -> GetResult {
        query(
            nodes,
            voxels,
            root,
            self.cell.x as int,
            self.cell.y as int,
            self.cell.z as int,
            tree_depth,
            self.depth as nat,
        )
    }

    /// The walk moved on by one cell of the assumed depth: every axis whose
    /// side distance is the smallest moves by the cell size in the sign of
    /// its step, and its side distance grows by its delta distance.
    pub open spec fn advanced(self, tree_depth: nat) -> Ray {
        let mask = self.side_dist.nearest();
        let size = cell_size(tree_depth, self.depth as nat);
        Ray {
            cell: IVec3 {
                x: if mask.x {
                    shifted(self.cell.x, self.ray_step.x, size)
                } else {
                    self.cell.x
                },
                y: if mask.y {
                    shifted(self.cell.y, self.ray_step.y, size)
                } else {
                    self.cell.y
                },
                z: if mask.z {
                    shifted(self.cell.z, self.ray_step.z, size)
                } else {
                    self.cell.z
                },
            },
            side_dist: UVec3 {
                x: if mask.x {
                    saturating_sum(self.side_dist.x, self.delta_dist.x)
                } else {
                    self.side_dist.x
                },
                y: if mask.y {
                    saturating_sum(self.side_dist.y, self.delta_dist.y)
                } else {
                    self.side_dist.y
                },
                z: if mask.z {
                    saturating_sum(self.side_dist.z, self.delta_dist.z)
                } else {
                    self.side_dist.z
                },
            },
            ..self
        }
    }

    /// The walk after one query has been answered by `result`: one level
    /// finer on a branch, one level coarser on a leaf above the assumed
    /// depth, unchanged on a hit, and moved on by one cell otherwise.
    pub open spec fn after(self, result: GetResult, tree_depth: nat) -> Ray {
        match result {
            GetResult::Branch => Ray { depth: (self.depth + 1) as u32, ..self },
            GetResult::Higher => Ray { depth: (self.depth - 1) as u32, ..self },
            GetResult::Hit(_) => self,
            GetResult::Empty => self.advanced(tree_depth),
            GetResult::OutOfRange => self.advanced(tree_depth),
        }
    }

    /// Moves the walk on by one cell of the assumed depth.
    pub fn advance(&mut self, tree_depth: u32)
        requires
            old(self).depth <= tree_depth <= 32,
        ensures
            *final(self) == old(self).advanced(tree_depth as nat),
    {
        let mask = self.side_dist.nearest_axes();
        let size: u64 = pow2_u64(tree_depth - self.depth);
        if mask.x {
            self.cell.x = shift(self.cell.x, self.ray_step.x, size);
            self.side_dist.x = self.side_dist.x.saturating_add(self.delta_dist.x);
        }
        if mask.y {
            self.cell.y = shift(self.cell.y, self.ray_step.y, size);
            self.side_dist.y = self.side_dist.y.saturating_add(self.delta_dist.y);
        }
        if mask.z {
            self.cell.z = shift(self.cell.z, self.ray_step.z, size);
            self.side_dist.z = self.side_dist.z.saturating_add(self.delta_dist.z);
        }
    }

    /// Makes one query at the current cell and lets the walk follow its
    /// answer.
    pub fn step(
        &mut self,
        nodes: &[[PackedNode; 8]],
        voxels: &[Voxel],
        root: PackedNode,
        tree_depth: u32,
    ) -> (r: GetResult)
        requires
            old(self).depth <= tree_depth <= 32,
        ensures
            r == old(self).observed(node_table(nodes@), voxels@, root, tree_depth as nat),
            *final(self) == old(self).after(r, tree_depth as nat),
            final(self).depth <= tree_depth,
    {
        let result = get(
            self.cell.x,
            self.cell.y,
            self.cell.z,
            nodes,
            voxels,
            root,
            tree_depth,
            self.depth,
        );
        proof {
            if in_range(
                self.cell.x as int,
                self.cell.y as int,
                self.cell.z as int,
                tree_depth as nat,
            ) {
                lemma_query_from_corrects(
                    node_table(nodes@),
                    voxels@,
                    root,
                    self.cell.x as nat,
                    self.cell.y as nat,
                    self.cell.z as nat,
                    root_half(tree_depth as nat),
                    self.depth as nat,
                    self.depth < tree_depth,
                );
            }
        }
        match result {
            GetResult::Branch => {
                self.depth = self.depth + 1;
            },
            GetResult::Higher => {
                self.depth = self.depth - 1;
            },
            GetResult::Hit(_) => {},
            GetResult::Empty => {
                self.advance(tree_depth);
            },
            GetResult::OutOfRange => {
                self.advance(tree_depth);
            },
        }
        result
    }

    /// Walks the packed octree from the current state: up to
    /// `TRAVERSAL_STEPS` queries, stopping at the first hit. The ray is left
    /// in the state in which the walk stopped.
    pub fn traverse(
        &mut self,
        nodes: &[[PackedNode; 8]],
        voxels: &[Voxel],
        root: PackedNode,
        tree_depth: u32,
    ) -> (hit: HitResult)
        requires
            old(self).depth <= tree_depth <= 32,
        ensures
            (Walk { ray: *final(self), hit }) == walk(
                *old(self),
                node_table(nodes@),
                voxels@,
                root,
                tree_depth as nat,
                TRAVERSAL_STEPS as nat,
                0,
            ),
            final(self).depth <= tree_depth,
            1 <= hit.steps <= TRAVERSAL_STEPS,
            !hit.exists ==> hit.steps == TRAVERSAL_STEPS && hit.material == empty_material(),
    {
        let ghost start = *self;
        let ghost table = node_table(nodes@);
        let mut taken: usize = 0;
        while taken < TRAVERSAL_STEPS
            invariant
                taken <= TRAVERSAL_STEPS,
                self.depth <= tree_depth <= 32,
                start == *old(self),
                table == node_table(nodes@),
                walk(start, table, voxels@, root, tree_depth as nat, TRAVERSAL_STEPS as nat, 0)
                    == walk(
                    *self,
                    table,
                    voxels@,
                    root,
                    tree_depth as nat,
                    (TRAVERSAL_STEPS - taken) as nat,
                    taken as nat,
                ),
            decreases TRAVERSAL_STEPS - taken,
        {
            let result = self.step(nodes, voxels, root, tree_depth);
            taken = taken + 1;
            if let GetResult::Hit(material) = result {
                return HitResult { exists: true, material, steps: taken };
            }
        }
        HitResult {
            exists: false,
            material: Material { albedo: [0, 0, 0], roughness: ONE_BITS },
            steps: taken,
        }
    }

    /// Walks the packed octree and gives the colour of what was found: the
    /// albedo of the hit, or black.
    pub fn color(
        &mut self,
        nodes: &[[PackedNode; 8]],
        voxels: &[Voxel],
        root: PackedNode,
        tree_depth: u32,
    ) -> (rgb: [u32; 3])
        requires
            old(self).depth <= tree_depth <= 32,
        ensures
            rgb == color_of(
                walk(
                    *old(self),
                    node_table(nodes@),
                    voxels@,
                    root,
                    tree_depth as nat,
                    TRAVERSAL_STEPS as nat,
                    0,
                ).hit,
            ),
            *final(self) == walk(
                *old(self),
                node_table(nodes@),
                voxels@,
                root,
                tree_depth as nat,
                TRAVERSAL_STEPS as nat,
                0,
            ).ray,
    {
        let hit_result = self.traverse(nodes, voxels, root, tree_depth);
        if hit_result.exists {
            hit_result.material.albedo
        } else {
            [0, 0, 0]
        }
    }
}

} // verus!
