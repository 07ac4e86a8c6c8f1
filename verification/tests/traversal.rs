use svo_tracer::svo::{Node, PackedSparseVoxelOctree, SparseVoxelOctree};
use svo_tracer::traversal::{
    get, inside, less_than_equal, pow2_u64, root_half_u64, shift, start_axis, BVec3, GetResult,
    HitResult, IVec3, Placement, Ray, UVec3, FIXED_ONE, TRAVERSAL_STEPS,
};
use svo_tracer::{Material, PackedNode, Voxel};

fn red() -> Voxel {
    Voxel {
        material: Material {
            albedo: [1.0f32.to_bits(), 0.0f32.to_bits(), 0.0f32.to_bits()],
            roughness: 1.0f32.to_bits(),
        },
    }
}

fn numbered(n: u32) -> Voxel {
    Voxel { material: Material { albedo: [n, n + 1, n + 2], roughness: 7 } }
}

fn miss_material() -> Material {
    Material { albedo: [0, 0, 0], roughness: 1.0f32.to_bits() }
}

/// The walk of a ray that starts at the corner of the cell (0, 0, 0).
fn ray_from_origin(direction: [f32; 3]) -> Ray {
    let length = direction.iter().map(|d| d * d).sum::<f32>().sqrt();
    let fixed = |d: f32| (d / length * FIXED_ONE as f32) as i32;
    Ray::start(
        IVec3 { x: 0, y: 0, z: 0 },
        (0, 0, 0),
        (fixed(direction[0]), fixed(direction[1]), fixed(direction[2])),
    )
}

/// Depth 2, one solid leaf at octant (1, 1, 1) of the root.
fn corner_tree() -> PackedSparseVoxelOctree {
    let mut tree = SparseVoxelOctree::from_root(Node::Leaf(None), 2);
    tree.insert(2, 2, 2, Node::Leaf(Some(red())), 1);
    tree.pack()
}

/// Depth 3. Octant 0 of the root is a branch whose octant 7 is a branch of
/// numbered leaves; everything else is empty.
fn nested_tree() -> PackedSparseVoxelOctree {
    let mut tree = SparseVoxelOctree::from_root(Node::Leaf(None), 3);
    let leaves: Vec<Node> = (0..8).map(|i| Node::Leaf(Some(numbered(10 * i)))).collect();
    tree.insert(2, 2, 2, Node::Branch { children: leaves }, 2);
    tree.pack()
}

#[test]
fn diagonal_ray_hits_the_corner_leaf() {
    let packed = corner_tree();
    let mut ray = ray_from_origin([1.0, 1.0, 1.0]);
    let hit = ray.traverse(&packed.nodes, &packed.voxels, packed.root, 2);
    assert!(hit.exists);
    assert_eq!(hit.material, red().material);
    assert_eq!(f32::from_bits(hit.material.albedo[0]), 1.0);
    assert_eq!(f32::from_bits(hit.material.albedo[1]), 0.0);
    assert_eq!(f32::from_bits(hit.material.albedo[2]), 0.0);
    assert!(hit.steps <= TRAVERSAL_STEPS);
    assert_eq!(hit.steps, 2);
    assert_eq!(ray.cell, IVec3 { x: 2, y: 2, z: 2 });
    assert_eq!(ray.depth, 1);
}

#[test]
fn colour_of_a_hit_is_its_albedo() {
    let packed = corner_tree();
    let mut ray = ray_from_origin([1.0, 1.0, 1.0]);
    let rgb = ray.color(&packed.nodes, &packed.voxels, packed.root, 2);
    assert_eq!(rgb, [1.0f32.to_bits(), 0, 0]);
}

#[test]
fn ray_pointing_away_misses() {
    let packed = corner_tree();
    let mut ray = ray_from_origin([-1.0, -1.0, -1.0]);
    let hit = ray.traverse(&packed.nodes, &packed.voxels, packed.root, 2);
    assert_eq!(hit, HitResult { exists: false, material: miss_material(), steps: TRAVERSAL_STEPS });
    // Every one of the 40 queries is followed by a move of one cell of size 2.
    assert_eq!(ray.cell, IVec3 { x: -80, y: -80, z: -80 });

    let mut ray = ray_from_origin([-1.0, -1.0, -1.0]);
    assert_eq!(ray.color(&packed.nodes, &packed.voxels, packed.root, 2), [0, 0, 0]);
}

#[test]
fn empty_tree_misses_for_every_ray() {
    let packed = SparseVoxelOctree::with_threshold(2, 0x100_0000).pack();
    assert!(packed.voxels.is_empty());
    let directions = [
        [1.0, 1.0, 1.0],
        [-1.0, -1.0, -1.0],
        [1.0, 0.0, 0.0],
        [0.0, 1.0, 0.0],
        [0.0, 0.0, -1.0],
        [0.3, 0.9, 0.1],
        [-0.2, 0.5, 0.7],
        [0.01, 1.0, -0.01],
    ];
    for direction in directions {
        let mut ray = ray_from_origin(direction);
        let hit = ray.traverse(&packed.nodes, &packed.voxels, packed.root, 2);
        assert!(!hit.exists);
        assert_eq!(hit.material, miss_material());
        assert_eq!(hit.steps, TRAVERSAL_STEPS);
        assert_eq!(hit.steps, 40);
    }
}

#[test]
fn empty_root_leaf_misses_in_exactly_the_budget() {
    let packed = SparseVoxelOctree::from_root(Node::Leaf(None), 4).pack();
    assert_eq!(packed.root, PackedNode(u32::MAX));
    let mut ray = ray_from_origin([1.0, 0.5, 0.25]);
    let hit = ray.traverse(&packed.nodes, &packed.voxels, packed.root, 4);
    assert_eq!(hit, HitResult { exists: false, material: miss_material(), steps: 40 });
    // The first query finds the root leaf above the assumed depth.
    assert_eq!(ray.depth, 0);
}

#[test]
fn query_reports_out_of_range_before_reading_any_table() {
    let nodes: Vec<[PackedNode; 8]> = Vec::new();
    let voxels: Vec<Voxel> = Vec::new();
    let dangling = PackedNode(5);
    for (x, y, z) in [(-1, 0, 0), (0, -1, 0), (0, 0, -1), (4, 0, 0), (0, 4, 0), (0, 0, 4), (i64::MIN, 0, 0), (0, 0, i64::MAX)] {
        assert_eq!(get(x, y, z, &nodes, &voxels, dangling, 2, 1), GetResult::OutOfRange);
    }
}

#[test]
fn query_treats_dangling_references_as_empty() {
    let nodes: Vec<[PackedNode; 8]> = Vec::new();
    let voxels: Vec<Voxel> = Vec::new();
    assert_eq!(get(0, 0, 0, &nodes, &voxels, PackedNode(5), 2, 1), GetResult::Empty);
    assert_eq!(get(0, 0, 0, &nodes, &voxels, PackedNode::leaf(3), 2, 0), GetResult::Empty);
    assert_eq!(get(0, 0, 0, &nodes, &voxels, PackedNode(5), 2, 0), GetResult::Branch);
}

#[test]
fn query_results_by_assumed_depth() {
    let packed = nested_tree();
    let q = |x, y, z, depth| get(x, y, z, &packed.nodes, &packed.voxels, packed.root, 3, depth);

    // The cell (3, 2, 3) lies in a leaf of depth 3 = octant 5 of the inner branch.
    assert_eq!(q(3, 2, 3, 0), GetResult::Branch);
    assert_eq!(q(3, 2, 3, 1), GetResult::Branch);
    assert_eq!(q(3, 2, 3, 2), GetResult::Branch);
    assert_eq!(q(3, 2, 3, 3), GetResult::Hit(numbered(50).material));

    // The cell (1, 1, 1) lies in an empty leaf of depth 2.
    assert_eq!(q(1, 1, 1, 0), GetResult::Branch);
    assert_eq!(q(1, 1, 1, 1), GetResult::Branch);
    assert_eq!(q(1, 1, 1, 2), GetResult::Empty);
    assert_eq!(q(1, 1, 1, 3), GetResult::Higher);

    // The cell (5, 1, 1) lies in an empty leaf of depth 1.
    assert_eq!(q(5, 1, 1, 0), GetResult::Branch);
    assert_eq!(q(5, 1, 1, 1), GetResult::Empty);
    assert_eq!(q(5, 1, 1, 2), GetResult::Higher);
    assert_eq!(q(5, 1, 1, 3), GetResult::Higher);
}

#[test]
fn query_reports_a_populated_leaf_above_the_assumed_depth_as_higher() {
    let packed = corner_tree();
    let q = |depth| get(3, 2, 3, &packed.nodes, &packed.voxels, packed.root, 2, depth);
    assert_eq!(q(0), GetResult::Branch);
    assert_eq!(q(1), GetResult::Hit(red().material));
    assert_eq!(q(2), GetResult::Higher);
}

#[test]
fn query_on_a_tree_deeper_than_its_depth_is_empty() {
    // A branch where the depth allows none: nothing is resolved.
    let mut nodes = vec![[PackedNode(u32::MAX); 8]];
    nodes[0][0] = PackedNode(0);
    let voxels: Vec<Voxel> = Vec::new();
    assert_eq!(get(0, 0, 0, &nodes, &voxels, PackedNode(0), 1, 1), GetResult::Empty);
    assert_eq!(get(0, 0, 0, &nodes, &voxels, PackedNode(0), 0, 0), GetResult::Empty);
}

#[test]
fn walk_zooms_in_on_branches_and_out_on_coarser_leaves() {
    let packed = nested_tree();
    let mut ray = ray_from_origin([1.0, 1.0, 1.0]);
    let trace: Vec<(GetResult, IVec3, u32)> = (0..8)
        .map(|_| {
            let result = ray.step(&packed.nodes, &packed.voxels, packed.root, 3);
            (result, ray.cell, ray.depth)
        })
        .collect();
    let at = |c: i64| IVec3 { x: c, y: c, z: c };
    assert_eq!(
        trace,
        vec![
            (GetResult::Branch, at(0), 2),
            (GetResult::Empty, at(2), 2),
            (GetResult::Branch, at(2), 3),
            (GetResult::Hit(numbered(0).material), at(2), 3),
            (GetResult::Hit(numbered(0).material), at(2), 3),
            (GetResult::Hit(numbered(0).material), at(2), 3),
            (GetResult::Hit(numbered(0).material), at(2), 3),
            (GetResult::Hit(numbered(0).material), at(2), 3),
        ]
    );

    let mut ray = ray_from_origin([1.0, 1.0, 1.0]);
    let hit = ray.traverse(&packed.nodes, &packed.voxels, packed.root, 3);
    assert_eq!(hit, HitResult { exists: true, material: numbered(0).material, steps: 4 });
}

#[test]
fn step_after_a_coarser_answer_uses_the_doubled_cell() {
    let packed = nested_tree();
    // Start in the empty octant 1 of the root, which is a leaf of depth 1, while
    // assuming depth 3.
    let mut ray = Ray {
        cell: IVec3 { x: 4, y: 0, z: 0 },
        ray_step: IVec3 { x: 1, y: 1, z: 1 },
        delta_dist: UVec3 { x: 10, y: 30, z: 30 },
        side_dist: UVec3 { x: 5, y: 15, z: 15 },
        depth: 3,
    };
    let mut finer = ray;
    finer.advance(3);
    assert_eq!(finer.cell, IVec3 { x: 5, y: 0, z: 0 });

    assert_eq!(ray.step(&packed.nodes, &packed.voxels, packed.root, 3), GetResult::Higher);
    assert_eq!((ray.cell, ray.depth), (IVec3 { x: 4, y: 0, z: 0 }, 2));
    let mut coarser = ray;
    coarser.advance(3);
    assert_eq!(coarser.cell, IVec3 { x: 6, y: 0, z: 0 });

    assert_eq!(ray.step(&packed.nodes, &packed.voxels, packed.root, 3), GetResult::Higher);
    assert_eq!((ray.cell, ray.depth), (IVec3 { x: 4, y: 0, z: 0 }, 1));
    assert_eq!(ray.step(&packed.nodes, &packed.voxels, packed.root, 3), GetResult::Empty);
    assert_eq!((ray.cell, ray.depth), (IVec3 { x: 8, y: 0, z: 0 }, 1));
    assert_eq!(ray.side_dist, UVec3 { x: 15, y: 15, z: 15 });
}

#[test]
fn advance_moves_only_the_nearest_axes() {
    let mut ray = Ray {
        cell: IVec3 { x: 1, y: 2, z: 3 },
        ray_step: IVec3 { x: 1, y: -1, z: 1 },
        delta_dist: UVec3 { x: 7, y: 11, z: 13 },
        side_dist: UVec3 { x: 9, y: 4, z: 6 },
        depth: 4,
    };
    ray.advance(4);
    assert_eq!(ray.cell, IVec3 { x: 1, y: 1, z: 3 });
    assert_eq!(ray.side_dist, UVec3 { x: 9, y: 15, z: 6 });
    ray.advance(4);
    assert_eq!(ray.cell, IVec3 { x: 1, y: 1, z: 4 });
    assert_eq!(ray.side_dist, UVec3 { x: 9, y: 15, z: 19 });
    ray.advance(4);
    assert_eq!(ray.cell, IVec3 { x: 2, y: 1, z: 4 });
    assert_eq!(ray.side_dist, UVec3 { x: 16, y: 15, z: 19 });
    assert_eq!(ray.depth, 4);
    assert_eq!(ray.delta_dist, UVec3 { x: 7, y: 11, z: 13 });
}

#[test]
fn advance_moves_every_axis_of_a_tie() {
    let mut ray = Ray {
        cell: IVec3 { x: 0, y: 0, z: 0 },
        ray_step: IVec3 { x: 1, y: -1, z: 0 },
        delta_dist: UVec3 { x: 3, y: 3, z: 3 },
        side_dist: UVec3 { x: 2, y: 2, z: 2 },
        depth: 1,
    };
    ray.advance(3);
    assert_eq!(ray.cell, IVec3 { x: 4, y: -4, z: 0 });
    assert_eq!(ray.side_dist, UVec3 { x: 5, y: 5, z: 5 });
}

#[test]
fn advance_cell_size_follows_the_assumed_depth() {
    for depth in 0..=5u32 {
        let mut ray = Ray {
            cell: IVec3 { x: 100, y: 100, z: 100 },
            ray_step: IVec3 { x: -7, y: 0, z: 9 },
            delta_dist: UVec3 { x: 1, y: 1, z: 1 },
            side_dist: UVec3 { x: 0, y: 5, z: 5 },
            depth,
        };
        ray.advance(5);
        assert_eq!(ray.cell, IVec3 { x: 100 - (1 << (5 - depth)), y: 100, z: 100 });
    }
}

#[test]
fn advance_saturates_distances_and_positions() {
    let mut ray = Ray {
        cell: IVec3 { x: i64::MAX - 1, y: i64::MIN + 1, z: 0 },
        ray_step: IVec3 { x: 1, y: -1, z: 1 },
        delta_dist: UVec3 { x: u64::MAX, y: 2, z: u64::MAX },
        side_dist: UVec3 { x: 1, y: 1, z: 1 },
        depth: 0,
    };
    ray.advance(2);
    assert_eq!(ray.cell, IVec3 { x: i64::MAX, y: i64::MIN, z: 4 });
    assert_eq!(ray.side_dist, UVec3 { x: u64::MAX, y: 3, z: u64::MAX });
}

#[test]
fn axis_that_is_never_reached_is_never_stepped() {
    // A ray along x: the other two axes have an unreachable side distance.
    let packed = SparseVoxelOctree::with_threshold(2, 0x100_0000).pack();
    let mut ray = Ray::new(
        IVec3 { x: 0, y: 1, z: 2 },
        IVec3 { x: 1, y: 0, z: 0 },
        UVec3 { x: 1 << 16, y: u64::MAX, z: u64::MAX },
        UVec3 { x: 1 << 16, y: u64::MAX, z: u64::MAX },
    );
    let hit = ray.traverse(&packed.nodes, &packed.voxels, packed.root, 2);
    assert!(!hit.exists);
    assert_eq!((ray.cell.y, ray.cell.z), (1, 2));
    assert!(ray.cell.x > 0);
}

#[test]
fn shift_moves_by_the_sign_only() {
    assert_eq!(shift(10, 5, 4), 14);
    assert_eq!(shift(10, -5, 4), 6);
    assert_eq!(shift(10, 0, 4), 10);
    assert_eq!(shift(i64::MAX - 3, 1, 4), i64::MAX);
    assert_eq!(shift(i64::MAX - 4, 1, 4), i64::MAX);
    assert_eq!(shift(i64::MIN + 3, -1, 4), i64::MIN);
    assert_eq!(shift(0, i64::MIN, 0x1_0000_0000), -0x1_0000_0000);
}

#[test]
fn less_than_equal_is_component_wise() {
    let a = UVec3 { x: 1, y: 5, z: 9 };
    let b = UVec3 { x: 1, y: 4, z: 10 };
    assert_eq!(less_than_equal(a, b), BVec3 { x: true, y: false, z: true });
    assert_eq!(a.min(b), UVec3 { x: 1, y: 4, z: 9 });
}

#[test]
fn nearest_axes_marks_every_minimum() {
    let mask = |x, y, z| UVec3 { x, y, z }.nearest_axes();
    assert_eq!(mask(1, 2, 3), BVec3 { x: true, y: false, z: false });
    assert_eq!(mask(3, 1, 2), BVec3 { x: false, y: true, z: false });
    assert_eq!(mask(3, 2, 1), BVec3 { x: false, y: false, z: true });
    assert_eq!(mask(1, 1, 3), BVec3 { x: true, y: true, z: false });
    assert_eq!(mask(2, 1, 1), BVec3 { x: false, y: true, z: true });
    assert_eq!(mask(4, 4, 4), BVec3 { x: true, y: true, z: true });
}

#[test]
fn extent_helpers() {
    assert_eq!(pow2_u64(0), 1);
    assert_eq!(pow2_u64(32), 0x1_0000_0000);
    assert_eq!(root_half_u64(0), 0);
    assert_eq!(root_half_u64(1), 1);
    assert_eq!(root_half_u64(32), 0x8000_0000);
    assert!(inside(0, 0, 0, 0));
    assert!(!inside(1, 0, 0, 0));
    assert!(inside(15, 15, 15, 4));
    assert!(!inside(16, 15, 15, 4));
    assert!(!inside(15, -1, 15, 4));
    assert!(inside(0xFFFF_FFFF, 0, 0, 32));
    assert!(!inside(0x1_0000_0000, 0, 0, 32));
}

#[test]
fn new_ray_assumes_depth_one() {
    let ray = Ray::new(
        IVec3 { x: 1, y: 2, z: 3 },
        IVec3 { x: 1, y: 1, z: -1 },
        UVec3 { x: 4, y: 5, z: 6 },
        UVec3 { x: 7, y: 8, z: 9 },
    );
    assert_eq!(ray.depth, 1);
    assert_eq!(ray.cell, IVec3 { x: 1, y: 2, z: 3 });
    assert_eq!(ray.side_dist, UVec3 { x: 7, y: 8, z: 9 });
}

#[test]
fn start_of_an_axis() {
    // Direction 1.0: a border every 1.0 along the ray.
    assert_eq!(start_axis(65_536, 0), (1, 65_536, 65_536));
    assert_eq!(start_axis(-65_536, 0), (-1, 65_536, 0));
    // Direction 0.5, origin a quarter into its cell.
    assert_eq!(start_axis(32_768, 16_384), (1, 131_072, 98_304));
    assert_eq!(start_axis(-32_768, 16_384), (-1, 131_072, 32_768));
    // Direction 1 / sqrt(3).
    assert_eq!(start_axis(37_837, 0), (1, 113_512, 113_512));
    // No movement on the axis.
    assert_eq!(start_axis(0, 0), (0, u64::MAX, u64::MAX));
    assert_eq!(start_axis(0, 40_000), (0, u64::MAX, u64::MAX));
    // The smallest and the largest magnitude.
    assert_eq!(start_axis(1, 0), (1, 0x1_0000_0000, 0x1_0000_0000));
    assert_eq!(start_axis(-1, 65_535), (-1, 0x1_0000_0000, 0xFFFF_0000));
    assert_eq!(start_axis(i32::MIN, 65_535), (-1, 2, 1));
    assert_eq!(start_axis(i32::MAX, 0), (1, 2, 2));
}

#[test]
fn start_of_a_ray() {
    let ray = Ray::start(IVec3 { x: 4, y: -2, z: 9 }, (0, 32_768, 65_535), (65_536, -32_768, 0));
    assert_eq!(ray.cell, IVec3 { x: 4, y: -2, z: 9 });
    assert_eq!(ray.ray_step, IVec3 { x: 1, y: -1, z: 0 });
    assert_eq!(ray.delta_dist, UVec3 { x: 65_536, y: 131_072, z: u64::MAX });
    assert_eq!(ray.side_dist, UVec3 { x: 65_536, y: 65_536, z: u64::MAX });
    assert_eq!(ray.depth, 1);
    assert_eq!(FIXED_ONE, 65_536);
}

#[test]
fn placement_translates_world_cells() {
    let placement = Placement { x: 3, y: -3, z: -25 };
    assert_eq!(placement.to_octree(0, 0, 0), IVec3 { x: -3, y: 3, z: 25 });
    assert_eq!(placement.to_octree(3, -3, -25), IVec3 { x: 0, y: 0, z: 0 });
    assert_eq!(placement.to_octree(10, 1, -20), IVec3 { x: 7, y: 4, z: 5 });
    let far = Placement { x: i32::MIN, y: i32::MAX, z: 0 };
    assert_eq!(
        far.to_octree(i32::MAX, i32::MIN, 0),
        IVec3 { x: 0xFFFF_FFFF, y: -0xFFFF_FFFF, z: 0 }
    );
}

#[test]
fn miss_reports_zero_albedo_and_full_roughness() {
    let packed = corner_tree();
    let mut ray = ray_from_origin([-1.0, 0.0, 0.0]);
    let hit = ray.traverse(&packed.nodes, &packed.voxels, packed.root, 2);
    assert!(!hit.exists);
    assert_eq!(hit.material.albedo.map(f32::from_bits), [0.0, 0.0, 0.0]);
    assert_eq!(f32::from_bits(hit.material.roughness), 1.0);
    assert_eq!(hit.material.roughness, 0x3F80_0000);
}

#[test]
fn query_outside_the_extent_is_out_of_range_at_every_assumed_depth() {
    let packed = nested_tree();
    for depth in [0, 1, 2, 3, 4, 7, 40, u32::MAX] {
        for (x, y, z) in [(-1, 0, 0), (0, 8, 0), (3, 3, -5), (8, 8, 8), (i64::MAX, 0, 0)] {
            assert_eq!(
                get(x, y, z, &packed.nodes, &packed.voxels, packed.root, 3, depth),
                GetResult::OutOfRange
            );
        }
    }
}

#[test]
fn query_below_the_depth_of_the_tree() {
    let packed = nested_tree();
    let q = |x, y, z, depth| get(x, y, z, &packed.nodes, &packed.voxels, packed.root, 3, depth);
    // Leaves lie above every assumed depth beyond the tree's own.
    assert_eq!(q(3, 2, 3, 4), GetResult::Higher);
    assert_eq!(q(1, 1, 1, 9), GetResult::Higher);
    assert_eq!(q(5, 1, 1, u32::MAX), GetResult::Higher);
}
