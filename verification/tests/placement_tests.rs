//! Placement and arena tests: weighted sampling without replacement, the
//! placement weights, the arena construction plan, the per-ball force and
//! the ball rendering data.

use rand::SeedableRng;

use simple_ball::arena::Arena;
use simple_ball::arena::ball_force_vector;
use simple_ball::arena::grid_cells;
use simple_ball::arena::placement_weights;
use simple_ball::arena::random_balls;
use simple_ball::arena::sample_without_replacement;
use simple_ball::ball_view_positions;
use simple_ball::dimension::Dimension;
use simple_ball::dimension::WorldVector;
use simple_ball::rational::Rational;
use simple_ball::screen::Screen;
use simple_ball::terrain::Terrain;

fn seeded_rng(seed: u64) -> rand::rngs::StdRng {
    rand::rngs::StdRng::seed_from_u64(seed)
}

#[test]
fn test_grid_cells_lists_every_cell_once() {
    let cells = grid_cells(3, 2);
    assert_eq!(
        cells,
        vec![(0, 0), (1, 0), (2, 0), (0, 1), (1, 1), (2, 1)]
    );
}

#[test]
fn test_sample_all_cells_returns_each_exactly_once() {
    // With count equal to the cell count, sampling without replacement is
    // a permutation: every cell exactly once, whatever the weights.
    let cells = grid_cells(4, 3);
    let weights: Vec<u64> = vec![1, 2, 4, 8, 16, 32, 64, 128, 256, 512, 1024, 2048];
    let mut rng = seeded_rng(7);
    let mut chosen = sample_without_replacement(cells.clone(), weights, 12, &mut rng);
    assert_eq!(chosen.len(), 12);
    let mut expected = cells;
    chosen.sort();
    expected.sort();
    assert_eq!(chosen, expected);
}

#[test]
fn test_sample_without_replacement_is_distinct() {
    let cells = grid_cells(5, 5);
    let weights: Vec<u64> = vec![1; 25];
    let mut rng = seeded_rng(42);
    let chosen = sample_without_replacement(cells.clone(), weights, 10, &mut rng);
    assert_eq!(chosen.len(), 10);
    for i in 0..chosen.len() {
        assert!(cells.contains(&chosen[i]));
        for j in 0..i {
            assert_ne!(chosen[i], chosen[j]);
        }
    }
}

#[test]
fn test_sample_count_capped_at_cell_count() {
    let cells = grid_cells(2, 2);
    let weights: Vec<u64> = vec![1; 4];
    let mut rng = seeded_rng(3);
    let chosen = sample_without_replacement(cells, weights, 100, &mut rng);
    assert_eq!(chosen.len(), 4);
}

#[test]
fn test_placement_weights_bias_low_ground() {
    // Heightfield over [0, 20]: a cell at the floor weighs 2^20, a cell at
    // the ceiling weighs 1, and a fractional bucket rounds down.
    let elevations: Vec<i64> = vec![0, 100, 200, 200];
    let terrain = Terrain::from_elevations(&elevations, 2, 2);
    let hf = terrain.as_xz_heightfield(20);
    assert_eq!(hf.den, 200);
    let ws = placement_weights(&hf);
    // Row-major over the flipped field: world row 0 is image row 1.
    assert_eq!(ws, vec![1u64, 1, 1 << 20, 1 << 10]);
}

#[test]
fn test_random_balls_count_and_bounds() {
    let elevations: Vec<i64> = vec![0, 10, 20, 30, 40, 50, 60, 70, 80];
    let terrain = Terrain::from_elevations(&elevations, 3, 3);
    let radius = Rational::new(50, 100);
    let y = Rational::from_int(100);
    let mut rng = seeded_rng(11);
    let balls = random_balls(4, &radius, 50, &terrain, &y, &mut rng);
    assert_eq!(balls.len(), 4);
    for b in &balls {
        // y is the fixed altitude.
        assert_eq!(b.y.num, 100 * b.y.den);
        // radius <= x <= side, likewise for z.
        assert!(radius.num * b.x.den <= b.x.num * radius.den);
        assert!(b.x.num <= 50 * b.x.den);
        assert!(radius.num * b.z.den <= b.z.num * radius.den);
        assert!(b.z.num <= 50 * b.z.den);
    }
}

#[test]
fn test_random_balls_all_cells() {
    // Requesting at least as many balls as the sampling grid has cells
    // places one ball per cell.
    let elevations: Vec<i64> = vec![0, 10, 20, 30];
    let terrain = Terrain::from_elevations(&elevations, 2, 2);
    let radius = Rational::new(10, 100);
    let y = Rational::from_int(100);
    let mut rng = seeded_rng(5);
    let balls = random_balls(9, &radius, 10, &terrain, &y, &mut rng);
    assert_eq!(balls.len(), 4);
    let mut positions: Vec<(i128, i128, i128, i128)> = balls
        .iter()
        .map(|b| (b.x.num, b.x.den, b.z.num, b.z.den))
        .collect();
    positions.sort();
    for i in 1..positions.len() {
        assert_ne!(positions[i - 1], positions[i]);
    }
}

#[test]
fn test_arena_new_plan() {
    let elevations: Vec<i64> = vec![0, 10, 20, 30, 40, 50, 60, 70, 80];
    let terrain = Terrain::from_elevations(&elevations, 3, 3);
    let mut rng = seeded_rng(1);
    let arena = Arena::new(50, 3, &terrain, &mut rng);
    assert_eq!(arena.dimension.side_length, 50);
    let plan = &arena.plan;
    assert_eq!(plan.balls.len(), 3);
    // Ball radius is a hundredth of the side.
    assert_eq!((plan.ball_radius.num, plan.ball_radius.den), (50, 100));
    // Ground: the full terrain's heightfield normalized to [0, 1].
    assert_eq!(plan.ground_heights.width, 3);
    assert_eq!(plan.ground_heights.height, 3);
    assert_eq!(plan.ground_heights.max_value, 1);
    assert_eq!(plan.ground_heights.den, 80);
    // Bottom image row lands at world row 0.
    assert_eq!(plan.ground_heights.nums[0], 60);
    // Ground box and its position.
    assert_eq!((plan.ground_size.x.num, plan.ground_size.x.den), (50, 1));
    assert_eq!((plan.ground_size.y.num, plan.ground_size.y.den), (200, 100));
    assert_eq!((plan.ground_translation.x.num, plan.ground_translation.x.den), (50, 2));
    // Four walls, 100 tall, a tenth thick, on each boundary.
    assert_eq!(plan.walls.len(), 4);
    assert_eq!((plan.walls[0].half_extents.x.num, plan.walls[0].half_extents.x.den), (1, 10));
    assert_eq!((plan.walls[0].half_extents.y.num, plan.walls[0].half_extents.y.den), (100, 1));
    assert_eq!((plan.walls[0].translation.x.num, plan.walls[0].translation.x.den), (-1, 10));
    assert_eq!((plan.walls[1].translation.x.num, plan.walls[1].translation.x.den), (50, 1));
    assert_eq!((plan.walls[2].translation.z.num, plan.walls[2].translation.z.den), (-1, 10));
    assert_eq!((plan.walls[3].translation.z.num, plan.walls[3].translation.z.den), (50, 1));
    // Simulation constants.
    assert_eq!((plan.restitution.num, plan.restitution.den), (8, 10));
    assert!(plan.ccd_enabled);
    assert_eq!((plan.gravity.y.num, plan.gravity.y.den), (-981, 100));
    assert_eq!((plan.timestep.num, plan.timestep.den), (1, 60));
}

#[test]
fn test_ball_force_vector() {
    let x = Rational::from_int(3);
    let z = Rational::from_int(-4);
    let f = ball_force_vector(&x, &z);
    assert_eq!(f.x, x);
    assert_eq!(f.z, z);
    // Lift is (|x| + |z|) / 2 = 7/2.
    assert_eq!(f.y.num * 2, 7 * f.y.den);
}

#[test]
fn test_ball_view_positions() {
    let screen = Screen::new(100);
    let arena = Dimension { side_length: 10 };
    let radius = Rational::new(1, 2);
    let translations = vec![WorldVector {
        x: Rational::from_int(2),
        y: Rational::from_int(1),
        z: Rational::from_int(8),
    }];
    let out = ball_view_positions(&screen, &arena, &radius, &translations);
    assert_eq!(out.len(), 1);
    // Scale is 10 pixels per world unit; y is flipped.
    assert_eq!(out[0].x.num, 20 * out[0].x.den);
    assert_eq!(out[0].y.num, 20 * out[0].y.den);
    assert_eq!(out[0].radius.num, 5 * out[0].radius.den);
}
