use worldgen::java::JavaRandom;
use worldgen::gen::cave::cave_carve;
use worldgen::view::FeatureBlock;
use worldgen::feature::tree::line_axes;

use worldgen::noise::permutation_table;
use worldgen::gen::r102::structure_seed;
use worldgen::gen::legacy::{chunk_key, FeatureAction, FeatureScheduler, LoadTracker, QuadLevelView, ViewError};
use worldgen::gen::r102::{
    generate_surface_column, odd_from, population_rand, population_seed, surface_step, terrain_seed, SurfaceBlock,
    SurfaceState,
};

#[test]
fn terrain_seed_values() {
    assert_eq!(terrain_seed(0, 0), 0);
    assert_eq!(terrain_seed(3, -7), 95333473349);
    assert_eq!(terrain_seed(1, 1), 0x4f9939f508 + 0x1ef1565bd5);
}

#[test]
fn odd_from_rounds_toward_zero() {
    assert_eq!(odd_from(7), 7);
    assert_eq!(odd_from(8), 9);
    assert_eq!(odd_from(-3), -1);
    assert_eq!(odd_from(-4), -3);
    assert_eq!(odd_from(i64::MIN), i64::MIN + 1);
}

#[test]
fn population_seed_value() {
    let mut rand = JavaRandom::new(42);
    let a = rand.next_long();
    let b = rand.next_long();
    assert_eq!(a, -5025562857975149833);
    assert_eq!(b, -5843495416241995736);
    assert_eq!(population_seed(42, a, b, 3, -5), -4305955566425022412);
    let rand = population_rand(42, 3, -5);
    assert_eq!(rand.get_seed(), JavaRandom::new(-4305955566425022412).get_seed());
}

#[test]
fn quad_view_chunk_index() {
    let view = QuadLevelView { chunks: [0u8, 1, 2, 3], x_start: -32, z_start: 16 };
    assert_eq!(view.get_chunk_index(-32, 16), Ok(0));
    assert_eq!(view.get_chunk_index(-17, 31), Ok(0));
    assert_eq!(view.get_chunk_index(-16, 16), Ok(1));
    assert_eq!(view.get_chunk_index(-32, 32), Ok(2));
    assert_eq!(view.get_chunk_index(-1, 47), Ok(3));
    assert_eq!(view.get_chunk_index(0, 16), Err(ViewError::ChunkUnloaded));
    assert_eq!(view.get_chunk_index(-33, 16), Err(ViewError::ChunkUnloaded));
    assert_eq!(view.get_chunk_index(-32, 48), Err(ViewError::ChunkUnloaded));
    assert_eq!(view.get_chunk_index(-32, 15), Err(ViewError::ChunkUnloaded));
}

#[test]
fn load_tracker_requests_each_chunk_once() {
    let mut tracker = LoadTracker::new();
    let first = tracker.request_chunk_load(0, 0);
    assert_eq!(first, vec![(-1, -1), (-1, 0), (-1, 1), (0, -1), (0, 0), (0, 1), (1, -1), (1, 0), (1, 1)]);
    let second = tracker.request_chunk_load(1, 0);
    assert_eq!(second, vec![(2, -1), (2, 0), (2, 1)]);
    assert_eq!(tracker.request_chunk_load(0, 0), vec![]);
    tracker.chunk_polled(0, 0);
    assert_eq!(tracker.request_chunk_load(0, 0), vec![(0, 0)]);
}

#[test]
fn chunk_keys_are_distinct() {
    assert_ne!(chunk_key(1, 0), chunk_key(0, 1));
    assert_ne!(chunk_key(-1, 0), chunk_key(0, -1));
    assert_eq!(chunk_key(0, 0), 0);
}

#[test]
fn scheduler_releases_a_chunk_when_its_neighbours_arrived() {
    let mut sched = FeatureScheduler::new();
    let mut all = Vec::new();
    let order = [(1, 1), (-1, -1), (0, 1), (1, 0), (0, 0), (-1, 1), (1, -1), (0, -1)];
    for (cx, cz) in order {
        assert!(sched.can_arrive(cx, cz));
        let actions = sched.on_terrain(cx, cz);
        assert!(actions.is_empty());
        all.extend(actions);
    }
    assert!(sched.can_arrive(-1, 0));
    let actions = sched.on_terrain(-1, 0);
    assert_eq!(actions, vec![
        FeatureAction::Decorate { ocx: 0, ocz: 0, x: 8, z: 8 },
        FeatureAction::Decorate { ocx: 0, ocz: -1, x: 8, z: -8 },
        FeatureAction::Decorate { ocx: -1, ocz: -1, x: -8, z: -8 },
        FeatureAction::Decorate { ocx: -1, ocz: 0, x: -8, z: 8 },
        FeatureAction::Release { cx: 0, cz: 0 },
    ]);
}

#[test]
fn scheduler_decoration_order_depends_on_parity() {
    let mut sched = FeatureScheduler::new();
    let mut last = Vec::new();
    for cx in 0..3 {
        for cz in 0..3 {
            last = sched.on_terrain(cx, cz);
        }
    }
    // The chunk 1/1 is odd on both axes.
    assert_eq!(last, vec![
        FeatureAction::Decorate { ocx: 0, ocz: 0, x: 8, z: 8 },
        FeatureAction::Decorate { ocx: 0, ocz: 1, x: 8, z: 24 },
        FeatureAction::Decorate { ocx: 1, ocz: 1, x: 24, z: 24 },
        FeatureAction::Decorate { ocx: 1, ocz: 0, x: 24, z: 8 },
        FeatureAction::Release { cx: 1, cz: 1 },
    ]);
}

fn column() -> Vec<SurfaceBlock> {
    let mut col = vec![SurfaceBlock::Air; 128];
    for y in 0..64 {
        col[y] = SurfaceBlock::Stone;
    }
    col
}

#[test]
fn surface_of_a_grass_column() {
    let mut rand = JavaRandom::new(7);
    let mut col = column();
    let present = vec![true; 8];
    generate_surface_column(&mut rand, &mut col, &present, 3, SurfaceBlock::Grass, SurfaceBlock::Dirt, false);
    assert_eq!(col[0], SurfaceBlock::Bedrock);
    assert_eq!(col[63], SurfaceBlock::Grass);
    assert_eq!(col[62], SurfaceBlock::Dirt);
    assert_eq!(col[61], SurfaceBlock::Dirt);
    assert_eq!(col[60], SurfaceBlock::Dirt);
    for y in 5..60 {
        assert_eq!(col[y], SurfaceBlock::Stone);
    }
    for y in 64..128 {
        assert_eq!(col[y], SurfaceBlock::Air);
    }
    for y in 1..5 {
        assert!(col[y] == SurfaceBlock::Stone || col[y] == SurfaceBlock::Bedrock);
    }
}

#[test]
fn surface_of_a_desert_column_has_sandstone() {
    let mut rand = JavaRandom::new(11);
    let mut col = column();
    let present = vec![true; 8];
    generate_surface_column(&mut rand, &mut col, &present, 3, SurfaceBlock::Sand, SurfaceBlock::Sand, false);
    for y in 60..64 {
        assert_eq!(col[y], SurfaceBlock::Sand);
    }
    for y in 5..60 {
        assert!(col[y] == SurfaceBlock::Stone || col[y] == SurfaceBlock::Sandstone);
    }
}

#[test]
fn surface_skips_missing_sub_chunks() {
    let mut rand = JavaRandom::new(1);
    let mut col = column();
    let mut present = vec![true; 8];
    present[0] = false;
    present[3] = false;
    generate_surface_column(&mut rand, &mut col, &present, 3, SurfaceBlock::Grass, SurfaceBlock::Dirt, false);
    for y in 0..16 {
        assert_eq!(col[y], SurfaceBlock::Stone);
    }
    for y in 48..64 {
        assert_eq!(col[y], SurfaceBlock::Stone);
    }
}

#[test]
fn surface_step_freezes_or_floods_low_holes() {
    let st = SurfaceState { depth: -1, top: SurfaceBlock::Grass, filler: SurfaceBlock::Dirt };
    let (next, set, sandstone) = surface_step(st, 40, SurfaceBlock::Stone, 0, SurfaceBlock::Grass, SurfaceBlock::Dirt, true);
    assert_eq!(next, SurfaceState { depth: 0, top: SurfaceBlock::Ice, filler: SurfaceBlock::Stone });
    assert_eq!(set, Some(SurfaceBlock::Stone));
    assert!(!sandstone);
    let (next, set, _) = surface_step(st, 62, SurfaceBlock::Stone, -1, SurfaceBlock::Grass, SurfaceBlock::Dirt, false);
    assert_eq!(next.top, SurfaceBlock::Water);
    assert_eq!(set, Some(SurfaceBlock::Water));
    let (next, set, _) = surface_step(next, 61, SurfaceBlock::Air, -1, SurfaceBlock::Grass, SurfaceBlock::Dirt, false);
    assert_eq!(next.depth, -1);
    assert_eq!(set, None);
}

#[test]
fn noise_permutation_table_is_a_permutation() {
    let mut rand = JavaRandom::new(1234);
    let table = permutation_table(&mut rand);
    assert_eq!(table.len(), 512);
    let mut seen = [false; 256];
    for i in 0..256 {
        assert!(table[i] < 256);
        assert!(!seen[table[i] as usize]);
        seen[table[i] as usize] = true;
        assert_eq!(table[i + 256], table[i]);
    }
    // The table is drawn: another seed gives another one.
    let mut other = JavaRandom::new(4321);
    assert_ne!(permutation_table(&mut other), table);
}

#[test]
fn structure_seed_mixes_the_chunk() {
    assert_eq!(structure_seed(7, 3, 5, 0, 0), 7);
    assert_eq!(structure_seed(0, 3, 5, 2, 1), 6 ^ 5);
    assert_eq!(structure_seed(1, i64::MAX, 1, 2, 0), (i64::MAX.wrapping_mul(2)) ^ 1);
}

#[test]
fn scheduler_decorates_each_quad_once() {
    let mut sched = FeatureScheduler::new();
    let mut seen: Vec<(i32, i32)> = Vec::new();
    let mut released: Vec<(i32, i32)> = Vec::new();
    for cx in -3..4 {
        for cz in -3..4 {
            let (cx, cz) = ((cx + 3) * 5 % 7 - 3, cz);
            assert!(sched.can_arrive(cx, cz));
            for action in sched.on_terrain(cx, cz) {
                match action {
                    FeatureAction::Decorate { ocx, ocz, x, z } => {
                        assert_eq!((x, z), (ocx * 16 + 8, ocz * 16 + 8));
                        assert!(!seen.contains(&(ocx, ocz)));
                        seen.push((ocx, ocz));
                    }
                    FeatureAction::Release { cx, cz } => {
                        assert!(!released.contains(&(cx, cz)));
                        released.push((cx, cz));
                    }
                }
            }
        }
    }
    // The inner 5 by 5 chunks are released, and the 6 by 6 quads around them decorated.
    assert_eq!(released.len(), 25);
    assert_eq!(seen.len(), 36);
}

#[test]
fn cave_carving_rule() {
    let other = FeatureBlock::Other { non_solid: false, leaves: false, log: false };
    assert_eq!(cave_carve(FeatureBlock::Stone, other, 5, false), (Some(FeatureBlock::Lava), false, false));
    assert_eq!(cave_carve(FeatureBlock::Stone, FeatureBlock::Dirt, 40, false), (Some(FeatureBlock::Air), false, false));
    assert_eq!(cave_carve(FeatureBlock::GrassBlock, FeatureBlock::Dirt, 40, false), (Some(FeatureBlock::Air), true, true));
    assert_eq!(cave_carve(FeatureBlock::Dirt, FeatureBlock::Dirt, 40, true), (Some(FeatureBlock::Air), true, true));
    assert_eq!(cave_carve(other, FeatureBlock::Dirt, 40, true), (None, true, false));
}

#[test]
fn line_main_axis() {
    assert_eq!(line_axes([0, 0, 0], [3, -5, 2]), (1, 0, 2, -5));
    assert_eq!(line_axes([0, 0, 0], [4, 4, -4]), (0, 2, 1, 4));
    assert_eq!(line_axes([1, 1, 1], [1, 1, -6]), (2, 0, 1, -7));
    assert_eq!(line_axes([2, 2, 2], [2, 2, 2]), (0, 2, 1, 0));
}
