use worldgen::biome::{
    BiomeId, DESERT, FOREST, JUNGLE, MOUNTAINS, MUSHROOM_FIELDS, MUSHROOM_FIELD_SHORE, OCEAN, PLAINS,
    RIVER, SNOWY_TUNDRA, FROZEN_RIVER, SWAMP, TAIGA, BEACH, MOUNTAIN_EDGE, DESERT_HILLS,
};
use worldgen::layer::Layer;
use worldgen::layer::LayerBuilder;
use worldgen::layer_new::biome::{BiomeLayer, BiomeRiversLayer, HillsLayer, MixBiomeAndRiverLayer, ShoreLayer};
use worldgen::layer_new::island::{AddIslandLayer, AddMushroomIsland, IslandLayer};
use worldgen::layer_new::river::{AddRiverLayer, InitRiverLayer};
use worldgen::layer_new::smooth::SmoothLayer;
use worldgen::layer_new::snow::AddSnowLayer;
use worldgen::layer_new::zoom::ZoomLayer;
use worldgen::layer_new::{LayerData, State};
use worldgen::util::Rect;

fn filled(x_size: usize, z_size: usize, biome: BiomeId) -> LayerData {
    Rect::new(x_size, z_size, State::Biome(biome))
}

fn uninit(x_size: usize, z_size: usize) -> LayerData {
    Rect::new(x_size, z_size, State::Uninit)
}

fn biome(data: &LayerData, x: usize, z: usize) -> BiomeId {
    match data.get(x, z) {
        State::Biome(b) => *b,
        _ => panic!("expected a biome"),
    }
}

fn island_grid(world_seed: i64, x: i32, z: i32, x_size: usize, z_size: usize) -> LayerData {
    let mut layer = IslandLayer::new(1);
    layer.seed(world_seed);
    let mut out = uninit(x_size, z_size);
    layer.generate(x, z, &mut out);
    out
}

#[test]
fn island_grid_around_origin() {
    let out = island_grid(12345, -2, -2, 4, 4);
    let expected = ["OOOO", "OOOO", "POPO", "OOOO"];
    for (dz, row) in expected.iter().enumerate() {
        for (dx, c) in row.chars().enumerate() {
            let b = if c == 'P' { PLAINS } else { OCEAN };
            assert_eq!(biome(&out, dx, dz), b, "cell {}/{}", dx, dz);
        }
    }
}

#[test]
fn island_grid_forces_plains_at_origin_and_only_makes_plains_or_ocean() {
    for seed in [0i64, 1, -99, 123456789] {
        let out = island_grid(seed, -7, -3, 16, 16);
        assert_eq!(biome(&out, 7, 3), PLAINS);
        for dz in 0..16 {
            for dx in 0..16 {
                let b = biome(&out, dx, dz);
                assert!(b == PLAINS || b == OCEAN);
            }
        }
    }
}

#[test]
fn island_grid_matches_iterative_island_away_from_origin() {
    let out = island_grid(99, 40, -70, 8, 8);
    let mut iter = LayerBuilder::with_island(1).build();
    iter.seed(99);
    for dz in 0..8 {
        for dx in 0..8 {
            assert_eq!(biome(&out, dx, dz), iter.next(40 + dx as i32, -70 + dz as i32));
        }
    }
}

#[test]
fn zoom_grid_matches_iterative_zoom() {
    for fuzzy in [true, false] {
        let (x, z, xs, zs) = (301i32, -517i32, 10usize, 10usize);
        let input = island_grid(2024, x >> 1, z >> 1, xs / 2 + 3, zs / 2 + 3);
        let mut zoom = ZoomLayer::new(2000, fuzzy);
        zoom.seed(2024);
        let mut out = uninit(xs, zs);
        zoom.generate(x, z, &input, &mut out);
        let cells: Vec<BiomeId> = if fuzzy {
            let mut l = LayerBuilder::with_island(1).then_zoom_fuzzy(2000).build();
            l.seed(2024);
            l.next_grid(x, z, xs, zs).data
        } else {
            let mut l = LayerBuilder::with_island(1).then_zoom_smart(2000).build();
            l.seed(2024);
            l.next_grid(x, z, xs, zs).data
        };
        for dz in 0..zs {
            for dx in 0..xs {
                assert_eq!(biome(&out, dx, dz), cells[dx + dz * xs], "fuzzy {} cell {}/{}", fuzzy, dx, dz);
            }
        }
    }
}

#[test]
fn zoom_even_cells_copy_the_parent() {
    let mut input = uninit(5, 5);
    for i in 0..25 {
        input.data[i] = State::Biome((i % 7) as BiomeId);
    }
    let mut zoom = ZoomLayer::new_smart(7);
    zoom.seed(3);
    let mut out = uninit(4, 4);
    zoom.generate(10, 20, &input, &mut out);
    for dz in (0..4).step_by(2) {
        for dx in (0..4).step_by(2) {
            assert_eq!(biome(&out, dx, dz), biome(&input, dx / 2, dz / 2));
        }
    }
}

#[test]
fn add_island_keeps_uniform_areas() {
    let mut layer = AddIslandLayer::new(1);
    layer.seed(8);
    let input = filled(6, 6, OCEAN);
    let mut out = uninit(4, 4);
    layer.generate(0, 0, &input, &mut out);
    assert!(out.data.iter().all(|s| *s == State::Biome(OCEAN)));
    let input = filled(6, 6, FOREST);
    layer.generate(0, 0, &input, &mut out);
    assert!(out.data.iter().all(|s| *s == State::Biome(FOREST)));
}

#[test]
fn mushroom_islands_only_grow_in_open_ocean() {
    let mut layer = AddMushroomIsland::new(5);
    layer.seed(1);
    let input = filled(18, 18, PLAINS);
    let mut out = uninit(16, 16);
    layer.generate(0, 0, &input, &mut out);
    assert!(out.data.iter().all(|s| *s == State::Biome(PLAINS)));
    let input = filled(18, 18, OCEAN);
    layer.generate(0, 0, &input, &mut out);
    assert!(out.data.iter().all(|s| *s == State::Biome(OCEAN) || *s == State::Biome(MUSHROOM_FIELDS)));
}

#[test]
fn snow_only_changes_plains() {
    let mut layer = AddSnowLayer::new(2);
    layer.seed(77);
    let mut input = filled(12, 12, PLAINS);
    input.data[13] = State::Biome(DESERT);
    let mut out = uninit(10, 10);
    layer.generate(-5, 5, &input, &mut out);
    let mut tundras = 0;
    for dz in 0..10 {
        for dx in 0..10 {
            let b = biome(&out, dx, dz);
            if dx == 0 && dz == 0 {
                assert_eq!(b, DESERT);
            } else {
                assert!(b == PLAINS || b == SNOWY_TUNDRA);
            }
            if b == SNOWY_TUNDRA {
                tundras += 1;
            }
        }
    }
    assert!(tundras > 0 && tundras < 100);
}

#[test]
fn init_river_marks_oceans_and_potentials() {
    let mut layer = InitRiverLayer::new(100);
    layer.seed(4);
    let mut out = filled(6, 6, PLAINS);
    out.data[0] = State::Biome(OCEAN);
    layer.generate(0, 0, &mut out);
    assert!(out.data[0] == State::NoRiver);
    for s in &out.data[1..] {
        match s {
            State::PotentialRiver(p) => assert!(*p == 2 || *p == 3),
            _ => panic!("expected a potential river"),
        }
    }
}

#[test]
fn add_river_connects_states() {
    let mut layer = AddRiverLayer;
    layer.seed(0);
    let mut input = Rect::new(5, 5, State::PotentialRiver(2));
    let mut out = uninit(3, 3);
    layer.generate(0, 0, &input, &mut out);
    assert!(out.data.iter().all(|s| *s == State::NoRiver));
    // A potential of another value, at the input cell 2/1, makes rivers where it is read.
    input.data[7] = State::PotentialRiver(3);
    layer.generate(0, 0, &input, &mut out);
    for dz in 0..3 {
        for dx in 0..3 {
            let read = (dx, dz) == (0, 0) || (dx, dz) == (1, 0) || (dx, dz) == (2, 0) || (dx, dz) == (1, 1);
            assert_eq!(*out.get(dx, dz) == State::River, read, "cell {}/{}", dx, dz);
        }
    }
    input.data[7] = State::PotentialRiver(2);
    input.data[12] = State::NoRiver;
    layer.generate(0, 0, &input, &mut out);
    // The center cell reads the cell 12 of the input, its neighbours read it too.
    assert!(*out.get(1, 1) == State::River);
    assert!(*out.get(0, 1) == State::River);
    assert!(*out.get(1, 0) == State::River);
    assert!(*out.get(0, 0) == State::NoRiver);
}

#[test]
fn state_equality_compares_river_potentials() {
    assert!(State::PotentialRiver(2) != State::PotentialRiver(3));
    assert!(State::PotentialRiver(3) == State::PotentialRiver(3));
    assert!(State::Biome(PLAINS) != State::Biome(OCEAN));
    assert!(State::River != State::NoRiver);
    assert_eq!(State::Biome(JUNGLE).expect_biome(), JUNGLE);
}

#[test]
fn smooth_fills_gaps() {
    let mut layer = SmoothLayer::new(1000);
    layer.seed(1);
    let mut input = filled(3, 3, FOREST);
    input.data[4] = State::Biome(DESERT);
    let mut out = uninit(1, 1);
    layer.generate(0, 0, &input, &mut out);
    assert!(*out.get(0, 0) == State::Biome(FOREST));
    let mut input = filled(3, 3, FOREST);
    input.data[3] = State::Biome(DESERT);
    input.data[4] = State::Biome(TAIGA);
    input.data[5] = State::Biome(SWAMP);
    input.data[1] = State::Biome(MOUNTAINS);
    input.data[7] = State::Biome(JUNGLE);
    layer.generate(0, 0, &input, &mut out);
    assert!(*out.get(0, 0) == State::Biome(TAIGA));
}

#[test]
fn biome_layer_replaces_plains_only() {
    let mut layer = BiomeLayer::new_102(200);
    layer.seed(31);
    let mut out = filled(8, 8, PLAINS);
    out.data[0] = State::Biome(OCEAN);
    out.data[1] = State::Biome(SNOWY_TUNDRA);
    layer.generate(0, 0, &mut out);
    assert_eq!(biome(&out, 0, 0), OCEAN);
    assert_eq!(biome(&out, 1, 0), SNOWY_TUNDRA);
    let allowed = [DESERT, FOREST, MOUNTAINS, SWAMP, PLAINS, TAIGA, JUNGLE];
    for s in &out.data[2..] {
        match s {
            State::Biome(b) => assert!(allowed.contains(b)),
            _ => panic!("expected a biome"),
        }
    }
    let mut empty = BiomeLayer::new(1, Vec::new());
    empty.seed(1);
    let mut out = filled(2, 2, OCEAN);
    empty.generate(0, 0, &mut out);
    assert!(out.data.iter().all(|s| *s == State::Biome(OCEAN)));
}

#[test]
fn hills_need_uniform_neighbours() {
    let mut layer = HillsLayer::new(1000);
    layer.seed(5);
    let mut input = filled(3, 3, DESERT);
    input.data[1] = State::Biome(FOREST);
    let mut out = uninit(1, 1);
    layer.generate(0, 0, &input, &mut out);
    assert_eq!(biome(&out, 0, 0), DESERT);
    let mut seen_hills = false;
    let input = filled(10, 10, DESERT);
    let mut out = uninit(8, 8);
    layer.generate(0, 0, &input, &mut out);
    for s in &out.data {
        match s {
            State::Biome(b) => {
                assert!(*b == DESERT || *b == DESERT_HILLS);
                seen_hills |= *b == DESERT_HILLS;
            },
            _ => panic!("expected a biome"),
        }
    }
    assert!(seen_hills);
}

#[test]
fn shore_makes_beaches_and_edges() {
    let mut layer = ShoreLayer::new(1000);
    layer.seed(5);
    let mut input = filled(3, 3, FOREST);
    input.data[1] = State::Biome(OCEAN);
    let mut out = uninit(1, 1);
    layer.generate(0, 0, &input, &mut out);
    assert_eq!(biome(&out, 0, 0), BEACH);
    let mut input = filled(3, 3, MOUNTAINS);
    input.data[3] = State::Biome(FOREST);
    layer.generate(0, 0, &input, &mut out);
    assert_eq!(biome(&out, 0, 0), MOUNTAIN_EDGE);
    let mut input = filled(3, 3, OCEAN);
    input.data[4] = State::Biome(MUSHROOM_FIELDS);
    layer.generate(0, 0, &input, &mut out);
    assert_eq!(biome(&out, 0, 0), MUSHROOM_FIELD_SHORE);
}

#[test]
fn biome_rivers_only_in_swamps_and_jungles() {
    let mut layer = BiomeRiversLayer::new(1000);
    layer.seed(5);
    let input = filled(18, 18, SWAMP);
    let mut out = uninit(16, 16);
    layer.generate(0, 0, &input, &mut out);
    assert!(out.data.iter().all(|s| *s == State::Biome(SWAMP) || *s == State::Biome(RIVER)));
    assert!(out.data.iter().any(|s| *s == State::Biome(RIVER)));
    let input = filled(18, 18, FOREST);
    layer.generate(0, 0, &input, &mut out);
    assert!(out.data.iter().all(|s| *s == State::Biome(FOREST)));
}

#[test]
fn mix_puts_rivers_on_land_only() {
    let mut layer = MixBiomeAndRiverLayer;
    layer.seed(0);
    let mut out = filled(2, 2, OCEAN);
    out.data[1] = State::Biome(SNOWY_TUNDRA);
    out.data[2] = State::Biome(MUSHROOM_FIELDS);
    out.data[3] = State::Biome(FOREST);
    let rivers = Rect::new(2, 2, State::River);
    layer.generate(0, 0, &rivers, &mut out);
    assert_eq!(biome(&out, 0, 0), OCEAN);
    assert_eq!(biome(&out, 1, 0), FROZEN_RIVER);
    assert_eq!(biome(&out, 0, 1), MUSHROOM_FIELD_SHORE);
    assert_eq!(biome(&out, 1, 1), RIVER);
    let mut out2 = filled(2, 2, FOREST);
    let dry = Rect::new(2, 2, State::NoRiver);
    layer.generate(0, 0, &dry, &mut out2);
    assert!(out2.data.iter().all(|s| *s == State::Biome(FOREST)));
}

#[test]
fn island_grid_fills_rectangles() {
    let out = island_grid(77, -3, -5, 7, 12);
    let mut iter = LayerBuilder::with_island(1).build();
    iter.seed(77);
    for dz in 0..12 {
        for dx in 0..7 {
            let b = biome(&out, dx, dz);
            assert!(b == PLAINS || b == OCEAN);
            if (dx, dz) != (3, 5) {
                assert_eq!(b, iter.next(-3 + dx as i32, -5 + dz as i32), "cell {}/{}", dx, dz);
            }
        }
    }
    assert_eq!(biome(&out, 3, 5), PLAINS);
}
