use worldgen::java::JavaRandom;

use worldgen::feature::debug::{DebugChunkFeature, SetBlockFeature};
use worldgen::feature::distrib::{
    BlockTest, Distrib, HeightmapDistrib, LavaLakeDistrib, OffsetWhileDistrib, TriangularVerticalDistrib,
    UniformVerticalDistrib, WrongHeightmapDistrib,
};
use worldgen::feature::dungeon::{loot_follow_up, loot_second_draw, mob_for_draw, pick_chest_loot_item, pick_mob, DungeonMob, LootFollowUp};
use worldgen::feature::{Feature, FeatureCompose, OptionalFeature, RepeatCount, RepeatedFeature, TreeRepeatCount};
use worldgen::view::HeightmapKind;
use worldgen::feature::jungle::HugeJungleTreeFeature;

fn empty_level() -> BoxLevel {
    BoxLevel::new(1000, 0, 1000, 1, 1, 1, FeatureBlock::Air)
}

#[test]
fn uniform_distrib_stays_in_its_box() {
    let level = empty_level();
    let mut rand = JavaRandom::new(3);
    let early = UniformVerticalDistrib::new(10, 20);
    let late = UniformVerticalDistrib::new_with_late_y(0, 128);
    for _ in 0..200 {
        let (x, y, z) = early.pick_pos(&level, &mut rand, -40, 0, 64).unwrap();
        assert!((-40..-24).contains(&x) && (10..20).contains(&y) && (64..80).contains(&z));
        let (x, y, z) = late.pick_pos(&level, &mut rand, 16, 0, -16).unwrap();
        assert!((16..32).contains(&x) && (0..128).contains(&y) && (-16..0).contains(&z));
    }
}

#[test]
fn uniform_distrib_draw_order() {
    // Y drawn between X and Z, or after Z: the same draws give the positions swapped.
    let level = empty_level();
    let mut a = JavaRandom::new(5);
    let mut b = JavaRandom::new(5);
    let (x1, y1, z1) = UniformVerticalDistrib::new(0, 16).pick_pos(&level, &mut a, 0, 0, 0).unwrap();
    let (x2, y2, z2) = UniformVerticalDistrib::new_with_late_y(0, 16).pick_pos(&level, &mut b, 0, 0, 0).unwrap();
    assert_eq!(x1, x2);
    assert_eq!(y1, z2);
    assert_eq!(z1, y2);
}

#[test]
fn triangular_distrib_range() {
    let level = empty_level();
    let mut rand = JavaRandom::new(9);
    let d = TriangularVerticalDistrib::new(16, 16);
    for _ in 0..200 {
        let (x, y, z) = d.pick_pos(&level, &mut rand, 0, 0, 0).unwrap();
        assert!((0..16).contains(&x) && (0..=30).contains(&y) && (0..16).contains(&z));
    }
}

fn set_tops(level: &mut BoxLevel, top: i8) {
    for x in 0..16 {
        for z in 0..16 {
            assert!(level.set_top_sub_chunk(x, z, top));
        }
    }
}

#[test]
fn heightmap_distribs_read_the_column() {
    let mut level = BoxLevel::new(32, 0, 48, 16, 1, 16, FeatureBlock::Air);
    for x in 32..48 {
        for z in 48..64 {
            assert!(level.set_column_height(x, z, x + z));
        }
    }
    let mut rand = JavaRandom::new(1);
    let d = HeightmapDistrib::new(HeightmapKind::OceanFloorWg);
    let (x, y, z) = d.pick_pos(&level, &mut rand, 32, 0, 48).unwrap();
    assert_eq!(y, x + z);
    assert_eq!(level.get_heightmap_column_at(HeightmapKind::WorldSurface, 33, 50), Some(83));
    // No height where the view holds no column.
    assert_eq!(d.pick_pos(&level, &mut rand, 0, 0, 0), None);
    let mut level = BoxLevel::new(0, 0, 0, 16, 1, 16, FeatureBlock::Air);
    for x in 0..16 {
        for z in 0..16 {
            assert!(level.set_column_height(x, z, 64));
        }
    }
    let w = WrongHeightmapDistrib::new(HeightmapKind::MotionBlocking);
    set_tops(&mut level, 3);
    let (_, y, _) = w.pick_pos(&level, &mut rand, 0, 0, 0).unwrap();
    assert_eq!(y, 63);
    set_tops(&mut level, 4);
    let (_, y, _) = w.pick_pos(&level, &mut rand, 0, 0, 0).unwrap();
    assert_eq!(y, 64);
    assert!(level.set_column_height(0, 0, 70));
    set_tops(&mut level, 3);
    let mut found = false;
    for _ in 0..2000 {
        let (x, y, z) = w.pick_pos(&level, &mut rand, 0, 0, 0).unwrap();
        if x == 0 && z == 0 {
            assert_eq!(y, 70);
            found = true;
        } else {
            assert_eq!(y, 63);
        }
    }
    assert!(found);
    assert_eq!(w.pick_pos(&level, &mut rand, 100, 0, 0), None);
}

#[test]
fn wrong_height_values() {
    assert_eq!(WrongHeightmapDistrib::wrong_height(64, 3), 63);
    assert_eq!(WrongHeightmapDistrib::wrong_height(16, 0), 15);
    assert_eq!(WrongHeightmapDistrib::wrong_height(32, 0), 32);
    assert_eq!(WrongHeightmapDistrib::wrong_height(33, 1), 33);
}

#[test]
fn lava_lake_distrib_range() {
    let level = empty_level();
    let mut rand = JavaRandom::new(17);
    let mut kept = 0;
    for _ in 0..300 {
        if let Some((x, y, z)) = LavaLakeDistrib.pick_pos(&level, &mut rand, 0, 0, 0) {
            assert!((0..16).contains(&x) && (0..127).contains(&y) && (0..16).contains(&z));
            kept += 1;
        }
    }
    assert!(kept > 0);
}

#[test]
fn offset_distrib_goes_down_while_valid() {
    let mut rand = JavaRandom::new(0);
    let d = OffsetWhileDistrib::new_air_below();
    assert!(d.predicate == BlockTest::Air);
    // Air from 60 to 79 in the column (the offset is -1: the block below is tested).
    let mut level = BoxLevel::new(0, 0, 0, 8, 128, 8, FeatureBlock::Stone);
    for y in 60..80 {
        assert!(level.set_block_at(3, y, 4, FeatureBlock::Air));
    }
    assert_eq!(d.pick_pos(&level, &mut rand, 3, 80, 4), Some((3, 60, 4)));
    let d = OffsetWhileDistrib::new_air_or_leaves();
    assert_eq!(d.pick_pos(&level, &mut rand, 0, 10, 0), Some((0, 10, 0)));
    assert!(level.set_block_at(0, 10, 0, FeatureBlock::Leaves(Wood::Oak)));
    assert!(level.set_block_at(0, 9, 0, FeatureBlock::Air));
    assert_eq!(d.pick_pos(&level, &mut rand, 0, 10, 0), Some((0, 8, 0)));
    // Outside the view the blocks are taken as air: down to the minimum.
    assert_eq!(d.pick_pos(&level, &mut rand, 100, 10, 0), Some((100, 0, 0)));
    let d = OffsetWhileDistrib::new(5, 0, BlockTest::Air);
    assert_eq!(d.pick_pos(&level, &mut rand, 100, 2, 0), Some((100, 2, 0)));
}

#[test]
fn tree_count_adds_one_on_zero_draw() {
    // The first draw bounded by 10 of a generator seeded with 0 is 0, with 1 it is 5.
    let mut rand = JavaRandom::new(0);
    assert_eq!(TreeRepeatCount(10).get_count(&mut rand), 11);
    let mut rand = JavaRandom::new(1);
    assert_eq!(TreeRepeatCount(10).get_count(&mut rand), 10);
    assert_eq!(TreeRepeatCount(2).count_for_draw(0), 3);
    assert_eq!(TreeRepeatCount(2).count_for_draw(9), 2);
    assert_eq!(7u16.get_count(&mut rand), 7);
}

#[test]
fn optional_feature_draw() {
    let feature = SetBlockFeature::new(FeatureBlock::Dirt).optional(10);
    // The first draw bounded by 10 is 0 for the seed 0 (the first feature), 5 for the seed 1.
    let mut level = BoxLevel::new(0, 0, 0, 2, 2, 2, FeatureBlock::Air);
    let mut rand = JavaRandom::new(0);
    assert!(feature.generate(&mut level, &mut rand, 1, 1, 1));
    assert_eq!(level.get_block_at(1, 1, 1), Some(FeatureBlock::Dirt));
    let mut level = BoxLevel::new(0, 0, 0, 2, 2, 2, FeatureBlock::Air);
    let mut rand = JavaRandom::new(1);
    assert!(!feature.generate(&mut level, &mut rand, 1, 1, 1));
    assert_eq!(level.get_block_at(1, 1, 1), Some(FeatureBlock::Air));
    let other = OptionalFeature::new(SetBlockFeature::new(FeatureBlock::Dirt), SetBlockFeature::new(FeatureBlock::Sand), 10);
    let mut rand = JavaRandom::new(1);
    assert!(other.generate(&mut level, &mut rand, 1, 1, 1));
    assert_eq!(level.get_block_at(1, 1, 1), Some(FeatureBlock::Sand));
    let always = SetBlockFeature::new(FeatureBlock::Clay).optional_or(1, SetBlockFeature::new(FeatureBlock::Sand));
    assert!(always.generate(&mut level, &mut rand, 0, 0, 0));
    assert_eq!(level.get_block_at(0, 0, 0), Some(FeatureBlock::Clay));
}

#[test]
fn repeated_and_distributed_features() {
    let mut level = BoxLevel::new(0, 0, 0, 16, 4, 16, FeatureBlock::Air);
    let mut rand = JavaRandom::new(42);
    let none = RepeatedFeature::new(SetBlockFeature::new(FeatureBlock::Dirt), 0u16);
    assert!(none.generate(&mut level, &mut rand, 0, 0, 0));
    assert_eq!(level.get_block_at(0, 0, 0), Some(FeatureBlock::Air));
    let spread = SetBlockFeature::new(FeatureBlock::Dirt).distributed_uniform(0, 4).repeated(5u16);
    assert!(spread.generate(&mut level, &mut rand, 0, 0, 0));
    let mut count = 0;
    for x in 0..16 {
        for y in 0..4 {
            for z in 0..16 {
                if level.get_block_at(x, y, z) == Some(FeatureBlock::Dirt) {
                    count += 1;
                }
            }
        }
    }
    assert!(count >= 1 && count <= 5);
    // Nothing is generated where the distribution picks nothing.
    let lakes = SetBlockFeature::new(FeatureBlock::Lava).distributed(HeightmapDistrib::new(HeightmapKind::OceanFloor));
    assert!(!lakes.generate(&mut level, &mut rand, 100, 0, 100));
    let tri = SetBlockFeature::new(FeatureBlock::Gravel).distributed_triangular(2, 1);
    assert!(tri.generate(&mut level, &mut rand, 0, 0, 0));
    let late = SetBlockFeature::new(FeatureBlock::Clay).distributed_uniform_with_late_y(3, 4);
    assert!(late.generate(&mut level, &mut rand, 0, 0, 0));
    assert!(!().generate(&mut level, &mut rand, 0, 0, 0));
}

#[test]
fn debug_feature_marks_the_border() {
    let mut level = BoxLevel::new(0, 0, 0, 16, 8, 16, FeatureBlock::Air);
    for x in 0..16 {
        for z in 0..16 {
            assert!(level.set_column_height(x, z, 5));
        }
    }
    let mut rand = JavaRandom::new(0);
    assert!(DebugChunkFeature.generate(&mut level, &mut rand, 0, 0, 0));
    assert_eq!(level.get_block_at(0, 5, 0), Some(FeatureBlock::GoldBlock));
    assert_eq!(level.get_block_at(15, 5, 7), Some(FeatureBlock::GoldBlock));
    assert_eq!(level.get_block_at(7, 5, 15), Some(FeatureBlock::GoldBlock));
    assert_eq!(level.get_block_at(7, 5, 7), Some(FeatureBlock::Air));
    assert_eq!(level.get_block_at(0, 4, 0), Some(FeatureBlock::Air));
}

#[test]
fn dungeon_mobs() {
    assert!(mob_for_draw(0) == DungeonMob::Skeleton);
    assert!(mob_for_draw(1) == DungeonMob::Zombie);
    assert!(mob_for_draw(2) == DungeonMob::Zombie);
    assert!(mob_for_draw(3) == DungeonMob::Spider);
    let mut rand = JavaRandom::new(0);
    // The first draw bounded by 4 of a generator seeded with 0 is 2.
    assert!(pick_mob(&mut rand) == DungeonMob::Zombie);
}

#[test]
fn dungeon_loot_draws() {
    for first in [0, 2, 6, 10] {
        assert!(loot_follow_up(first) == LootFollowUp::Found);
    }
    for first in [1, 3, 4, 5] {
        assert!(loot_follow_up(first) == LootFollowUp::FoundAfterBlank);
    }
    assert!(loot_follow_up(7) == LootFollowUp::Draw(100));
    assert!(loot_follow_up(8) == LootFollowUp::Draw(2));
    assert!(loot_follow_up(9) == LootFollowUp::Draw(10));
    assert_eq!(loot_second_draw(100, 0), (false, false));
    assert_eq!(loot_second_draw(100, 5), (true, false));
    assert_eq!(loot_second_draw(2, 0), (true, true));
    assert_eq!(loot_second_draw(10, 3), (false, false));
    let mut rand = JavaRandom::new(123);
    let mut found = 0;
    for _ in 0..100 {
        if pick_chest_loot_item(&mut rand) {
            found += 1;
        }
    }
    assert!(found > 0 && found <= 100);
}

use worldgen::feature::dungeon::DungeonFeature;
use worldgen::feature::tree::{TreeFeature, TreeKind, TreeHeight, RandomTreeHeight, DoubleRandomTreeHeight};
use worldgen::view::{BoxLevel, FeatureBlock, LevelView, Wood};

/// A level of 16 by 16 columns from 0 to 127: stone below 64, grass at 64, air above.
fn ground_level() -> BoxLevel {
    let mut level = BoxLevel::new(-8, 0, -8, 16, 128, 16, FeatureBlock::Air);
    for x in -8..8 {
        for z in -8..8 {
            for y in 0..64 {
                assert!(level.set_block_at(x, y, z, FeatureBlock::Other { non_solid: false, leaves: false, log: false }));
            }
            assert!(level.set_block_at(x, 64, z, FeatureBlock::GrassBlock));
        }
    }
    level
}

#[test]
fn box_level_reads_what_it_wrote() {
    let mut level = BoxLevel::new(0, 0, 0, 2, 3, 4, FeatureBlock::Air);
    assert_eq!(level.get_block_at(1, 2, 3), Some(FeatureBlock::Air));
    assert_eq!(level.get_block_at(2, 0, 0), None);
    assert_eq!(level.get_block_at(0, -1, 0), None);
    assert!(level.set_block_at(1, 2, 3, FeatureBlock::Dirt));
    assert!(!level.set_block_at(1, 3, 3, FeatureBlock::Dirt));
    assert_eq!(level.get_block_at(1, 2, 3), Some(FeatureBlock::Dirt));
    assert_eq!(level.get_block_at(0, 2, 3), Some(FeatureBlock::Air));
}

#[test]
fn dungeon_needs_a_closed_room() {
    // In open air the floor is not solid: no dungeon, nothing changed.
    let mut level = BoxLevel::new(-8, 0, -8, 16, 128, 16, FeatureBlock::Air);
    let mut rand = JavaRandom::new(1);
    assert!(!DungeonFeature.generate(&mut level, &mut rand, 0, 80, 0));
    for y in 0..128 {
        assert_eq!(level.get_block_at(0, y, 0), Some(FeatureBlock::Air));
    }
    // Fully underground: no opening in the walls, no dungeon.
    let mut level = ground_level();
    assert!(!DungeonFeature.generate(&mut level, &mut rand, 0, 30, 0));
}

#[test]
fn dungeon_in_a_cave() {
    // A cave cut at the height 30: the walls have openings where the cave passes.
    let mut level = ground_level();
    for x in -8..8 {
        for y in 30..32 {
            assert!(level.set_block_at(x, y, 0, FeatureBlock::Air));
        }
    }
    let mut rand = JavaRandom::new(3);
    assert!(DungeonFeature.generate(&mut level, &mut rand, 0, 30, 0));
    assert_eq!(level.get_block_at(0, 30, 0), Some(FeatureBlock::Spawner));
    let floor = level.get_block_at(1, 29, 1).unwrap();
    assert!(floor == FeatureBlock::Cobblestone || floor == FeatureBlock::MossyCobblestone);
    assert_eq!(level.get_block_at(1, 31, 1), Some(FeatureBlock::Air));
    // Far from the dungeon, nothing changed.
    assert_eq!(level.get_block_at(-8, 30, -8), Some(FeatureBlock::Other { non_solid: false, leaves: false, log: false }));
}

#[test]
fn oak_tree_on_grass() {
    let mut level = ground_level();
    let mut rand = JavaRandom::new(42);
    let tree = TreeFeature::new_oak();
    assert!(tree.generate(&mut level, &mut rand, 0, 65, 0));
    assert_eq!(level.get_block_at(0, 64, 0), Some(FeatureBlock::Dirt));
    assert_eq!(level.get_block_at(0, 65, 0), Some(FeatureBlock::Log(Wood::Oak)));
    assert_eq!(level.get_block_at(0, 68, 0), Some(FeatureBlock::Log(Wood::Oak)));
    assert_eq!(level.get_block_at(1, 68, 0), Some(FeatureBlock::Leaves(Wood::Oak)));
    assert_eq!(level.get_block_at(7, 66, 7), Some(FeatureBlock::Air));
}

#[test]
fn tree_refuses_blocked_places() {
    let mut level = ground_level();
    let mut rand = JavaRandom::new(42);
    // The grass is not the ground of a tree starting inside the stone.
    assert!(!TreeFeature::new_oak().generate(&mut level, &mut rand, 0, 40, 0));
    // A forest tree refuses any solid block in its way.
    assert!(level.set_block_at(1, 67, 0, FeatureBlock::Dirt));
    assert!(!TreeFeature::new_forest_birch().generate(&mut level, &mut rand, 0, 65, 0));
    assert_eq!(level.get_block_at(0, 64, 0), Some(FeatureBlock::GrassBlock));
}

#[test]
fn jungle_tree_grows_with_vines_around() {
    let mut level = ground_level();
    let mut rand = JavaRandom::new(5);
    let tree = TreeFeature::new_jungle();
    assert_eq!(tree.kind, TreeKind::Jungle);
    assert!(tree.generate(&mut level, &mut rand, 0, 65, 0));
    assert_eq!(level.get_block_at(0, 65, 0), Some(FeatureBlock::Log(Wood::Jungle)));
}

#[test]
fn tree_heights() {
    let mut rand = JavaRandom::new(0);
    assert_eq!(7.gen(&mut rand), 7);
    for _ in 0..50 {
        let h = RandomTreeHeight::new(4, 3).gen(&mut rand);
        assert!((4..7).contains(&h));
        let h = DoubleRandomTreeHeight::new(4, 7, 3).gen(&mut rand);
        assert!((4..13).contains(&h));
    }
}

use worldgen::feature::flower::{PlantFeature, SugarCaneFeature};
use worldgen::feature::lake::{lake_base, lake_place};
use worldgen::feature::tree::{ShrubFeature, TaigaTreeFeature};
use worldgen::feature::vein::{vein_place, WaterCircleFeature};
use worldgen::view::PlantKind;

#[test]
fn flowers_grow_only_on_air_above_grass() {
    let mut level = ground_level();
    let mut rand = JavaRandom::new(8);
    let feature = PlantFeature::new_flower(PlantKind::Poppy);
    assert!(feature.generate(&mut level, &mut rand, 0, 65, 0));
    let mut planted = 0;
    for x in -8..8 {
        for z in -8..8 {
            for y in 0..128 {
                let b = level.get_block_at(x, y, z).unwrap();
                if b == FeatureBlock::Plant(PlantKind::Poppy) {
                    assert_eq!(y, 65);
                    planted += 1;
                }
            }
        }
    }
    assert!(planted > 0);
    // Dead bushes need sand.
    let mut rand = JavaRandom::new(8);
    assert!(PlantFeature::new_dead_bush().generate(&mut level, &mut rand, 0, 65, 0));
    for x in -8..8 {
        for z in -8..8 {
            assert_ne!(level.get_block_at(x, 65, z), Some(FeatureBlock::Plant(PlantKind::DeadBush)));
        }
    }
}

#[test]
fn sugar_cane_needs_water_beside() {
    let mut level = ground_level();
    let mut rand = JavaRandom::new(2);
    assert!(SugarCaneFeature.generate(&mut level, &mut rand, 0, 65, 0));
    for x in -8..8 {
        for z in -8..8 {
            assert_ne!(level.get_block_at(x, 65, z), Some(FeatureBlock::SugarCane));
        }
    }
    for x in -8..8 {
        assert!(level.set_block_at(x, 64, 0, FeatureBlock::Water));
    }
    let mut grown = false;
    for seed in 0..20 {
        let mut rand = JavaRandom::new(seed);
        SugarCaneFeature.generate(&mut level, &mut rand, 0, 65, 0);
        for x in -8..8 {
            for z in -8..8 {
                if level.get_block_at(x, 65, z) == Some(FeatureBlock::SugarCane) {
                    grown = true;
                    assert!(z == 1 || z == -1);
                }
            }
        }
    }
    assert!(grown);
}

#[test]
fn shrub_sits_on_the_ground() {
    let mut level = ground_level();
    let mut rand = JavaRandom::new(4);
    assert!(ShrubFeature::new_jungle().generate(&mut level, &mut rand, 0, 80, 0));
    assert_eq!(level.get_block_at(0, 65, 0), Some(FeatureBlock::Log(Wood::Jungle)));
    assert_eq!(level.get_block_at(1, 65, 0), Some(FeatureBlock::Leaves(Wood::Oak)));
}

#[test]
fn taiga_trees_grow_on_grass() {
    let mut level = ground_level();
    let mut rand = JavaRandom::new(6);
    assert!(TaigaTreeFeature::new_spruce().generate(&mut level, &mut rand, 0, 65, 0));
    assert_eq!(level.get_block_at(0, 64, 0), Some(FeatureBlock::Dirt));
    assert_eq!(level.get_block_at(0, 65, 0), Some(FeatureBlock::Log(Wood::Spruce)));
    let mut level = ground_level();
    assert!(TaigaTreeFeature::new_pine().generate(&mut level, &mut rand, 0, 65, 0));
    assert_eq!(level.get_block_at(0, 65, 0), Some(FeatureBlock::Log(Wood::Spruce)));
    assert!(!TaigaTreeFeature::new_pine().generate(&mut level, &mut rand, 0, 40, 0));
}

#[test]
fn water_circle_replaces_dirt_around_water() {
    let mut level = BoxLevel::new(-8, 0, -8, 16, 8, 16, FeatureBlock::Dirt);
    assert!(level.set_block_at(0, 4, 0, FeatureBlock::Water));
    assert!(level.set_block_at(1, 4, 0, FeatureBlock::GrassBlock));
    let mut rand = JavaRandom::new(1);
    assert!(WaterCircleFeature::new_clay(4).generate(&mut level, &mut rand, 0, 4, 0));
    assert_eq!(level.get_block_at(0, 3, 0), Some(FeatureBlock::Clay));
    assert_eq!(level.get_block_at(0, 5, 0), Some(FeatureBlock::Clay));
    assert_eq!(level.get_block_at(0, 6, 0), Some(FeatureBlock::Dirt));
    assert_eq!(level.get_block_at(1, 4, 0), Some(FeatureBlock::GrassBlock));
    assert_eq!(level.get_block_at(7, 4, 7), Some(FeatureBlock::Dirt));
    assert!(!WaterCircleFeature::new_sand(7).generate(&mut level, &mut rand, 5, 4, 5));
}

#[test]
fn lake_base_and_fill() {
    let mut level = ground_level();
    assert_eq!(lake_base(&level, 0, 100, 0), Some(60));
    assert_eq!(lake_base(&level, 0, 4, 0), None);
    assert_eq!(lake_base(&level, 0, 5, 0), Some(1));
    let mut shape = vec![false; 2048];
    for dx in 6..9 {
        for dz in 6..9 {
            for dy in 2..6 {
                shape[(dx * 16 + dz) * 8 + dy] = true;
            }
        }
    }
    // Inside the stone: every border block is solid.
    assert!(lake_place(&mut level, -8, 30, -8, &shape, FeatureBlock::Water));
    assert_eq!(level.get_block_at(-1, 33, -1), Some(FeatureBlock::Water));
    assert_eq!(level.get_block_at(-1, 34, -1), Some(FeatureBlock::Air));
    assert_eq!(level.get_block_at(-1, 36, -1), Some(FeatureBlock::Other { non_solid: false, leaves: false, log: false }));
    // At the surface the border above the water is air, which is allowed.
    let mut level = ground_level();
    assert!(lake_place(&mut level, -8, 60, -8, &shape, FeatureBlock::Water));
    assert_eq!(level.get_block_at(-1, 63, -1), Some(FeatureBlock::Water));
    assert_eq!(level.get_block_at(-1, 64, -1), Some(FeatureBlock::Air));
    // A border touching the air below the lake's surface refuses it.
    let mut level = ground_level();
    assert!(level.set_block_at(-3, 62, -1, FeatureBlock::Air));
    assert!(!lake_place(&mut level, -8, 60, -8, &shape, FeatureBlock::Water));
    assert_eq!(level.get_block_at(-1, 63, -1), Some(FeatureBlock::Other { non_solid: false, leaves: false, log: false }));
    // Water beside the part above the surface refuses it too.
    let mut level = ground_level();
    assert!(level.set_block_at(-3, 64, -1, FeatureBlock::Water));
    assert!(!lake_place(&mut level, -8, 60, -8, &shape, FeatureBlock::Water));
}

#[test]
fn vein_replaces_only_stone() {
    let mut level = BoxLevel::new(-2, 0, -2, 4, 16, 4, FeatureBlock::Stone);
    assert!(level.set_block_at(0, 12, 0, FeatureBlock::Dirt));
    let cells = vec![(0, 10, 0), (0, 12, 0), (100, 10, 0), (0, 10, 0)];
    vein_place(&mut level, &cells, FeatureBlock::Gravel);
    assert_eq!(level.get_block_at(0, 10, 0), Some(FeatureBlock::Gravel));
    assert_eq!(level.get_block_at(0, 12, 0), Some(FeatureBlock::Dirt));
    assert_eq!(level.get_block_at(1, 10, 1), Some(FeatureBlock::Stone));
    vein_place(&mut level, &vec![(1, 10, 1)], FeatureBlock::Dirt);
    assert_eq!(level.get_block_at(1, 10, 1), Some(FeatureBlock::Dirt));
}

#[test]
fn trees_grow_low_and_in_shallow_water() {
    let mut level = BoxLevel::new(-8, 0, -8, 16, 128, 16, FeatureBlock::Air);
    for x in -8..8 {
        for z in -8..8 {
            assert!(level.set_block_at(x, 0, z, FeatureBlock::Dirt));
        }
    }
    // An oak right above the lowest layer.
    let mut rand = JavaRandom::new(4);
    assert!(TreeFeature::new_oak().generate(&mut level, &mut rand, -3, 1, -3));
    assert_eq!(level.get_block_at(-3, 1, -3), Some(FeatureBlock::Log(Wood::Oak)));
    // A swamp oak goes down through the water of its column, and its vines stop at the
    // bottom of the view.
    assert!(level.set_block_at(2, 1, 2, FeatureBlock::Water));
    let mut rand = JavaRandom::new(8);
    assert!(TreeFeature::new_swamp().generate(&mut level, &mut rand, 2, 2, 2));
    assert_eq!(level.get_block_at(2, 1, 2), Some(FeatureBlock::Log(Wood::Oak)));
    assert_eq!(level.get_block_at(2, 0, 2), Some(FeatureBlock::Dirt));
}

#[test]
fn features_refuse_what_would_leave_the_view() {
    let mut level = ground_level();
    let mut rand = JavaRandom::new(2);
    assert!(!Feature::generate(&TreeFeature::new_oak(), &mut level, &mut rand, 0, i32::MAX - 10, 0));
    assert!(!Feature::generate(&ShrubFeature::new_jungle(), &mut level, &mut rand, 0, 300, 0));
    assert!(!Feature::generate(&WaterCircleFeature::new_sand(7), &mut level, &mut rand, 0, 200, 0));
    assert!(Feature::generate(&DungeonFeature, &mut level, &mut rand, 0, 1, 0) == false);
    assert_eq!(level.get_block_at(0, 64, 0), Some(FeatureBlock::GrassBlock));
}

fn branch_angle(draw: i32) -> f32 {
    draw as f32 / 16777216.0 * mc_core::math::JAVA_PI as f32 * 2.0
}

fn crown_offset(draw: i32) -> (i32, i32) {
    let angle = branch_angle(draw);
    ((0.5 + mc_core::math::mc_cos(angle) * 4.0) as i32, (0.5 + mc_core::math::mc_sin(angle) * 4.0) as i32)
}

fn log_offset(draw: i32, dist: i32) -> (i32, i32) {
    let angle = branch_angle(draw);
    ((1.5 + mc_core::math::mc_cos(angle) * dist as f32) as i32, (1.5 + mc_core::math::mc_sin(angle) * dist as f32) as i32)
}

#[test]
fn huge_jungle_tree_grows_on_grass() {
    let tree = HugeJungleTreeFeature::new_jungle();
    let mut level = ground_level();
    let mut rand = JavaRandom::new(12);
    assert!(tree.generate(&mut level, &mut rand, -1, 65, -1, crown_offset, log_offset));
    for (x, z) in [(-1, -1), (0, -1), (-1, 0), (0, 0)] {
        assert_eq!(level.get_block_at(x, 64, z), Some(FeatureBlock::Dirt));
        assert_eq!(level.get_block_at(x, 65, z), Some(FeatureBlock::Log(Wood::Jungle)));
    }
    // On stone the tree is refused and nothing changes.
    let mut level = ground_level();
    assert!(level.set_block_at(-1, 64, -1, FeatureBlock::Stone));
    assert!(!tree.generate(&mut level, &mut rand, -1, 65, -1, crown_offset, log_offset));
    assert_eq!(level.get_block_at(-1, 65, -1), Some(FeatureBlock::Air));
    assert_eq!(level.get_block_at(0, 64, 0), Some(FeatureBlock::GrassBlock));
}

#[test]
fn crown_offsets_stay_in_their_bounds() {
    for draw in (0..16777216).step_by(4099) {
        let (dx, dz) = crown_offset(draw);
        assert!((-3..=4).contains(&dx) && (-3..=4).contains(&dz));
        for dist in 0..5 {
            let (lx, lz) = log_offset(draw, dist);
            assert!((-2..=5).contains(&lx) && (-2..=5).contains(&lz));
        }
    }
}

#[test]
fn lava_lake_pick_follows_its_draws() {
    let level = empty_level();
    for seed in 0..40i64 {
        let mut rand = JavaRandom::new(seed);
        let mut copy = JavaRandom::new(seed);
        let picked = LavaLakeDistrib.pick_pos(&level, &mut rand, 32, 0, -16);
        let rx = 32 + copy.next_int_bounded(16);
        let bound = copy.next_int_bounded(120) + 8;
        let ry = copy.next_int_bounded(bound);
        let rz = -16 + copy.next_int_bounded(16);
        let kept = ry < 63 || copy.next_int_bounded(10) == 0;
        assert_eq!(picked, if kept { Some((rx, ry, rz)) } else { None });
        assert_eq!(rand.get_seed(), copy.get_seed());
    }
}

#[test]
fn oak_corners_follow_their_draws() {
    for seed in [1i64, 7, 42, 1234] {
        let mut level = ground_level();
        let mut rand = JavaRandom::new(seed);
        let mut copy = JavaRandom::new(seed);
        assert!(TreeFeature::new_oak().generate(&mut level, &mut rand, 0, 65, 0));
        let height = 4 + copy.next_int_bounded(3);
        let top = 65 + height;
        for dy in (top - 3)..=top {
            let top_diff = dy - top;
            let radius = if top_diff <= -2 { 2 } else { 1 };
            for (cx, cz) in [(-radius, -radius), (-radius, radius), (radius, -radius), (radius, radius)] {
                let kept = copy.next_int_bounded(2) != 0 && top_diff != 0;
                let block = level.get_block_at(cx, dy, cz).unwrap();
                assert_eq!(block == FeatureBlock::Leaves(Wood::Oak), kept, "seed {} corner {}/{}/{}", seed, cx, dy, cz);
            }
        }
        assert_eq!(rand.get_seed(), copy.get_seed());
    }
}

#[test]
fn dungeons_are_reproduced_by_their_seed() {
    let mut a = ground_level();
    let mut b = ground_level();
    for x in -8..8 {
        for y in 30..32 {
            assert!(a.set_block_at(x, y, 0, FeatureBlock::Air));
            assert!(b.set_block_at(x, y, 0, FeatureBlock::Air));
        }
    }
    let mut ra = JavaRandom::new(11);
    let mut rb = JavaRandom::new(11);
    assert_eq!(DungeonFeature.generate(&mut a, &mut ra, 0, 30, 0), DungeonFeature.generate(&mut b, &mut rb, 0, 30, 0));
    assert_eq!(ra.get_seed(), rb.get_seed());
    for x in -8..8 {
        for z in -8..8 {
            for y in 0..128 {
                assert_eq!(a.get_block_at(x, y, z), b.get_block_at(x, y, z));
            }
        }
    }
}

fn replay_crown_draws(rand: &mut JavaRandom, base_radius: i32) {
    for dy in -2..=0 {
        let r = base_radius + 1 - dy;
        for lx in -r..=r + 1 {
            for lz in -r..=r + 1 {
                let inside = (lx >= 0 || lz >= 0 || lx * lx + lz * lz <= r * r)
                    && ((lx <= 0 && lz <= 0) || lx * lx + lz * lz <= (r + 1) * (r + 1));
                if inside {
                    rand.next_int_bounded(4);
                }
            }
        }
    }
}

#[test]
fn huge_jungle_branch_logs_follow_their_draws() {
    for seed in [3i64, 12, 99] {
        let tree = HugeJungleTreeFeature::new_jungle();
        let mut level = ground_level();
        let mut rand = JavaRandom::new(seed);
        let (x, y, z) = (-1, 65, -1);
        assert!(tree.generate(&mut level, &mut rand, x, y, z, crown_offset, log_offset));
        let mut copy = JavaRandom::new(seed);
        let height = 10 + copy.next_int_bounded(20) + copy.next_int_bounded(3);
        replay_crown_draws(&mut copy, 2);
        let mut by = y + height - 2 - copy.next_int_bounded(4);
        let mut branches = 0;
        while by > y + height / 2 {
            let draw = copy.next_int_bounded(1 << 24);
            replay_crown_draws(&mut copy, 0);
            for dist in 0..5 {
                let (lx, lz) = log_offset(draw, dist);
                assert_eq!(level.get_block_at(x + lx, by - 3 + dist / 2, z + lz), Some(FeatureBlock::Log(Wood::Jungle)),
                    "seed {} branch at {} log {}", seed, by, dist);
            }
            by -= 2 + copy.next_int_bounded(4);
            branches += 1;
        }
        assert!(branches > 0);
    }
}

#[test]
fn distributions_tell_where_they_can_pick() {
    let level = empty_level();
    assert!(UniformVerticalDistrib::new(0, 128).can_pick_at(&level, 0, 0, 0));
    assert!(UniformVerticalDistrib::new(0, 128).can_pick_at(&level, i32::MAX - 15, 0, 0));
    assert!(!UniformVerticalDistrib::new(0, 128).can_pick_at(&level, i32::MAX - 14, 0, 0));
    assert!(!UniformVerticalDistrib::new(5, 5).can_pick_at(&level, 0, 0, 0));
    assert!(TriangularVerticalDistrib::new(16, 16).can_pick_at(&level, 0, 0, 0));
    assert!(!TriangularVerticalDistrib::new(16, 0).can_pick_at(&level, 0, 0, 0));
    assert!(LavaLakeDistrib.can_pick_at(&level, 0, 0, i32::MAX - 15));
    assert!(!LavaLakeDistrib.can_pick_at(&level, 0, 0, i32::MAX));
}

#[test]
fn features_tell_where_they_fit() {
    let level = BoxLevel::new(-8, 0, -8, 16, 256, 16, FeatureBlock::Air);
    let oak = TreeFeature::new_oak();
    assert!(oak.fits_over(&level, (0, 65, 0), (0, 65, 0)));
    assert!(oak.fits_over(&level, (-3, 65, -3), (2, 65, 2)));
    assert!(!oak.fits_over(&level, (5, 65, 0), (5, 65, 0)));
    let dungeons = DungeonFeature.distributed_uniform(0, 128);
    assert!(dungeons.fits_over(&level, (0, 0, 0), (0, 0, 0)));
    assert!(!dungeons.fits_over(&level, (i32::MAX - 10, 0, 0), (i32::MAX - 10, 0, 0)));
    let block = SetBlockFeature::new(FeatureBlock::Stone);
    assert!(block.fits_over(&level, (-8, 0, -8), (7, 127, 7)));
    assert!(!block.fits_over(&level, (-8, 0, -8), (8, 0, -8)));
}
