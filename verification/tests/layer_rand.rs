use worldgen::layer_new::LayerRand;
use worldgen::layer::zoom::VoronoiLayer;
use worldgen::layer::island::IslandLayer;

#[test]
fn layer_rand_seeds_and_first_draw() {
    let mut rand = LayerRand::new(1);
    rand.init_world_seed(12345);
    rand.init_chunk_seed(0, 0);
    assert_eq!(rand.get_chunk_seed(), -362142932134056964);
    assert_eq!(rand.next_int(10), 2);
    assert_eq!(rand.get_chunk_seed(), 5422905225418101677);
}

#[test]
fn layer_rand_new_starts_with_zero_chunk_seed() {
    let rand = LayerRand::new(1);
    assert_eq!(rand.get_chunk_seed(), 0);
}

#[test]
fn layer_rand_draws_stay_below_the_bound() {
    let mut rand = LayerRand::new(2000);
    rand.init_world_seed(-42);
    for x in -20..20 {
        rand.init_chunk_seed(x, 3 * x);
        for bound in [1u32, 2, 3, 7, 10, 100] {
            assert!(rand.next_int(bound) < bound);
        }
    }
}

#[test]
fn layer_rand_is_deterministic() {
    let mut a = LayerRand::new(77);
    let mut b = LayerRand::new(77);
    a.init_world_seed(5);
    b.init_world_seed(5);
    a.init_chunk_seed(-3, 9);
    b.init_chunk_seed(-3, 9);
    for _ in 0..10 {
        assert_eq!(a.next_int(1000), b.next_int(1000));
    }
}

#[test]
fn layer_rand_skip_advances_as_a_draw() {
    let mut a = LayerRand::new(3);
    let mut b = LayerRand::new(3);
    a.init_world_seed(9);
    b.init_world_seed(9);
    a.init_chunk_seed(1, 2);
    b.init_chunk_seed(1, 2);
    a.skip();
    b.next_int(17);
    assert_eq!(a.get_chunk_seed(), b.get_chunk_seed());
}

#[test]
fn layer_rand_pick_returns_an_element() {
    let mut rand = LayerRand::new(4);
    rand.init_world_seed(11);
    let elements = [3, 5, 8, 13];
    for x in 0..30 {
        rand.init_chunk_seed(x, -x);
        let v = rand.pick(&elements);
        assert!(elements.contains(&v));
    }
    rand.init_chunk_seed(0, 0);
    assert_eq!(rand.pick(&[42]), 42);
}

#[test]
fn voronoi_corner_draws_follow_the_corners() {
    let mut layer = VoronoiLayer::new(IslandLayer::new(1), 10);
    layer.seed(42);
    let draws = layer.corner_draws(5, -3);
    assert_eq!(draws.len(), 8);
    let mut rand = LayerRand::new(10);
    rand.init_world_seed(42);
    // x - 2 = 3 gives the corner 0, z - 2 = -5 gives the corner -2: seeds at 0/-8, 4/-8, 0/-4, 4/-4.
    let corners = [(0, -8), (4, -8), (0, -4), (4, -4)];
    for (k, (cx, cz)) in corners.iter().enumerate() {
        rand.init_chunk_seed(*cx, *cz);
        assert_eq!(draws[2 * k], rand.next_int(1024));
        assert_eq!(draws[2 * k + 1], rand.next_int(1024));
    }
    for d in draws {
        assert!(d < 1024);
    }
}
