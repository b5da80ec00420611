# worldgen

World generation for Minecraft release 1.2, with its logic verified by Verus.

- `src/` is the verified library:
  - `layer/` (cell by cell, with caches) and `layer_new/` (rectangles of cells) are the
    biome layers: islands, zooms, snow, rivers, biomes, hills, shores, smoothing. Each
    cell is stated as a rule of the cells of its parent layer and of the layer's seeds.
  - `feature/` holds the level features (trees, dungeons, plants, water disks, the
    integer parts of lakes and veins), their distributions, repetitions and choices,
    over the `LevelView` of `view.rs`.
  - `gen/` holds the seeds of the generators, the surface rules, the chunk admission,
    and the scheduling of the threaded legacy generator (which chunks to request,
    when a population chunk can be decorated and when a chunk is done).
  - `noise.rs` is the permutation table of the Perlin noise, `java.rs` the Java linear
    congruential generator, each draw stated as a function of the generator's state.
- `app/` holds what is floating point (noise, terrain field, cave paths, big oaks, lake
  and vein shapes, branch directions, voronoi zoom) and the chunk access and threads
  around the library.
- `tests/` exercises the library on concrete values.
