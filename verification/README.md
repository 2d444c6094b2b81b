# bangladesh

Map generation for a Bangladesh RPG: OpenStreetMap extracts become vector
tile bundles (`assets/map/<region>/map_index.json` and `tile_<id>.rkyv`) and a
terrain raster pyramid.

The decisions of the generator are a Verus-verified library (`src/`):

- `world`: terrain classes and their byte codes and priorities, feature types,
  bundle paths and tile file names.
- `tags`: terrain, road and point-of-interest classification of OSM tags.
- `rings`: stitching multipolygon outer ways into closed rings.
- `tile_ids`, `tiles`: tile ids, tile selections (`0-50,100-120`), tiles of a
  cell range, detail-level counts, the chunk index, chunk merging, bounds of
  quantized points.
- `features`: assembling area, building and point features of a level.
- `raster`: the row windows of the chunk raster and the chunks each window
  paints, with the polygons that paint them.
- `cells`, `passes`, `components`, `stubs`, `refine`: raster cell rules,
  connected components, stub detection and chunk repair.
- `pyramid`, `reducer`, `row_order`, `lineage`: 2x2 downsampling,
  coarse-level road cleanup, the pyramid layout, the streaming pyramid
  reducer, and which coarse tiles it emits (every one, exactly once).
- `road_changes`: which cells the road passes may change.
- `config`: region downloads and generator settings.

`app/` is the command-line program around it (`generate` for vector tiles,
`terrain` for the raster pyramid): file and network I/O, floating-point
geometry (projection, simplification, point-in-polygon painting), spatial
queries and serialization.

`tests/` exercise the library on concrete inputs.
