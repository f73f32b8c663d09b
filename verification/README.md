# cairn_core

The decisions behind an offline map-data pipeline - OSM extracts, planetiler basemaps and
routes, SRTM and GeoTIFF elevation, Valhalla routing graphs and `.vtiles` packages - written in
Verus, with each public function's behaviour stated in its contract and proved.

## Layout

- `src/` - the library. Every function in it is verified. Among the larger pieces:
  - `steps`, `runner`: the step graph, the run order (dependencies first, nothing twice, nothing
    unneeded) and the state of a run;
  - `state`: when a step counts as built (its files, not a record), and the build record;
  - `options`, `presets`: the option schema, `key=value` overrides, and the preset store;
  - `progress`, `external`: planetiler's and Valhalla's logs read as events;
  - `tiff`, `hgt`: GeoTIFF structure and tile decoding, SRTM tiles and their names;
  - `poly`, `tilemask`, `package`, `valhalla`: `.poly` shapes, quadtree tilemasks, graph tiles
    and the packages made of them;
  - `catalog`, `tileserver`, `desktop`, `settings`, `download`, `routing`, `toolchain`: what the
    front ends decide about archives, paths, tools and configuration.
- `app/` - the `cairn` command line: file, process and SQLite work, and the geometry and byte
  counts that take floating point, around calls into the library.
- `tests/` - tests of the library on concrete values.

Calls into outside crates (zopfli, flate2, zstd, base64) and a few `std` path and text
functions are made through small trusted wrappers in `src/`; each says in its doc comment what
its contract claims of the call.
