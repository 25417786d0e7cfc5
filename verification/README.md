# tyler

A library for turning city models and point clouds into 3D Tiles content and
GeoParquet tables, with a program around it. The library is written in Verus:
what its functions compute is stated in their contracts and proved.

## Layout

- `src/` is the library.
  - `gltf_writer` puts features and Gaussian splats into a mesh, lays out its
    binary buffer, describes it as a glTF document and packs both as GLB or
    B3DM.
  - `copc_reader` opens Cloud Optimized Point Clouds and selects their chunks
    and points.
  - `las_source` decides which points become splats, and finds splats by cell
    and tier of detail.
  - `geoparquet_writer` makes table rows of buildings.
  - `trees` reads tree meshes and makes models of them, by way of CityJSON
    features.
  - `tiling` holds the decisions of a run.
  - `bytes`, `float_bits`, `text` and `json` are what the others build on.
- `tests/` holds the tests.
- `app/` is the program: files, floating point computations and conversions.

Floating point numbers are held by their bits. The library compares them and
passes them on; arithmetic on them is done in `app/`.

The functions marked `external_body` call other crates. What is believed of
each call is said above it.
