# buildings_core

The verified core of an on-demand 3D buildings tile service and of its
offline height calibrator. Every function under `src/` carries a contract
that Verus proves; calls into outside crates go through small trusted items
whose contracts are stated next to them.

## Layout

- `src/` — the library, checked by Verus:
  - `glb.rs`: glb framing (header, JSON and BIN chunks, 4-byte padding) and
    packing of the binary buffer (positions, normals and indices compressed
    through `meshopt`, feature ids, property columns);
  - `mesh.rs`, `fragments.rs`: footprint polygons (ring closing, grouping,
    signed area, bounding boxes), multi-fragment building grouping by id,
    wall and roof index bookkeeping, the height cascade and urban density
    classes;
  - `height_config.rs`, `height_model.rs`, `features.rs`, `gbt.rs`: the
    height configuration, the gradient-boosted-tree model (validation,
    prepared arena, tree walks), the feature encoder, and the parts of tree
    growing and model export that are not floating-point arithmetic;
  - `terrain.rs`, `render.rs`, `mvt.rs`: Terrarium elevation decoding from
    WebP tiles (through `image-webp`) and raster corner lookup;
  - `cities.rs`, `dataset.rs`, `overture.rs`, `plateau.rs`: city presets,
    top-k vocabularies, Overture release discovery and tile cache names,
    PLATEAU URL encoding, cache names and mesh codes;
  - `routes.rs`: the tile route's parameter checks;
  - `float_bits.rs`, `text.rs`: IEEE-754 bit-pattern predicates and string
    helpers used in contracts.
- `tests/` — concrete-value tests of the library, run against the real
  outside crates.
- `app/` — the command-line calibrator and the floating-point geometry,
  model prediction, network and file I/O around the library.

Real-valued quantities cross the library boundary as `to_bits` patterns:
the library compares, selects and copies them, and `app/` does the
arithmetic.

## Trusted assumptions

Calls into outside crates go through `#[verifier::external_body]` wrappers
whose contracts restate what those crates' sources show. Verus does not
check that an outside function returns at all, so the library's freedom
from panics rests on these assumptions:

- image-webp's `WebPDecoder::new` and `read_image` (in `terrain.rs`) return
  an error, rather than panic, on malformed WebP bytes. Their header
  parsing is guarded, but the VP8 and VP8L decoding paths were not shown
  panic-free.
- flate2's `GzDecoder` (in `overture.rs`), byteorder's writers and
  meshopt's vertex and index codecs (in `glb.rs`) return on every input that the
  wrappers' `requires` admit.
