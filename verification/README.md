# psd2ugui

Turns a layered Photoshop document into a bundle (a manifest, layer images,
masks and a preview) and then into a UI plan for Unity UGUI, which it can
also validate.

The library under `src/` is written in Verus. Its functions carry contracts
and are proved against them, except a few small wrappers around standard
library calls and SHA-1 (marked `#[verifier::external_body]`), whose
contracts restate what those calls are documented to do. It holds the logic
of the pipeline:

- `bytes`, `psd`, `layer_meta`, `descriptor`, `engine`: scanning the PSD
  binary format (header, layer records, additional layer information,
  action descriptors, type tool engine data).
- `hierarchy`, `export`, `asset_stems`, `tree_laws`: rebuilding the group
  tree from the flat layer list, node ids, stack indices, clip targets and
  asset file names.
- `raster`, `photoshop`, `parse`, `effects`: what is asked of Photoshop and
  what its answer does to the tree, the driver script and paths, and the
  alpha masks behind baked strokes and shadows.
- `manifest`, `models`, `planner`, `report`, `validation`, `plan_laws`,
  `pipeline`: the UI plan built from a manifest, its report and its checks.

`app/` is the command line program around the library: file and process
I/O, JSON through serde, argument parsing, and the floating-point parts
(text sizes, colors read as fractions, pixel compositing).
