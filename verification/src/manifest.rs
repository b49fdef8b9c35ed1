use vstd::prelude::*;

verus! {

/// Where an exported bundle came from.
#[derive(Debug, Clone)]
pub struct ManifestSource {
    pub input_path: String,
    pub input_file: String,
    pub file_size: u64,
    pub file_sha1: String,
}

/// The merged preview image of a bundle.
#[derive(Debug, Clone)]
pub struct ManifestPreview {
    pub path: String,
    pub width: i32,
    pub height: i32,
}

/// The document described by a bundle manifest.
#[derive(Debug, Clone)]
pub struct ManifestDocument {
    pub width: i32,
    pub height: i32,
    pub color_mode: String,
    pub depth: i32,
    pub channel_count: i32,
    pub preview: ManifestPreview,
}

/// A warning raised while exporting a bundle.
#[derive(Debug, Clone)]
pub struct ManifestWarning {
    pub code: String,
    pub message: String,
}

/// A layer rectangle as the manifest stores it.
#[derive(Debug, Clone, Copy, PartialEq, Eq, Structural)]
pub struct ManifestBounds {
    pub x: i32,
    pub y: i32,
    pub width: i32,
    pub height: i32,
}

/// An exported layer image.
#[derive(Debug, Clone)]
pub struct ManifestAsset {
    pub path: String,
    pub width: i32,
    pub height: i32,
}

/// An exported layer mask.
#[derive(Debug, Clone)]
pub struct ManifestMask {
    pub path: String,
    pub bounds: ManifestBounds,
    pub default_color: Option<i32>,
    pub disabled: Option<bool>,
}

/// An RGBA color.
#[derive(Debug, Clone, Copy, PartialEq, Eq, Structural)]
pub struct ManifestColor {
    pub r: u8,
    pub g: u8,
    pub b: u8,
    pub a: u8,
}

/// Styling of a span of text. `font_size` is the bit pattern of an `f32`.
#[derive(Debug, Clone)]
pub struct ManifestCharacterRun {
    pub start: usize,
    pub length: usize,
    pub font_family: Option<String>,
    pub font_style: Option<String>,
    pub font_size: Option<u32>,
    pub color: Option<ManifestColor>,
}

/// Alignment of a span of text.
#[derive(Debug, Clone)]
pub struct ManifestParagraphRun {
    pub start: usize,
    pub length: usize,
    pub alignment: Option<String>,
}

/// Text exposed by a layer. `font_size` is the bit pattern of an `f32`.
#[derive(Debug, Clone)]
pub struct ManifestText {
    pub content: Option<String>,
    pub character_runs: Vec<ManifestCharacterRun>,
    pub paragraph_runs: Vec<ManifestParagraphRun>,
    pub font_family: Option<String>,
    pub font_size: Option<u32>,
    pub color: Option<ManifestColor>,
    pub alignment: Option<String>,
}

/// Something about a layer that export could not represent.
#[derive(Debug, Clone)]
pub struct ManifestUnsupported {
    pub kind: String,
    pub reason: String,
}

/// One member of a layer's effects object: its key and whether its value is
/// not JSON `null`.
#[derive(Debug, Clone)]
pub struct EffectEntry {
    pub key: String,
    pub present: bool,
}

/// A layer's effects as the manifest gives them: whether they form a JSON
/// object, its members, the string items of its `baked` array, and the JSON
/// text itself, which the plan carries through unchanged.
#[derive(Debug, Clone)]
pub struct ManifestEffects {
    pub is_object: bool,
    pub entries: Vec<EffectEntry>,
    pub baked: Vec<String>,
    pub json: String,
}

/// A layer of a bundle manifest. `opacity` is the bit pattern of an `f32`.
#[derive(Debug)]
pub struct ManifestLayer {
    pub id: String,
    pub name: String,
    pub layer_type: String,
    pub visible: bool,
    pub opacity: u32,
    pub blend_mode: String,
    pub bounds: ManifestBounds,
    pub stack_index: i32,
    pub children: Vec<ManifestLayer>,
    pub asset: Option<ManifestAsset>,
    pub mask: Option<ManifestMask>,
    pub clip_to: Option<String>,
    pub text: Option<ManifestText>,
    pub effects: ManifestEffects,
    pub unsupported: Vec<ManifestUnsupported>,
}

/// A bundle manifest, as the export stage writes it.
#[derive(Debug)]
pub struct Manifest {
    pub schema_version: String,
    pub source: ManifestSource,
    pub document: ManifestDocument,
    pub warnings: Vec<ManifestWarning>,
    pub layers: Vec<ManifestLayer>,
}

/// A layer is visible unless the manifest says otherwise.
pub fn default_true() -> (b: bool)
    ensures
        b,
{
    true
}

/// A color is opaque unless the manifest says otherwise.
pub fn default_alpha() -> (a: u8)
    ensures
        a == 255,
{
    255
}

/// Bit pattern of the `f32` 1.0, the opacity of a layer that states none.
pub fn default_opacity() -> (bits: u32)
    ensures
        bits == 0x3F80_0000,
{
    0x3F80_0000
}

} // verus!
