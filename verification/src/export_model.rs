use vstd::prelude::*;

use crate::psd::Bounds;
use crate::text::owned;

verus! {

/// Where an exported document came from.
#[derive(Debug, Clone)]
pub struct SourceInfo {
    pub input_path: String,
    pub input_file: String,
    pub file_size: u64,
    pub file_sha1: String,
}

/// An exported image: its path inside the bundle and its size.
#[derive(Debug, Clone)]
pub struct AssetRef {
    pub path: String,
    pub width: u32,
    pub height: u32,
}

/// The exported document.
#[derive(Debug, Clone)]
pub struct DocumentInfo {
    pub width: u32,
    pub height: u32,
    pub color_mode: String,
    pub depth: u16,
    pub channel_count: u16,
    pub preview: AssetRef,
}

/// Something the export noticed that a person may want to know.
#[derive(Debug, Clone)]
pub struct ExportWarning {
    pub code: String,
    pub message: String,
    pub layer_name: Option<String>,
}

/// A warning seen as its code, message and layer name.
pub struct WarningView {
    pub code: Seq<char>,
    pub message: Seq<char>,
    pub layer_name: Option<Seq<char>>,
}

impl View for ExportWarning {
    type V = WarningView;

    open spec fn view(&self) -> WarningView {
        WarningView {
            code: self.code@,
            message: self.message@,
            layer_name: match self.layer_name {
                Some(n) => Some(n@),
                None => None,
            },
        }
    }
}

/// The views of a list of warnings.
pub open spec fn export_warning_views(s: Seq<ExportWarning>) -> Seq<WarningView> {
    s.map_values(|w: ExportWarning| w@)
}

impl ExportWarning {
    /// A warning about the whole document.
    pub fn new(code: &str, message: &str) -> (w: ExportWarning)
        ensures
            w@ == (WarningView { code: code@, message: message@, layer_name: None }),
    {
        ExportWarning { code: owned(code), message: owned(message), layer_name: None }
    }

    /// A warning about one layer.
    pub fn for_layer(code: &str, message: &str, layer_name: &str) -> (w: ExportWarning)
        ensures
            w@ == (WarningView { code: code@, message: message@, layer_name: Some(layer_name@) }),
    {
        ExportWarning { code: owned(code), message: owned(message), layer_name: Some(owned(layer_name)) }
    }
}

/// A layer mask exported as an image.
#[derive(Debug, Clone)]
pub struct MaskRef {
    pub path: String,
    pub bounds: Bounds,
    pub default_color: u8,
    pub relative: bool,
    pub disabled: bool,
    pub invert: bool,
}

/// An 8-bit RGBA color.
#[derive(Debug, Clone, Copy, PartialEq, Eq, Structural)]
pub struct ColorRgba {
    pub r: u8,
    pub g: u8,
    pub b: u8,
    pub a: u8,
}

/// A color overlay effect.
#[derive(Debug, Clone, Copy)]
pub struct FillEffect {
    pub color: ColorRgba,
}

/// How a paragraph of text is aligned.
#[derive(Debug, Clone, Copy, PartialEq, Eq, Structural)]
pub enum TextAlignment {
    Left,
    Center,
    Right,
    Justify,
}

/// The alignment of a span of text.
#[derive(Debug, Clone, Copy, PartialEq, Eq, Structural)]
pub struct TextParagraphRun {
    pub start: usize,
    pub length: usize,
    pub alignment: Option<TextAlignment>,
}

/// A feature of a layer that the export does not reproduce.
#[derive(Debug, Clone)]
pub struct UnsupportedInfo {
    pub kind: String,
    pub reason: String,
}

/// What the export is asked to do.
#[derive(Debug, Clone)]
pub struct ExportOptions {
    pub out_dir: String,
    pub include_hidden: bool,
    pub with_preview: bool,
    pub strict: bool,
    pub photoshop_path: Option<String>,
    pub photoshop_timeout_sec: u64,
}

/// How strictly a PSD is parsed.
#[derive(Debug, Clone, Copy)]
pub struct ParseOptions {
    pub strict: bool,
}

/// The input file of a parse.
#[derive(Debug, Clone)]
pub struct ParsedSource {
    pub input_path: String,
    pub input_file: String,
    pub file_size: u64,
    pub file_sha1: String,
}

/// The header facts of a parsed document.
#[derive(Debug, Clone)]
pub struct ParsedMetadata {
    pub width: u32,
    pub height: u32,
    pub color_mode: String,
    pub depth: u16,
    pub channel_count: u16,
}

} // verus!
