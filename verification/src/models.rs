use vstd::prelude::*;

use crate::manifest::{ManifestBounds, ManifestUnsupported, ManifestWarning};

verus! {

/// The plan format version.
pub const PLAN_VERSION: &'static str = "2.0.0";

/// A node that only groups its children.
pub const COMPONENT_CONTAINER: &'static str = "Container";

/// A node drawn from an exported image.
pub const COMPONENT_IMAGE_PLACEHOLDER: &'static str = "ImagePlaceholder";

/// A TextMeshPro text node.
pub const COMPONENT_TMP_TEXT: &'static str = "TMP_Text";

/// A button.
pub const COMPONENT_BUTTON: &'static str = "Button";

/// A vertically scrolling view.
pub const COMPONENT_SCROLL_VIEW: &'static str = "ScrollView";

/// A group whose children are masked or clipped.
pub const COMPONENT_MASK_GROUP: &'static str = "MaskGroup";

/// Where a plan came from.
#[derive(Debug, Clone)]
pub struct SourceBundle {
    pub bundle_dir: String,
    pub manifest_path: String,
    pub preview_path: String,
    pub document_id: String,
    pub generated_at: String,
}

/// The planned document.
#[derive(Debug, Clone)]
pub struct PlanDocument {
    pub width: i32,
    pub height: i32,
    pub preview_path: String,
}

/// A node rectangle, in document pixels and relative to its parent.
#[derive(Debug, Clone, Copy, PartialEq, Eq, Structural)]
pub struct PlanRect {
    pub x: i32,
    pub y: i32,
    pub width: i32,
    pub height: i32,
    pub local_x: i32,
    pub local_y: i32,
}

/// Styling of a span of recovered text; `font_size` is the bit pattern of
/// an `f32`, `color` is `#RRGGBBAA`.
#[derive(Debug, Clone)]
pub struct RecoveredTextCharacterRun {
    pub start: usize,
    pub length: usize,
    pub font_family: Option<String>,
    pub font_style: Option<String>,
    pub font_size: Option<u32>,
    pub color: Option<String>,
}

/// Alignment of a span of recovered text.
#[derive(Debug, Clone)]
pub struct RecoveredTextParagraphRun {
    pub start: usize,
    pub length: usize,
    pub alignment: Option<String>,
}

/// Text recovered for a text node; `confidence` and `font_size` are bit
/// patterns of `f32`s.
#[derive(Debug, Clone)]
pub struct RecoveredText {
    pub content: String,
    pub source: String,
    pub confidence: u32,
    pub character_runs: Vec<RecoveredTextCharacterRun>,
    pub paragraph_runs: Vec<RecoveredTextParagraphRun>,
    pub font_size: Option<u32>,
    pub alignment: Option<String>,
    pub color: Option<String>,
}

/// How a node responds to input.
#[derive(Debug, Clone)]
pub struct InteractionSpec {
    pub kind: String,
    pub horizontal: Option<bool>,
    pub vertical: Option<bool>,
    pub content_rect: Option<PlanRect>,
}

/// Something about a node that a person should look at.
#[derive(Debug, Clone)]
pub struct ReviewItem {
    pub kind: String,
    pub severity: String,
    pub node_id: String,
    pub message: String,
}

/// What a plan node keeps of its layer. `opacity` is the bit pattern of an
/// `f32`; `effects_json` is the layer's effects as JSON text.
#[derive(Debug, Clone)]
pub struct PlanMetadata {
    pub layer_name: String,
    pub layer_type: String,
    pub blend_mode: String,
    pub opacity: u32,
    pub asset_path: Option<String>,
    pub mask_path: Option<String>,
    pub clip_to: Option<String>,
    pub effects_json: String,
    pub unsupported: Vec<ManifestUnsupported>,
    pub visible: bool,
    pub stack_index: i32,
    pub component_hint: String,
    pub bounds_source: String,
    pub mask_mode: Option<String>,
    pub resolved_bounds: ManifestBounds,
}

/// A node of a UI plan; `confidence` is the bit pattern of an `f32`.
#[derive(Debug)]
pub struct PlanNode {
    pub node_id: String,
    pub name: String,
    pub source_layer_ids: Vec<String>,
    pub component_type: String,
    pub rect: PlanRect,
    pub render_order: i32,
    pub children: Vec<PlanNode>,
    pub confidence: u32,
    pub needs_review: bool,
    pub metadata: PlanMetadata,
    pub text: Option<RecoveredText>,
    pub interaction: Option<InteractionSpec>,
}

/// A UI plan for a bundle.
#[derive(Debug)]
pub struct UiPlan {
    pub plan_version: String,
    pub source_bundle: SourceBundle,
    pub document: PlanDocument,
    pub nodes: Vec<PlanNode>,
    pub review_items: Vec<ReviewItem>,
    pub warnings: Vec<ManifestWarning>,
}

/// How many visible layers the plan maps, and which it does not.
#[derive(Debug, Clone)]
pub struct CoverageReport {
    pub visible_layers: usize,
    pub mapped_layers: usize,
    pub unmapped_layer_ids: Vec<String>,
}

/// Where the text of text nodes came from.
#[derive(Debug, Clone)]
pub struct TextRecoveryReport {
    pub total_text_nodes: usize,
    pub recovered_from_manifest: usize,
    pub recovered_from_heuristic: usize,
    pub placeholder_fallbacks: usize,
}

/// How many plan nodes have a component type.
#[derive(Debug, Clone)]
pub struct ComponentCount {
    pub component: String,
    pub count: usize,
}

/// The report written beside a plan.
#[derive(Debug, Clone)]
pub struct ValidationReport {
    pub plan_status: String,
    pub coverage: CoverageReport,
    pub text_recovery: TextRecoveryReport,
    pub component_summary: Vec<ComponentCount>,
    pub review_count: usize,
    pub unity_apply_status: String,
    pub warnings: Vec<ManifestWarning>,
}

} // verus!

verus! {

/// An optional string seen as characters.
pub open spec fn ostr(s: Option<String>) -> Option<Seq<char>> {
    match s {
        Some(s) => Some(s@),
        None => None,
    }
}

pub struct RecoveredTextCharacterRunView {
    pub start: usize,
    pub length: usize,
    pub font_family: Option<Seq<char>>,
    pub font_style: Option<Seq<char>>,
    pub font_size: Option<u32>,
    pub color: Option<Seq<char>>,
}

impl View for RecoveredTextCharacterRun {
    type V = RecoveredTextCharacterRunView;

    open spec fn view(&self) -> RecoveredTextCharacterRunView {
        RecoveredTextCharacterRunView {
            start: self.start,
            length: self.length,
            font_family: ostr(self.font_family),
            font_style: ostr(self.font_style),
            font_size: self.font_size,
            color: ostr(self.color),
        }
    }
}

pub struct RecoveredTextParagraphRunView {
    pub start: usize,
    pub length: usize,
    pub alignment: Option<Seq<char>>,
}

impl View for RecoveredTextParagraphRun {
    type V = RecoveredTextParagraphRunView;

    open spec fn view(&self) -> RecoveredTextParagraphRunView {
        RecoveredTextParagraphRunView {
            start: self.start,
            length: self.length,
            alignment: ostr(self.alignment),
        }
    }
}

pub struct RecoveredTextView {
    pub content: Seq<char>,
    pub source: Seq<char>,
    pub confidence: u32,
    pub character_runs: Seq<RecoveredTextCharacterRunView>,
    pub paragraph_runs: Seq<RecoveredTextParagraphRunView>,
    pub font_size: Option<u32>,
    pub alignment: Option<Seq<char>>,
    pub color: Option<Seq<char>>,
}

impl View for RecoveredText {
    type V = RecoveredTextView;

    open spec fn view(&self) -> RecoveredTextView {
        RecoveredTextView {
            content: self.content@,
            source: self.source@,
            confidence: self.confidence,
            character_runs: self.character_runs@.map_values(|r: RecoveredTextCharacterRun| r@),
            paragraph_runs: self.paragraph_runs@.map_values(|r: RecoveredTextParagraphRun| r@),
            font_size: self.font_size,
            alignment: ostr(self.alignment),
            color: ostr(self.color),
        }
    }
}

pub struct InteractionSpecView {
    pub kind: Seq<char>,
    pub horizontal: Option<bool>,
    pub vertical: Option<bool>,
    pub content_rect: Option<PlanRect>,
}

impl View for InteractionSpec {
    type V = InteractionSpecView;

    open spec fn view(&self) -> InteractionSpecView {
        InteractionSpecView {
            kind: self.kind@,
            horizontal: self.horizontal,
            vertical: self.vertical,
            content_rect: self.content_rect,
        }
    }
}

pub struct ReviewItemView {
    pub kind: Seq<char>,
    pub severity: Seq<char>,
    pub node_id: Seq<char>,
    pub message: Seq<char>,
}

impl View for ReviewItem {
    type V = ReviewItemView;

    open spec fn view(&self) -> ReviewItemView {
        ReviewItemView {
            kind: self.kind@,
            severity: self.severity@,
            node_id: self.node_id@,
            message: self.message@,
        }
    }
}

/// The views of review items.
pub open spec fn review_views(s: Seq<ReviewItem>) -> Seq<ReviewItemView> {
    s.map_values(|r: ReviewItem| r@)
}

pub struct UnsupportedView {
    pub kind: Seq<char>,
    pub reason: Seq<char>,
}

/// The views of unsupported-feature notes.
pub open spec fn unsupported_views(s: Seq<ManifestUnsupported>) -> Seq<UnsupportedView> {
    s.map_values(|u: ManifestUnsupported| UnsupportedView { kind: u.kind@, reason: u.reason@ })
}

pub struct PlanMetadataView {
    pub layer_name: Seq<char>,
    pub layer_type: Seq<char>,
    pub blend_mode: Seq<char>,
    pub opacity: u32,
    pub asset_path: Option<Seq<char>>,
    pub mask_path: Option<Seq<char>>,
    pub clip_to: Option<Seq<char>>,
    pub effects_json: Seq<char>,
    pub unsupported: Seq<UnsupportedView>,
    pub visible: bool,
    pub stack_index: i32,
    pub component_hint: Seq<char>,
    pub bounds_source: Seq<char>,
    pub mask_mode: Option<Seq<char>>,
    pub resolved_bounds: ManifestBounds,
}

impl View for PlanMetadata {
    type V = PlanMetadataView;

    open spec fn view(&self) -> PlanMetadataView {
        PlanMetadataView {
            layer_name: self.layer_name@,
            layer_type: self.layer_type@,
            blend_mode: self.blend_mode@,
            opacity: self.opacity,
            asset_path: ostr(self.asset_path),
            mask_path: ostr(self.mask_path),
            clip_to: ostr(self.clip_to),
            effects_json: self.effects_json@,
            unsupported: unsupported_views(self.unsupported@),
            visible: self.visible,
            stack_index: self.stack_index,
            component_hint: self.component_hint@,
            bounds_source: self.bounds_source@,
            mask_mode: ostr(self.mask_mode),
            resolved_bounds: self.resolved_bounds,
        }
    }
}

pub open spec fn otext(t: Option<RecoveredText>) -> Option<RecoveredTextView> {
    match t {
        Some(t) => Some(t@),
        None => None,
    }
}

pub open spec fn ointer(i: Option<InteractionSpec>) -> Option<InteractionSpecView> {
    match i {
        Some(i) => Some(i@),
        None => None,
    }
}

pub struct PlanNodeView {
    pub node_id: Seq<char>,
    pub name: Seq<char>,
    pub source_layer_ids: Seq<Seq<char>>,
    pub component_type: Seq<char>,
    pub rect: PlanRect,
    pub render_order: i32,
    pub children: Seq<PlanNodeView>,
    pub confidence: u32,
    pub needs_review: bool,
    pub metadata: PlanMetadataView,
    pub text: Option<RecoveredTextView>,
    pub interaction: Option<InteractionSpecView>,
}

/// The view of a plan node and, through `plan_views`, of its descendants.
pub open spec fn plan_view(n: PlanNode) -> PlanNodeView
    decreases n, 1nat,
{
    PlanNodeView {
        node_id: n.node_id@,
        name: n.name@,
        source_layer_ids: n.source_layer_ids@.map_values(|s: String| s@),
        component_type: n.component_type@,
        rect: n.rect,
        render_order: n.render_order,
        children: plan_views(n.children@),
        confidence: n.confidence,
        needs_review: n.needs_review,
        metadata: n.metadata@,
        text: otext(n.text),
        interaction: ointer(n.interaction),
    }
}

/// The views of a sequence of plan nodes.
pub open spec fn plan_views(s: Seq<PlanNode>) -> Seq<PlanNodeView>
    decreases s, 0nat,
{
    if s.len() == 0 {
        seq![]
    } else {
        plan_views(s.drop_last()).push(plan_view(s.last()))
    }
}

/// `plan_views` maps each node to its view.
pub proof fn lemma_plan_views(s: Seq<PlanNode>)
    ensures
        plan_views(s).len() == s.len(),
        forall|i: int| 0 <= i < s.len() ==> #[trigger] plan_views(s)[i] == plan_view(s[i]),
    decreases s.len(),
{
    if s.len() > 0 {
        lemma_plan_views(s.drop_last());
    }
}

} // verus!
