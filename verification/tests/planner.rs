use psd2ugui::manifest::{
    EffectEntry, Manifest, ManifestBounds, ManifestCharacterRun, ManifestColor, ManifestDocument,
    ManifestEffects, ManifestLayer, ManifestParagraphRun, ManifestPreview, ManifestSource, ManifestText,
};
use psd2ugui::models::{
    COMPONENT_BUTTON, COMPONENT_CONTAINER, COMPONENT_IMAGE_PLACEHOLDER, COMPONENT_TMP_TEXT,
};
use psd2ugui::planner::{recover_text, resolve_bounds, sanitize_identifier};
use psd2ugui::report::build_plan;

const ONE: u32 = 0x3F80_0000;
const TWENTY: u32 = 0x41A0_0000;

fn sample_bounds(x: i32, y: i32, width: i32, height: i32) -> ManifestBounds {
    ManifestBounds { x, y, width, height }
}

fn empty_effects() -> ManifestEffects {
    ManifestEffects { is_object: true, entries: Vec::new(), baked: Vec::new(), json: "{}".to_string() }
}

fn sample_manifest(layers: Vec<ManifestLayer>) -> Manifest {
    Manifest {
        schema_version: "2.0.0".to_string(),
        source: ManifestSource {
            input_path: "./psd/sample.psd".to_string(),
            input_file: "sample.psd".to_string(),
            file_size: 1,
            file_sha1: "abc".to_string(),
        },
        document: ManifestDocument {
            width: 400,
            height: 300,
            color_mode: "rgb".to_string(),
            depth: 8,
            channel_count: 3,
            preview: ManifestPreview { path: "preview/document.png".to_string(), width: 400, height: 300 },
        },
        warnings: Vec::new(),
        layers,
    }
}

fn leaf(id: &str, name: &str, layer_type: &str, bounds: ManifestBounds) -> ManifestLayer {
    ManifestLayer {
        id: id.to_string(),
        name: name.to_string(),
        layer_type: layer_type.to_string(),
        visible: true,
        opacity: ONE,
        blend_mode: "norm".to_string(),
        bounds,
        stack_index: 0,
        children: Vec::new(),
        asset: None,
        mask: None,
        clip_to: None,
        text: None,
        effects: empty_effects(),
        unsupported: Vec::new(),
    }
}

fn white() -> ManifestColor {
    ManifestColor { r: 255, g: 255, b: 255, a: 255 }
}

fn text_leaf(id: &str, name: &str, content: Option<&str>) -> ManifestLayer {
    let run_length = content.map(|value| value.chars().count()).unwrap_or(5);
    let mut layer = leaf(id, name, "text", sample_bounds(0, 0, 120, 24));
    layer.text = Some(ManifestText {
        content: content.map(str::to_string),
        character_runs: vec![ManifestCharacterRun {
            start: 0,
            length: run_length,
            font_family: Some("MiSans".to_string()),
            font_style: Some("Regular".to_string()),
            font_size: Some(TWENTY),
            color: Some(white()),
        }],
        paragraph_runs: vec![ManifestParagraphRun {
            start: 0,
            length: run_length,
            alignment: Some("center".to_string()),
        }],
        font_family: Some("MiSans".to_string()),
        font_size: Some(TWENTY),
        color: Some(white()),
        alignment: Some("center".to_string()),
    });
    layer
}

fn group(id: &str, name: &str, bounds: ManifestBounds, children: Vec<ManifestLayer>) -> ManifestLayer {
    let mut layer = leaf(id, name, "group", bounds);
    layer.children = children;
    layer
}

#[test]
fn resolves_zero_sized_group_bounds_from_children() {
    let group = group(
        "group",
        "Root",
        sample_bounds(0, 0, 0, 0),
        vec![
            leaf("a", "Label", "pixel", sample_bounds(10, 20, 50, 10)),
            leaf("b", "Badge", "pixel", sample_bounds(80, 30, 20, 20)),
        ],
    );

    let resolved = resolve_bounds(&group);
    assert_eq!(resolved.x, 10);
    assert_eq!(resolved.y, 20);
    assert_eq!(resolved.width, 90);
    assert_eq!(resolved.height, 30);
}

#[test]
fn detects_button_groups_from_name() {
    let button_group = group(
        "button",
        "Claim Button",
        sample_bounds(10, 20, 120, 40),
        vec![
            leaf("bg", "Button Bg", "shape", sample_bounds(10, 20, 120, 40)),
            leaf("label", "Claim", "pixel", sample_bounds(40, 28, 50, 18)),
        ],
    );
    let root = group("screen", "Screen", sample_bounds(0, 0, 200, 120), vec![button_group]);

    let manifest = sample_manifest(vec![root]);
    let (plan, _) = build_plan(&manifest, "demo", "demo/layers.json", Some("demo"), 0).unwrap();
    assert_eq!(plan.nodes[0].component_type, COMPONENT_CONTAINER);
    assert_eq!(plan.nodes[0].children[0].component_type, COMPONENT_BUTTON);
}

#[test]
fn manifest_text_requires_character_runs() {
    let mut no_runs = text_leaf("text", "Rewards", Some("Rewards"));
    no_runs.text.as_mut().unwrap().character_runs.clear();
    assert!(recover_text(&no_runs).is_none());

    let candidate =
        recover_text(&text_leaf("text", "Rewards", Some("Rewards"))).expect("text should be recovered from manifest payload");

    assert_eq!(candidate.text.content, "Rewards");
    assert_eq!(candidate.text.source, "manifest_text");
    assert_eq!(candidate.text.character_runs.len(), 1);
    assert_eq!(candidate.text.paragraph_runs.len(), 1);
}

#[test]
fn recover_text_falls_back_to_first_character_run_color() {
    let mut layer = text_leaf("text", "Rewards", Some("Rewards"));
    let text = layer.text.as_mut().expect("text payload should exist");
    text.color = None;
    text.character_runs[0].color = Some(ManifestColor { r: 181, g: 187, b: 235, a: 255 });

    let candidate = recover_text(&layer).expect("text should be recovered from manifest payload");

    assert_eq!(candidate.text.color.as_deref(), Some("#B5BBEBFF"));
}

#[test]
fn recover_text_prefers_top_level_manifest_color() {
    let mut layer = text_leaf("text", "Rewards", Some("Rewards"));
    let text = layer.text.as_mut().expect("text payload should exist");
    text.color = Some(ManifestColor { r: 181, g: 187, b: 235, a: 255 });
    text.character_runs[0].color = Some(ManifestColor { r: 255, g: 0, b: 0, a: 255 });

    let candidate = recover_text(&layer).expect("text should be recovered from manifest payload");

    assert_eq!(candidate.text.color.as_deref(), Some("#B5BBEBFF"));
}

#[test]
fn build_plan_classifies_manifest_text_with_character_runs() {
    let root = group("group", "Screen", sample_bounds(0, 0, 200, 100), vec![text_leaf("title", "Title", Some("Title"))]);

    let manifest = sample_manifest(vec![root]);
    let (plan, _) = build_plan(&manifest, "demo", "demo/layers.json", Some("demo"), 0).unwrap();
    assert_eq!(plan.nodes[0].children[0].component_type, COMPONENT_TMP_TEXT);
    assert_eq!(plan.nodes[0].children[0].text.as_ref().unwrap().character_runs.len(), 1);
}

#[test]
fn build_plan_does_not_infer_text_from_layer_name() {
    let root = group(
        "group",
        "Screen",
        sample_bounds(0, 0, 200, 100),
        vec![leaf("title", "Title", "pixel", sample_bounds(20, 20, 80, 18))],
    );

    let manifest = sample_manifest(vec![root]);
    let (plan, _) = build_plan(&manifest, "demo", "demo/layers.json", Some("demo"), 0).unwrap();
    assert_eq!(plan.nodes[0].children[0].component_type, COMPONENT_IMAGE_PLACEHOLDER);
}

#[test]
fn validation_report_marks_unity_as_pending() {
    let root = group(
        "group",
        "Screen",
        sample_bounds(0, 0, 200, 100),
        vec![leaf("title", "Title", "pixel", sample_bounds(20, 20, 80, 18))],
    );

    let manifest = sample_manifest(vec![root]);
    let (_, report) = build_plan(&manifest, "demo", "demo/layers.json", Some("demo"), 0).unwrap();
    assert_eq!(report.unity_apply_status, "pending_unity_apply");
}

fn effects(entries: &[(&str, bool)], baked: &[&str], json: &str) -> ManifestEffects {
    ManifestEffects {
        is_object: true,
        entries: entries.iter().map(|(key, present)| EffectEntry { key: key.to_string(), present: *present }).collect(),
        baked: baked.iter().map(|b| b.to_string()).collect(),
        json: json.to_string(),
    }
}

#[test]
fn does_not_flag_fully_baked_effects_for_review() {
    let mut layer = leaf("badge", "Badge", "pixel", sample_bounds(10, 10, 24, 24));
    layer.effects = effects(
        &[("stroke", true), ("drop_shadow", true), ("baked", true)],
        &["stroke", "drop_shadow"],
        r#"{"stroke":{"size":2.0},"drop_shadow":{"distance":4.0},"baked":["stroke","drop_shadow"]}"#,
    );
    let root = group("screen", "Screen", sample_bounds(0, 0, 200, 100), vec![layer]);

    let manifest = sample_manifest(vec![root]);
    let (plan, _) = build_plan(&manifest, "demo", "demo/layers.json", Some("demo"), 0).unwrap();

    assert!(!plan.review_items.iter().any(|item| item.kind == "effects_preserved"));
}

#[test]
fn flags_unbaked_effects_for_review() {
    let mut layer = leaf("badge", "Badge", "pixel", sample_bounds(10, 10, 24, 24));
    layer.effects = effects(
        &[("stroke", true), ("baked", true)],
        &["drop_shadow"],
        r#"{"stroke":{"size":2.0},"baked":["drop_shadow"]}"#,
    );
    let root = group("screen", "Screen", sample_bounds(0, 0, 200, 100), vec![layer]);

    let manifest = sample_manifest(vec![root]);
    let (plan, _) = build_plan(&manifest, "demo", "demo/layers.json", Some("demo"), 0).unwrap();

    assert!(plan.review_items.iter().any(|item| item.kind == "effects_preserved"));
}

#[test]
fn identifiers_are_stable() {
    assert_eq!(sanitize_identifier("Demo Bundle-1"), "demo_bundle-1");
    assert_eq!(sanitize_identifier("!!!"), "document");
    for input in ["Demo Bundle-1", "!!!", "", "A_b-C 9", "\u{6eda}x"] {
        let once = sanitize_identifier(input);
        assert!(!once.is_empty());
        assert_eq!(sanitize_identifier(&once), once);
    }
}
