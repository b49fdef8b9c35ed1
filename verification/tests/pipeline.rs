use psd2ugui::errors::AppError;
use psd2ugui::manifest::{
    Manifest, ManifestBounds, ManifestDocument, ManifestEffects, ManifestLayer, ManifestPreview, ManifestSource,
    ManifestWarning,
};
use psd2ugui::pipeline::{
    pipeline_bundle_name, plan_out_dir, run_pipeline, sanitize_bundle_segment, BundleNaming, CliError,
};
use psd2ugui::report::build_plan;
use psd2ugui::validation::{resolve_plan_path, validate_plan, OrchestratorError, PlanIssue};

fn manifest(layers: Vec<ManifestLayer>) -> Manifest {
    Manifest {
        schema_version: "2.0.0".to_string(),
        source: ManifestSource {
            input_path: "./psd/sample.psd".to_string(),
            input_file: "sample.psd".to_string(),
            file_size: 1,
            file_sha1: "abc".to_string(),
        },
        document: ManifestDocument {
            width: 400,
            height: 300,
            color_mode: "rgb".to_string(),
            depth: 8,
            channel_count: 3,
            preview: ManifestPreview { path: "preview/document.png".to_string(), width: 400, height: 300 },
        },
        warnings: vec![ManifestWarning {
            code: "w1".to_string(),
            message: "first".to_string(),
        }],
        layers,
    }
}

fn leaf(id: &str, layer_type: &str) -> ManifestLayer {
    ManifestLayer {
        id: id.to_string(),
        name: id.to_string(),
        layer_type: layer_type.to_string(),
        visible: true,
        opacity: 0x3F80_0000,
        blend_mode: "norm".to_string(),
        bounds: ManifestBounds { x: 0, y: 0, width: 10, height: 10 },
        stack_index: 0,
        children: Vec::new(),
        asset: None,
        mask: None,
        clip_to: None,
        text: None,
        effects: ManifestEffects { is_object: true, entries: Vec::new(), baked: Vec::new(), json: "{}".to_string() },
        unsupported: Vec::new(),
    }
}

#[test]
fn bundle_segments_keep_lowercase_ascii_words() {
    assert_eq!(sanitize_bundle_segment("My Screen  v2"), "my_screen_v2");
    assert_eq!(sanitize_bundle_segment("--a--b__c--"), "a-b_c");
    assert_eq!(sanitize_bundle_segment("Ünï"), "n");
    assert_eq!(sanitize_bundle_segment("中文"), "document");
    assert_eq!(sanitize_bundle_segment(" _ "), "document");
    assert_eq!(sanitize_bundle_segment("a\tb"), "a_b");
}

#[test]
fn bundle_segments_use_only_safe_characters() {
    for input in ["Hello World!", "x/y\\z", "  --Title__  ", "A.B.C", "ⅫⅫ"] {
        let s = sanitize_bundle_segment(input);
        assert!(!s.is_empty());
        assert!(s.chars().all(|c| c.is_ascii_lowercase() || c.is_ascii_digit() || c == '-' || c == '_'));
        assert!(!s.starts_with('-') && !s.starts_with('_'));
        assert!(!s.ends_with('-') && !s.ends_with('_'));
        assert!(!s.contains("--") && !s.contains("__"));
    }
}

#[test]
fn bundle_names_end_with_the_timestamp() {
    assert_eq!(pipeline_bundle_name(Some("Main Menu"), BundleNaming::Timestamped, 1700000000123), "main_menu-1700000000123");
    assert_eq!(pipeline_bundle_name(None, BundleNaming::Timestamped, 0), "document-0");
}

#[test]
fn plan_directory_defaults_inside_the_bundle() {
    assert_eq!(plan_out_dir("cache/b1", None), "cache/b1/plan");
    assert_eq!(plan_out_dir("cache/b1", Some("elsewhere")), "elsewhere");
    assert_eq!(resolve_plan_path("out", true), "out/ui_plan.json");
    assert_eq!(resolve_plan_path("out/plan.json", false), "out/plan.json");
}

#[test]
fn exit_codes_follow_the_export_error() {
    assert_eq!(CliError::Export(AppError::Cli("x".to_string())).exit_code(), 2);
    assert_eq!(CliError::Export(AppError::UnsupportedPsd("x".to_string())).exit_code(), 3);
    assert_eq!(CliError::Export(AppError::PsdParse("x".to_string())).exit_code(), 4);
    assert_eq!(CliError::Export(AppError::Manifest("x".to_string())).exit_code(), 6);
    assert_eq!(CliError::Export(AppError::Photoshop("x".to_string())).exit_code(), 7);
    assert_eq!(CliError::Export(AppError::Json("x".to_string())).exit_code(), 1);
    assert_eq!(CliError::Io { path: "p".to_string(), message: "m".to_string() }.exit_code(), 1);
    assert_eq!(
        CliError::Orchestrator(OrchestratorError::MissingBundle("b".to_string())).exit_code(),
        1
    );
}

#[test]
fn error_messages_name_the_error() {
    assert_eq!(AppError::Photoshop("boom".to_string()).message(), "photoshop raster export failed: boom");
    assert_eq!(AppError::io("a.psd".to_string(), "denied".to_string()).message(), "failed to read or write a.psd: denied");
    assert_eq!(AppError::Cli("bad".to_string()).message(), "invalid CLI usage: bad");
}

#[test]
fn pipeline_result_reports_forward_slash_paths() {
    let m = manifest(vec![leaf("a", "pixel")]);
    let (plan, _) = build_plan(&m, "cache\\b", "cache\\b\\manifest", Some("b"), 0).unwrap();
    let r = run_pipeline("cache\\b", "cache\\b\\plan\\ui_plan.json", "cache\\b\\plan\\report.json", &plan);
    assert_eq!(r.bundle_dir, "cache/b");
    assert_eq!(r.plan_path, "cache/b/plan/ui_plan.json");
    assert_eq!(r.validation_report_path, "cache/b/plan/report.json");
    assert_eq!(r.document_id, plan.source_bundle.document_id);
    assert_eq!(r.warnings.len(), 1);
    assert_eq!(r.warnings[0].code, "w1");
    assert_eq!(r.warnings[0].message, "first");
}

#[test]
fn built_plans_validate() {
    let m = manifest(vec![leaf("a", "pixel"), leaf("b", "shape")]);
    let (plan, report) = build_plan(&m, "demo", "demo/layers.json", Some("demo"), 0).unwrap();
    assert!(validate_plan(&plan).is_ok());
    assert_eq!(report.coverage.visible_layers, 2);
    assert_eq!(report.coverage.mapped_layers, 2);
    assert!(report.coverage.unmapped_layer_ids.is_empty());
}

#[test]
fn duplicate_and_empty_ids_are_issues() {
    let m = manifest(vec![leaf("a", "pixel"), leaf("b", "pixel")]);
    let (mut plan, _) = build_plan(&m, "demo", "demo/layers.json", Some("demo"), 0).unwrap();
    plan.nodes[1].node_id = plan.nodes[0].node_id.clone();
    plan.plan_version = " ".to_string();
    match validate_plan(&plan) {
        Err(OrchestratorError::PlanValidation(issues)) => {
            let lines: Vec<String> = issues.iter().map(|i| i.message("")).collect();
            assert_eq!(lines[0], "plan_version must not be empty");
            assert!(lines.iter().any(|l| l == &format!("duplicate node_id detected: {}", plan.nodes[0].node_id)));
        }
        _ => panic!("expected validation issues"),
    }
}

#[test]
fn issue_messages_read_naturally() {
    assert_eq!(PlanIssue::EmptyNodeId.message(""), "node_id must not be empty");
    assert_eq!(PlanIssue::MissingSourceLayerIds("n".to_string()).message(""), "node n is missing source_layer_ids");
    assert_eq!(
        PlanIssue::InvalidConfidence { node_id: "n".to_string(), confidence: 0x4000_0000 }.message("2"),
        "node n has invalid confidence 2"
    );
    assert_eq!(
        PlanIssue::UnsupportedComponent { node_id: "n".to_string(), component: "Slider".to_string() }.message(""),
        "node n has unsupported component_type Slider"
    );
    assert_eq!(PlanIssue::MissingTextPayload("t".to_string()).message(""), "text node t is missing text payload");
}

#[test]
fn orchestration_errors_read_naturally() {
    let none: Vec<String> = Vec::new();
    assert_eq!(OrchestratorError::MissingBundle("b".to_string()).message(&none), "bundle directory not found: b");
    assert_eq!(
        OrchestratorError::ReadFile { path: "p".to_string(), message: "gone".to_string() }.message(&none),
        "failed to read p: gone"
    );
    let issues = OrchestratorError::PlanValidation(vec![
        PlanIssue::EmptyPlanVersion,
        PlanIssue::InvalidConfidence { node_id: "n".to_string(), confidence: 0x4000_0000 },
    ]);
    assert_eq!(
        issues.message(&vec![String::new(), "2".to_string()]),
        "plan validation failed:\nplan_version must not be empty\nnode n has invalid confidence 2"
    );
    let io = CliError::Io { path: "cache".to_string(), message: "denied".to_string() };
    assert_eq!(io.message(&none), "failed to prepare pipeline output under cache: denied");
    let export = CliError::Export(AppError::Manifest("no preview".to_string()));
    assert_eq!(export.message(&none), "manifest generation failed: no preview");
}
