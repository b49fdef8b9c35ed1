use psd2ugui::errors::AppError;
use psd2ugui::export::{assign_ids_and_stack_indices, build_layer_tree};
use psd2ugui::asset_stems::{assign_asset_file_stems, StemCount};
use psd2ugui::export_model::ExportWarning;
use psd2ugui::hierarchy::BuildNode;
use psd2ugui::photoshop::{PhotoshopExportResponse, PhotoshopLayerExportRequest, PhotoshopLayerExportResult};
use psd2ugui::psd::{Bounds, FlatLayer, LayerType};
use psd2ugui::raster::{
    apply_photoshop_response, collect_photoshop_layer_requests, preview_override_from_response,
    should_export_image, should_request_photoshop_raster, staged_asset_path,
};

fn layer(raw_index: usize, name: &str, layer_type: LayerType, w: u32, h: u32, visible: bool) -> FlatLayer {
    FlatLayer {
        raw_index,
        name: name.to_string(),
        layer_type,
        visible,
        opacity: 255,
        blend_mode: "norm".to_string(),
        bounds: Bounds { x: 1, y: 2, width: w, height: h },
        group_opener: false,
        group_closer: false,
        is_clipped: false,
    }
}

fn prepared(layers: Vec<FlatLayer>) -> Vec<BuildNode> {
    let mut warnings: Vec<ExportWarning> = Vec::new();
    let mut nodes = build_layer_tree(layers, &mut warnings);
    let mut path: Vec<usize> = Vec::new();
    assign_ids_and_stack_indices(&mut nodes, &mut path);
    let mut used: Vec<StemCount> = Vec::new();
    assign_asset_file_stems(&mut nodes, &mut used);
    nodes
}

fn result_for(req: &PhotoshopLayerExportRequest) -> PhotoshopLayerExportResult {
    PhotoshopLayerExportResult {
        id: req.id.clone(),
        exported: true,
        bounds: Some(Bounds { x: 3, y: 4, width: 10, height: 12 }),
        width: Some(10),
        height: Some(12),
        warnings: vec!["clipped".to_string()],
    }
}

fn response(layers: Vec<PhotoshopLayerExportResult>) -> PhotoshopExportResponse {
    PhotoshopExportResponse {
        preview_path: Some("preview/document.png".to_string()),
        preview_width: Some(200),
        preview_height: Some(100),
        warnings: vec!["slow".to_string()],
        layers,
    }
}

#[test]
fn requests_cover_visible_pixel_and_shape_layers() {
    let nodes = prepared(vec![
        layer(0, "Hidden", LayerType::Pixel, 4, 4, false),
        layer(1, "Text", LayerType::Text, 4, 4, true),
        layer(2, "Empty", LayerType::Shape, 0, 4, true),
        layer(3, "Shape", LayerType::Shape, 4, 4, true),
        layer(4, "Pixel", LayerType::Pixel, 4, 4, true),
    ]);
    let mut requests: Vec<PhotoshopLayerExportRequest> = Vec::new();
    collect_photoshop_layer_requests(&nodes, false, &mut requests);
    let names: Vec<String> = requests.iter().map(|r| r.name.clone()).collect();
    assert_eq!(names, vec!["Pixel".to_string(), "Shape".to_string()]);
    assert_eq!(requests[0].output_png_relpath, "images/Pixel.png");
    assert_eq!(requests[0].id, nodes[0].id);
    assert_eq!(requests[0].path_indices, vec![0]);
    assert_eq!(requests[0].raw_index, 4);
    assert!(requests[0].expected_visible);

    let mut with_hidden: Vec<PhotoshopLayerExportRequest> = Vec::new();
    collect_photoshop_layer_requests(&nodes, true, &mut with_hidden);
    assert_eq!(with_hidden.len(), 3);
    assert_eq!(with_hidden[2].name, "Hidden");
    assert!(!with_hidden[2].expected_visible);
    assert!(should_request_photoshop_raster(&nodes[4], true));
    assert!(!should_request_photoshop_raster(&nodes[4], false));
}

#[test]
fn staged_paths_use_backslashes_under_staging() {
    assert_eq!(staged_asset_path("C:/stage", "images/a.png"), "C:/stage/images\\a.png");
    assert_eq!(staged_asset_path("stage/", "x/y/z.png"), "stage/x\\y\\z.png");
}

#[test]
fn applying_results_attaches_staged_assets() {
    let mut nodes = prepared(vec![layer(0, "Pixel", LayerType::Pixel, 4, 4, true)]);
    let mut requests: Vec<PhotoshopLayerExportRequest> = Vec::new();
    collect_photoshop_layer_requests(&nodes, false, &mut requests);
    let resp = response(vec![result_for(&requests[0])]);
    let mut warnings: Vec<ExportWarning> = Vec::new();
    let preview = apply_photoshop_response(&mut nodes, &requests, &resp, "stage", &vec![true], true, &mut warnings)
        .ok()
        .expect("apply should succeed")
        .expect("preview should be present");
    assert_eq!(preview.staged_path, "stage/preview\\document.png");
    assert_eq!(preview.asset.path, "preview/document.png");
    assert_eq!(preview.asset.width, 200);
    assert_eq!(preview.asset.height, 100);
    assert_eq!(nodes[0].bounds, Bounds { x: 3, y: 4, width: 10, height: 12 });
    let asset = nodes[0].external_asset.as_ref().expect("asset attached");
    assert_eq!(asset.staged_path, "stage/images\\Pixel.png");
    assert_eq!(asset.relative_path, "images/Pixel.png");
    assert_eq!((asset.width, asset.height), (10, 12));
    assert_eq!(nodes[0].baked, vec!["photoshop_raster".to_string()]);
    assert_eq!(warnings.len(), 2);
    assert_eq!(warnings[0].code, "photoshop-export-warning");
    assert_eq!(warnings[0].message, "Photoshop export warning: slow");
    assert_eq!(warnings[1].code, "photoshop-layer-warning");
    assert_eq!(warnings[1].message, "Photoshop layer export warning: clipped");
    assert_eq!(warnings[1].layer_name, Some("Pixel".to_string()));
    assert!(should_export_image(&nodes[0], false));
}

fn apply_error(resp: &PhotoshopExportResponse, requests: &Vec<PhotoshopLayerExportRequest>, exists: bool) -> String {
    let mut nodes = prepared(vec![layer(0, "Pixel", LayerType::Pixel, 4, 4, true)]);
    let mut warnings: Vec<ExportWarning> = Vec::new();
    match apply_photoshop_response(&mut nodes, requests, resp, "stage", &vec![exists], true, &mut warnings) {
        Err(AppError::Photoshop(m)) => m,
        _ => panic!("expected a Photoshop error"),
    }
}

#[test]
fn missing_or_incomplete_results_fail() {
    let nodes = prepared(vec![layer(0, "Pixel", LayerType::Pixel, 4, 4, true)]);
    let mut requests: Vec<PhotoshopLayerExportRequest> = Vec::new();
    collect_photoshop_layer_requests(&nodes, false, &mut requests);

    let none = response(vec![]);
    assert_eq!(
        apply_error(&none, &requests, true),
        "failed to rasterize layer 'Pixel' via Photoshop: Photoshop response did not include this layer"
    );

    let mut not_exported = result_for(&requests[0]);
    not_exported.exported = false;
    assert_eq!(
        apply_error(&response(vec![not_exported]), &requests, true),
        "failed to rasterize layer 'Pixel' via Photoshop: Photoshop did not export a PNG for this layer"
    );

    let mut no_bounds = result_for(&requests[0]);
    no_bounds.bounds = None;
    assert_eq!(
        apply_error(&response(vec![no_bounds]), &requests, true),
        "failed to rasterize layer 'Pixel' via Photoshop: Photoshop export did not return layer bounds"
    );

    let mut no_width = result_for(&requests[0]);
    no_width.width = None;
    assert_eq!(
        apply_error(&response(vec![no_width]), &requests, true),
        "failed to rasterize layer 'Pixel' via Photoshop: Photoshop export did not return layer width"
    );

    let mut no_height = result_for(&requests[0]);
    no_height.height = None;
    assert_eq!(
        apply_error(&response(vec![no_height]), &requests, true),
        "failed to rasterize layer 'Pixel' via Photoshop: Photoshop export did not return layer height"
    );

    assert_eq!(
        apply_error(&response(vec![result_for(&requests[0])]), &requests, false),
        "failed to rasterize layer 'Pixel' via Photoshop: staged PNG is missing: stage/images\\Pixel.png"
    );
}

#[test]
fn preview_problems_become_warnings() {
    let mut warnings: Vec<ExportWarning> = Vec::new();
    let mut resp = response(vec![]);
    resp.preview_path = None;
    assert!(preview_override_from_response(&resp, "stage/preview\\document.png", true, &mut warnings).is_none());
    assert_eq!(warnings[0].code, "photoshop-preview-missing");
    assert_eq!(warnings[0].message, "Photoshop export did not return a preview path");

    let mut resp = response(vec![]);
    resp.preview_height = None;
    assert!(preview_override_from_response(&resp, "stage/preview\\document.png", true, &mut warnings).is_none());
    assert_eq!(warnings[1].message, "Photoshop export did not return preview dimensions");

    let resp = response(vec![]);
    assert!(preview_override_from_response(&resp, "stage/preview\\document.png", false, &mut warnings).is_none());
    assert_eq!(
        warnings[2].message,
        "Photoshop preview export is missing from staging: stage/preview\\document.png"
    );
    assert_eq!(warnings.len(), 3);
}

#[test]
fn a_failing_layer_keeps_what_was_applied_before_it() {
    let mut nodes = prepared(vec![
        layer(0, "Second", LayerType::Pixel, 4, 4, true),
        layer(1, "First", LayerType::Pixel, 4, 4, true),
    ]);
    let mut requests: Vec<PhotoshopLayerExportRequest> = Vec::new();
    collect_photoshop_layer_requests(&nodes, false, &mut requests);
    assert_eq!(requests.len(), 2);
    let mut failing = result_for(&requests[1]);
    failing.exported = false;
    let resp = response(vec![result_for(&requests[0]), failing]);
    let b = &nodes[1].bounds;
    let before_bounds = Bounds { x: b.x, y: b.y, width: b.width, height: b.height };
    let mut warnings: Vec<ExportWarning> = Vec::new();
    let r = apply_photoshop_response(&mut nodes, &requests, &resp, "stage", &vec![true, true], true, &mut warnings);
    assert!(matches!(r, Err(AppError::Photoshop(_))));
    assert!(nodes[0].external_asset.is_some());
    assert_eq!(nodes[1].bounds, before_bounds);
    assert!(nodes[1].external_asset.is_none());
    assert_eq!(warnings.len(), 3);
    assert_eq!(warnings[2].layer_name, Some(nodes[1].name.clone()));
}

#[test]
fn staged_paths_join_the_staging_directory() {
    let p = staged_asset_path("stage", "images/a.png");
    assert!(p == "stage/images\\a.png" || p == "stage\\images\\a.png");
}
