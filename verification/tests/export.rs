use psd2ugui::asset_stems::{
    assign_asset_file_stems, is_windows_reserved_name, next_asset_file_stem, sanitize_file_stem, StemCount,
};
use psd2ugui::export::{
    assign_clip_targets, assign_ids_and_stack_indices, build_layer_tree, generate_node_id, sha1_hex,
};
use psd2ugui::export_model::ExportWarning;
use psd2ugui::hierarchy::{reconstruct_bottom_up, BuildNode};
use psd2ugui::psd::{Bounds, FlatLayer, LayerType};

fn layer(raw_index: usize, name: &str, layer_type: LayerType, w: u32, h: u32) -> FlatLayer {
    FlatLayer {
        raw_index,
        name: name.to_string(),
        layer_type,
        visible: true,
        opacity: 255,
        blend_mode: "norm".to_string(),
        bounds: Bounds { x: 0, y: 0, width: w, height: h },
        group_opener: false,
        group_closer: false,
        is_clipped: false,
    }
}

fn closer(raw_index: usize) -> FlatLayer {
    let mut l = layer(raw_index, "</Layer group>", LayerType::Group, 0, 0);
    l.group_closer = true;
    l
}

fn opener(raw_index: usize, name: &str) -> FlatLayer {
    let mut l = layer(raw_index, name, LayerType::Group, 0, 0);
    l.group_opener = true;
    l
}

fn names(nodes: &[BuildNode]) -> Vec<String> {
    nodes.iter().map(|n| n.name.clone()).collect()
}

#[test]
fn rebuilds_group_with_children_top_most_first() {
    let layers = vec![closer(0), layer(1, "A", LayerType::Pixel, 4, 4), layer(2, "B", LayerType::Pixel, 4, 4), opener(3, "G")];
    let mut warnings: Vec<ExportWarning> = Vec::new();
    let nodes = build_layer_tree(layers, &mut warnings);
    assert_eq!(names(&nodes), vec!["G".to_string()]);
    assert_eq!(names(&nodes[0].children), vec!["B".to_string(), "A".to_string()]);
    assert!(warnings.is_empty());
}

#[test]
fn root_layers_come_out_top_most_first() {
    let layers = vec![layer(0, "Bottom", LayerType::Pixel, 1, 1), layer(1, "Top", LayerType::Pixel, 1, 1)];
    let result = reconstruct_bottom_up(layers);
    assert_eq!(names(&result.nodes), vec!["Top".to_string(), "Bottom".to_string()]);
    assert_eq!(result.synthetic_opener_count, 0);
    assert_eq!(result.orphan_opener_count, 0);
    assert_eq!(result.orphan_closer_count, 0);
}

#[test]
fn unflagged_sentinel_counts_as_closer() {
    let layers = vec![
        layer(0, "</Layer group>", LayerType::Pixel, 0, 0),
        layer(1, "A", LayerType::Pixel, 2, 2),
        opener(2, "G"),
    ];
    let mut warnings: Vec<ExportWarning> = Vec::new();
    let nodes = build_layer_tree(layers, &mut warnings);
    assert_eq!(names(&nodes), vec!["G".to_string()]);
    assert_eq!(names(&nodes[0].children), vec!["A".to_string()]);
    assert_eq!(warnings.len(), 1);
    assert_eq!(warnings[0].code, "synthetic-group-closer");
    assert_eq!(
        warnings[0].message,
        "recovered 1 unflagged '</Layer group>' sentinel layer(s) while rebuilding groups"
    );
    assert!(warnings[0].layer_name.is_none());
}

#[test]
fn closer_without_opener_promotes_children() {
    let layers = vec![closer(0), layer(1, "A", LayerType::Pixel, 2, 2), layer(2, "B", LayerType::Pixel, 2, 2)];
    let mut warnings: Vec<ExportWarning> = Vec::new();
    let nodes = build_layer_tree(layers, &mut warnings);
    assert_eq!(names(&nodes), vec!["B".to_string(), "A".to_string()]);
    assert_eq!(warnings.len(), 1);
    assert_eq!(warnings[0].code, "orphan-group-closer");
    assert_eq!(
        warnings[0].message,
        "recovered 1 group closer layer(s) that had no matching opener; their children were promoted to the parent level"
    );
}

#[test]
fn opener_without_closer_becomes_childless_group() {
    let layers = vec![layer(0, "A", LayerType::Pixel, 2, 2), opener(1, "G")];
    let mut warnings: Vec<ExportWarning> = Vec::new();
    let nodes = build_layer_tree(layers, &mut warnings);
    assert_eq!(names(&nodes), vec!["G".to_string(), "A".to_string()]);
    assert!(nodes[0].children.is_empty());
    assert_eq!(warnings.len(), 1);
    assert_eq!(warnings[0].code, "orphan-group-opener");
    assert_eq!(
        warnings[0].message,
        "recovered 1 group opener layer(s) that had no matching closer; treated as childless group(s)"
    );
}

#[test]
fn zero_bounds_layer_above_a_closer_becomes_a_group() {
    let layers = vec![closer(0), layer(1, "A", LayerType::Pixel, 2, 2), layer(2, "Folder", LayerType::Pixel, 0, 0)];
    let mut warnings: Vec<ExportWarning> = Vec::new();
    let nodes = build_layer_tree(layers, &mut warnings);
    assert_eq!(names(&nodes), vec!["Folder".to_string()]);
    assert_eq!(nodes[0].layer_type, LayerType::Group);
    assert_eq!(names(&nodes[0].children), vec!["A".to_string()]);
    assert_eq!(warnings.len(), 1);
    assert_eq!(warnings[0].code, "synthetic-group-opener");
    assert_eq!(
        warnings[0].message,
        "recovered 1 unflagged zero-bounds group opener layer(s) while rebuilding groups"
    );
}

#[test]
fn sha1_hex_matches_known_digests() {
    assert_eq!(sha1_hex(b"abc"), "a9993e364706816aba3e25717850c26c9cd0d89d");
    assert_eq!(sha1_hex(b""), "da39a3ee5e6b4b0d3255bfef95601890afd80709");
}

#[test]
fn node_ids_hash_path_and_raw_index() {
    assert_eq!(generate_node_id(&vec![0], 3), "layer_f9cb5df4bb06");
    assert_eq!(generate_node_id(&vec![0, 1], 7), "layer_d452d5f1ac1a");
    assert_eq!(generate_node_id(&vec![], 5), "layer_8772a62a97ff");
    assert_eq!(generate_node_id(&vec![2, 0, 4], 12), "layer_a47812682985");
    assert_eq!(generate_node_id(&vec![0], 3), generate_node_id(&vec![0], 3));
}

#[test]
fn ids_stack_indices_and_paths_are_assigned() {
    let layers = vec![closer(0), layer(1, "A", LayerType::Pixel, 4, 4), layer(2, "B", LayerType::Pixel, 4, 4), opener(3, "G")];
    let mut warnings: Vec<ExportWarning> = Vec::new();
    let mut nodes = build_layer_tree(layers, &mut warnings);
    let mut path: Vec<usize> = Vec::new();
    assign_ids_and_stack_indices(&mut nodes, &mut path);
    assert!(path.is_empty());
    assert_eq!(nodes[0].id, generate_node_id(&vec![0], 3));
    assert_eq!(nodes[0].stack_index, 0);
    assert_eq!(nodes[0].path_indices, vec![0]);
    let kids = &nodes[0].children;
    assert_eq!(kids[0].id, generate_node_id(&vec![0, 0], 2));
    assert_eq!(kids[0].stack_index, 1);
    assert_eq!(kids[0].path_indices, vec![0, 0]);
    assert_eq!(kids[1].id, generate_node_id(&vec![0, 1], 1));
    assert_eq!(kids[1].stack_index, 0);
    assert_eq!(kids[1].path_indices, vec![0, 1]);
}

#[test]
fn clipped_layers_take_the_nearest_base_beneath() {
    let mut base = layer(0, "Base", LayerType::Pixel, 2, 2);
    base.is_clipped = false;
    let mut clip1 = layer(1, "Clip1", LayerType::Pixel, 2, 2);
    clip1.is_clipped = true;
    let mut clip2 = layer(2, "Clip2", LayerType::Pixel, 2, 2);
    clip2.is_clipped = true;
    let mut warnings: Vec<ExportWarning> = Vec::new();
    let mut nodes = build_layer_tree(vec![base, clip1, clip2], &mut warnings);
    let mut path: Vec<usize> = Vec::new();
    assign_ids_and_stack_indices(&mut nodes, &mut path);
    assign_clip_targets(&mut nodes, &mut warnings);
    let base_id = nodes[2].id.clone();
    assert_eq!(nodes[2].clip_to, None);
    assert_eq!(nodes[1].clip_to, Some(base_id.clone()));
    assert_eq!(nodes[0].clip_to, Some(base_id));
    assert!(warnings.is_empty());
}

#[test]
fn clipped_layer_without_base_is_reported() {
    let mut clip = layer(0, "Lonely", LayerType::Pixel, 2, 2);
    clip.is_clipped = true;
    let mut warnings: Vec<ExportWarning> = Vec::new();
    let mut nodes = build_layer_tree(vec![clip], &mut warnings);
    let mut path: Vec<usize> = Vec::new();
    assign_ids_and_stack_indices(&mut nodes, &mut path);
    assign_clip_targets(&mut nodes, &mut warnings);
    assert_eq!(nodes[0].clip_to, None);
    assert_eq!(warnings.len(), 1);
    assert_eq!(warnings[0].code, "clipping-base-missing");
    assert_eq!(warnings[0].message, "clipped layer did not have a non-clipped sibling beneath it");
    assert_eq!(warnings[0].layer_name, Some("Lonely".to_string()));
}

#[test]
fn file_stems_replace_forbidden_characters() {
    assert_eq!(sanitize_file_stem("a/b:c"), "a_b_c");
    assert_eq!(sanitize_file_stem("  .Title.  "), "Title");
    assert_eq!(sanitize_file_stem("..."), "layer");
    assert_eq!(sanitize_file_stem(""), "layer");
    assert_eq!(sanitize_file_stem("con"), "con_");
    assert_eq!(sanitize_file_stem("LPT9"), "LPT9_");
    assert_eq!(sanitize_file_stem("tab\there"), "tab_here");
    assert_eq!(sanitize_file_stem("Ünïcode"), "Ünïcode");
}

#[test]
fn reserved_names_ignore_case() {
    assert!(is_windows_reserved_name("aux"));
    assert!(is_windows_reserved_name("Com7"));
    assert!(!is_windows_reserved_name("COM0"));
    assert!(!is_windows_reserved_name("console"));
}

#[test]
fn repeated_stems_are_numbered_without_regard_to_case() {
    let mut used: Vec<StemCount> = Vec::new();
    assert_eq!(next_asset_file_stem("Button", &mut used), "Button");
    assert_eq!(next_asset_file_stem("button", &mut used), "button (2)");
    assert_eq!(next_asset_file_stem("BUTTON", &mut used), "BUTTON (3)");
    assert_eq!(next_asset_file_stem("Other", &mut used), "Other");
    assert_eq!(next_asset_file_stem("a/b", &mut used), "a_b");
    assert_eq!(next_asset_file_stem("a:b", &mut used), "a_b (2)");
}

#[test]
fn stems_are_assigned_parent_before_children() {
    let layers = vec![closer(0), layer(1, "Icon", LayerType::Pixel, 4, 4), opener(2, "Icon")];
    let mut warnings: Vec<ExportWarning> = Vec::new();
    let mut nodes = build_layer_tree(layers, &mut warnings);
    let mut used: Vec<StemCount> = Vec::new();
    assign_asset_file_stems(&mut nodes, &mut used);
    assert_eq!(nodes[0].asset_file_stem, "Icon");
    assert_eq!(nodes[0].children[0].asset_file_stem, "Icon (2)");
}

fn count_nodes(nodes: &[BuildNode]) -> usize {
    nodes.iter().map(|n| 1 + count_nodes(&n.children)).sum()
}

#[test]
fn rebuild_keeps_every_layer_but_closers() {
    let layers = vec![
        closer(0),
        layer(1, "A", LayerType::Pixel, 4, 4),
        closer(2),
        layer(3, "B", LayerType::Pixel, 4, 4),
        opener(4, "Inner"),
        opener(5, "Outer"),
        layer(6, "Top", LayerType::Pixel, 4, 4),
        closer(7),
    ];
    let mut warnings: Vec<ExportWarning> = Vec::new();
    let nodes = build_layer_tree(layers, &mut warnings);
    assert_eq!(count_nodes(&nodes), 8 - 3);
    assert_eq!(names(&nodes), vec!["Top".to_string(), "Outer".to_string()]);
    assert_eq!(names(&nodes[1].children), vec!["Inner".to_string(), "A".to_string()]);
    assert_eq!(names(&nodes[1].children[0].children), vec!["B".to_string()]);
    assert_eq!(warnings.len(), 1);
    assert_eq!(warnings[0].code, "orphan-group-closer");
}

#[test]
fn digests_and_ids_are_lower_case_hex() {
    let digest = sha1_hex(b"psd2ugui");
    assert_eq!(digest.len(), 40);
    assert!(digest.chars().all(|c| c.is_ascii_digit() || ('a'..='f').contains(&c)));
    let id = generate_node_id(&vec![3, 1], 9);
    assert_eq!(id.len(), 18);
    assert!(id.starts_with("layer_"));
    assert!(id[6..].chars().all(|c| c.is_ascii_digit() || ('a'..='f').contains(&c)));
}

#[test]
fn file_stems_are_stable_and_trimmed_at_both_ends() {
    for name in ["a/b", " . ", "con", "  .Title.  ", "x.", "lpt3 .", "tab\there"] {
        let once = sanitize_file_stem(name);
        assert!(!once.ends_with(' ') && !once.ends_with('.'));
        assert!(!once.starts_with(' ') && !once.starts_with('.'));
        assert_eq!(sanitize_file_stem(&once), once);
    }
    assert_eq!(sanitize_file_stem(" . "), "layer");
}

#[test]
fn a_run_of_stems_has_no_repeats() {
    let mut used: Vec<StemCount> = Vec::new();
    let names = ["Icon", "icon", "Icon", "a/b", "a:b", "Back", "back."];
    let stems: Vec<String> = names.iter().map(|n| next_asset_file_stem(n, &mut used)).collect();
    assert_eq!(stems, vec!["Icon", "icon (2)", "Icon (3)", "a_b", "a_b (2)", "Back", "back (2)"]);
    for i in 0..stems.len() {
        for j in (i + 1)..stems.len() {
            assert_ne!(stems[i].to_lowercase(), stems[j].to_lowercase());
        }
    }
}
