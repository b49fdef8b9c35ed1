use psd2ugui::effects::{
    alpha_canvas, box_blur_line, box_blur_u8, compute_padding, default_shadow_color, is_normal_blend_mode,
    max_filter_line, max_filter_u8, outer_stroke_alpha, plan_effect_bake, shift_alpha_mask, BakeStart,
    EffectPadding, RgbaBitmap, ShadowPlan, ShadowReach, StrokePlan,
};
use psd2ugui::export_model::{ColorRgba, ExportWarning};
use psd2ugui::psd::Bounds;

#[test]
fn computes_symmetric_padding_for_outer_stroke() {
    let padding = compute_padding(Some(3), None);

    assert_eq!(
        padding,
        EffectPadding {
            left: 3,
            top: 3,
            right: 3,
            bottom: 3,
        }
    );
}

#[test]
fn computes_padding_for_negative_shadow_offset() {
    let padding = compute_padding(
        None,
        Some(ShadowReach {
            blur_radius: 2,
            offset_x: -4,
            offset_y: 3,
        }),
    );

    assert_eq!(
        padding,
        EffectPadding {
            left: 6,
            top: 0,
            right: 0,
            bottom: 5,
        }
    );
}

#[test]
fn combines_padding_from_stroke_and_shadow() {
    let padding = compute_padding(
        Some(2),
        Some(ShadowReach {
            blur_radius: 1,
            offset_x: 5,
            offset_y: -3,
        }),
    );

    assert_eq!(
        padding,
        EffectPadding {
            left: 2,
            top: 4,
            right: 6,
            bottom: 2,
        }
    );
}

#[test]
fn no_effects_need_no_padding() {
    assert_eq!(compute_padding(None, None), EffectPadding { left: 0, top: 0, right: 0, bottom: 0 });
}

#[test]
fn default_shadow_color_is_opaque_black() {
    let c: ColorRgba = default_shadow_color();
    assert_eq!((c.r, c.g, c.b, c.a), (0, 0, 0, 255));
}

#[test]
fn normal_blend_modes() {
    assert!(is_normal_blend_mode(None));
    assert!(is_normal_blend_mode(Some("")));
    assert!(is_normal_blend_mode(Some("norm")));
    assert!(is_normal_blend_mode(Some("normal")));
    assert!(!is_normal_blend_mode(Some("multiply")));
    assert!(!is_normal_blend_mode(Some("Normal")));
}

#[test]
fn box_blur_line_averages_the_window() {
    assert_eq!(box_blur_line(&[0, 0, 255, 0, 0], 1), vec![0, 85, 85, 85, 0]);
    assert_eq!(box_blur_line(&[10, 20, 30], 0), vec![10, 20, 30]);
    assert_eq!(box_blur_line(&[10, 20, 30], 5), vec![20, 20, 20]);
    assert_eq!(box_blur_line(&[], 2), Vec::<u8>::new());
}

#[test]
fn max_filter_line_takes_the_window_maximum() {
    assert_eq!(max_filter_line(&[1, 5, 2, 0, 3], 1), vec![5, 5, 5, 3, 3]);
    assert_eq!(max_filter_line(&[1, 5, 2, 0, 3], 0), vec![1, 5, 2, 0, 3]);
    assert_eq!(max_filter_line(&[9, 0, 0, 0, 0, 0], 2), vec![9, 9, 9, 0, 0, 0]);
    assert_eq!(max_filter_line(&[], 3), Vec::<u8>::new());
}

#[test]
fn dilation_never_darkens_a_line() {
    let line = [3u8, 200, 17, 0, 255, 64, 64, 1];
    for radius in 0..4 {
        let out = max_filter_line(&line, radius);
        for i in 0..line.len() {
            assert!(out[i] >= line[i]);
        }
    }
}

#[test]
fn box_blur_image_blurs_rows_then_columns() {
    let input = [0, 0, 0, 0, 90, 0, 0, 0, 0];
    assert_eq!(box_blur_u8(&input, 3, 3, 1), vec![22, 15, 22, 15, 10, 15, 22, 15, 22]);
    assert_eq!(box_blur_u8(&input, 3, 3, 0), input.to_vec());
}

#[test]
fn max_filter_image_spreads_the_maximum() {
    let input = [0, 0, 0, 0, 7, 0, 0, 0, 0];
    assert_eq!(max_filter_u8(&input, 3, 3, 1), vec![7; 9]);
    let wide = [0, 0, 0, 0, 0, 9, 0, 0, 0, 0];
    assert_eq!(max_filter_u8(&wide, 5, 2, 1), vec![9, 9, 0, 0, 0, 9, 9, 0, 0, 0]);
}

#[test]
fn alpha_canvas_places_the_alpha_channel() {
    let bitmap = RgbaBitmap { width: 1, height: 1, pixels: vec![1, 2, 3, 200] };
    assert_eq!(alpha_canvas(&bitmap, 3, 2, 1, 1), vec![0, 0, 0, 0, 200, 0]);
    let two = RgbaBitmap { width: 2, height: 1, pixels: vec![0, 0, 0, 10, 0, 0, 0, 20] };
    assert_eq!(alpha_canvas(&two, 2, 1, 0, 0), vec![10, 20]);
}

#[test]
fn shifting_a_mask_drops_what_leaves_it() {
    let mask = [0, 200, 0];
    assert_eq!(shift_alpha_mask(&mask, 3, 1, 1, 0), vec![0, 0, 200]);
    assert_eq!(shift_alpha_mask(&mask, 3, 1, -1, 0), vec![200, 0, 0]);
    assert_eq!(shift_alpha_mask(&mask, 3, 1, 2, 0), vec![0, 0, 0]);
    assert_eq!(shift_alpha_mask(&mask, 3, 1, 0, 1), vec![0, 0, 0]);
    let square = [1, 2, 3, 4];
    assert_eq!(shift_alpha_mask(&square, 2, 2, 1, 1), vec![0, 0, 0, 1]);
}

#[test]
fn blur_keeps_a_uniform_line() {
    assert_eq!(box_blur_line(&[40, 40, 40, 40], 2), vec![40, 40, 40, 40]);
}

fn opaque_bitmap(width: u32, height: u32, pixel: [u8; 4]) -> RgbaBitmap {
    let mut pixels = Vec::new();
    for _ in 0..width as usize * height as usize {
        pixels.extend_from_slice(&pixel);
    }
    RgbaBitmap { width, height, pixels }
}

#[test]
fn bake_layout_and_masks_for_stroke_and_shadow() {
    let bitmap = opaque_bitmap(1, 1, [255, 255, 255, 255]);
    let bounds = Bounds { x: 10, y: 20, width: 1, height: 1 };
    let stroke = StrokePlan { radius: 1, position_approximated: false, blend_mode_approximated: false };
    let shadow = ShadowPlan {
        reach: ShadowReach { blur_radius: 0, offset_x: 2, offset_y: 0 },
        blend_mode_approximated: false,
    };
    let mut warnings: Vec<ExportWarning> = Vec::new();
    let layout = match plan_effect_bake("Badge", 1, 1, &bounds, false, false, Some(stroke), Some(shadow), &mut warnings) {
        BakeStart::Bake(l) => l,
        _ => panic!("effects should be baked"),
    };
    assert!(warnings.is_empty());
    assert_eq!(layout.bounds, Bounds { x: 9, y: 19, width: 4, height: 3 });
    assert_eq!(layout.baked, vec!["drop_shadow".to_string(), "stroke".to_string()]);
    assert_eq!((layout.origin_x, layout.origin_y), (1, 1));

    let canvas = alpha_canvas(&bitmap, layout.width, layout.height, layout.origin_x, layout.origin_y);
    assert_eq!(canvas, vec![0, 0, 0, 0, 0, 255, 0, 0, 0, 0, 0, 0]);
    let shadow_alpha = shift_alpha_mask(&canvas, layout.width, layout.height, 2, 0);
    assert_eq!(shadow_alpha[1 * 4 + 3], 255);
    let dilated = max_filter_u8(&canvas, 4, 3, 1);
    let outer = outer_stroke_alpha(&dilated, &canvas);
    assert_eq!(outer[1 * 4 + 0], 255);
    assert_eq!(outer[1 * 4 + 1], 0);
    assert_eq!(outer[1 * 4 + 3], 0);
}

#[test]
fn expands_bounds_for_negative_shadow_offsets() {
    let bounds = Bounds { x: 10, y: 20, width: 1, height: 1 };
    let shadow = ShadowPlan {
        reach: ShadowReach { blur_radius: 2, offset_x: -3, offset_y: 0 },
        blend_mode_approximated: false,
    };
    let mut warnings: Vec<ExportWarning> = Vec::new();
    let baked_bounds = match plan_effect_bake("Card", 1, 1, &bounds, false, false, None, Some(shadow), &mut warnings) {
        BakeStart::Bake(l) => l.bounds,
        _ => panic!("bounds should expand"),
    };

    assert_eq!(baked_bounds.x, 5);
    assert_eq!(baked_bounds.y, 18);
    assert_eq!(baked_bounds.width, 6);
    assert_eq!(baked_bounds.height, 5);
}

#[test]
fn skips_baking_for_masked_layers() {
    let bounds = Bounds { x: 0, y: 0, width: 1, height: 1 };
    let stroke = StrokePlan { radius: 2, position_approximated: true, blend_mode_approximated: true };
    let mut warnings: Vec<ExportWarning> = Vec::new();
    let outcome = plan_effect_bake("Masked", 1, 1, &bounds, true, false, Some(stroke), None, &mut warnings);

    assert!(matches!(outcome, BakeStart::Skipped));
    assert_eq!(warnings.len(), 1);
    assert_eq!(warnings[0].code, "effects-bake-skipped-mask");
}

#[test]
fn clipped_layers_and_layers_without_effects_are_not_baked() {
    let bounds = Bounds { x: 0, y: 0, width: 1, height: 1 };
    let stroke = StrokePlan { radius: 1, position_approximated: false, blend_mode_approximated: false };
    let mut warnings: Vec<ExportWarning> = Vec::new();
    assert!(matches!(plan_effect_bake("C", 1, 1, &bounds, false, true, Some(stroke), None, &mut warnings), BakeStart::Skipped));
    assert_eq!(warnings[0].code, "effects-bake-skipped-clipping");
    assert_eq!(warnings[0].layer_name, Some("C".to_string()));
    assert!(matches!(plan_effect_bake("N", 1, 1, &bounds, true, true, None, None, &mut warnings), BakeStart::Nothing));
    assert_eq!(warnings.len(), 1);
}

#[test]
fn approximations_are_reported_in_order() {
    let bounds = Bounds { x: 0, y: 0, width: 2, height: 2 };
    let stroke = StrokePlan { radius: 1, position_approximated: true, blend_mode_approximated: true };
    let shadow = ShadowPlan {
        reach: ShadowReach { blur_radius: 0, offset_x: 0, offset_y: 0 },
        blend_mode_approximated: true,
    };
    let mut warnings: Vec<ExportWarning> = Vec::new();
    let _ = plan_effect_bake("L", 2, 2, &bounds, false, false, Some(stroke), Some(shadow), &mut warnings);
    let codes: Vec<&str> = warnings.iter().map(|w| w.code.as_str()).collect();
    assert_eq!(
        codes,
        vec![
            "effects-bake-stroke-position-approx",
            "effects-bake-stroke-blend-mode-approx",
            "effects-bake-shadow-blend-mode-approx"
        ]
    );
    assert_eq!(warnings[0].message, "stroke position was approximated as an outside stroke during PNG baking");
}

#[test]
fn outer_stroke_alpha_saturates() {
    assert_eq!(outer_stroke_alpha(&[255, 10, 5], &[0, 20, 5, 9]), vec![255, 0, 0]);
}

#[test]
fn box_blur_line_handles_long_bright_lines() {
    let line = vec![255u8; 17_000_000];
    let out = box_blur_line(&line, 3);
    assert_eq!(out.len(), line.len());
    assert!(out.iter().all(|v| *v == 255));
}
