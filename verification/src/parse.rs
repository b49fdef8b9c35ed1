use vstd::prelude::*;

use crate::bytes::{spec_scan_message, ScanError};
use crate::errors::{AppError, AppErrorView};
use crate::export::{hex_lower_of, sha1_digest, sha1_hex};
use crate::export_model::{export_warning_views, ExportWarning, ParsedMetadata, ParsedSource, WarningView};
use crate::psd::{layer_views, spec_scan_layer_records, scan_layer_records, FlatLayer, FlatLayerView, PsdMetadata};
use crate::raster::{preview_view, PreviewOverride};
use crate::report::to_forward_slashes;
use crate::text::{decimal, owned, push_decimal, push_str, replace_char};

verus! {

/// Why a PSD cannot be exported: only 8-bit RGB documents can.
pub open spec fn spec_psd_support(m: PsdMetadata) -> Option<Seq<char>> {
    if m.depth != 8 {
        Some("only 8-bit PSD files are supported, found "@ + decimal(m.depth as nat) + "-bit"@)
    } else if m.color_mode != 3 {
        Some("only RGB PSD files are supported, found color mode "@ + decimal(m.color_mode as nat))
    } else {
        None
    }
}

/// Refuses documents that are not 8-bit RGB (see `spec_psd_support`).
pub fn check_psd_support(m: &PsdMetadata) -> (r: Result<(), AppError>)
    ensures
        match spec_psd_support(*m) {
            None => r is Ok,
            Some(why) => r matches Err(e) && e@ == AppErrorView::UnsupportedPsd(why),
        },
{
    if m.depth != 8 {
        let mut s = owned("only 8-bit PSD files are supported, found ");
        push_decimal(&mut s, m.depth as u64);
        push_str(&mut s, "-bit");
        return Err(AppError::UnsupportedPsd(s));
    }
    if m.color_mode != 3 {
        let mut s = owned("only RGB PSD files are supported, found color mode ");
        push_decimal(&mut s, m.color_mode as u64);
        return Err(AppError::UnsupportedPsd(s));
    }
    Ok(())
}

/// The header facts of a supported document; its color mode is `rgb`.
pub fn parsed_metadata(m: &PsdMetadata) -> (r: ParsedMetadata)
    ensures
        r.width == m.width,
        r.height == m.height,
        r.color_mode@ == "rgb"@,
        r.depth == m.depth,
        r.channel_count == m.channel_count,
{
    ParsedMetadata {
        width: m.width,
        height: m.height,
        color_mode: owned("rgb"),
        depth: m.depth,
        channel_count: m.channel_count,
    }
}

/// Describes the input file: its path with forward slashes, its file name
/// (`unknown.psd` when it has none), its size and SHA-1 digest.
pub fn parsed_source(input_path: &str, file_name: Option<&str>, data: &[u8]) -> (r: ParsedSource)
    ensures
        r.input_path@ == replace_char(input_path@, '\\', "/"@),
        r.input_file@ == match file_name {
            Some(n) => n@,
            None => "unknown.psd"@,
        },
        r.file_size == data@.len(),
        r.file_sha1@ == hex_lower_of(sha1_digest(data@)),
{
    ParsedSource {
        input_path: to_forward_slashes(input_path),
        input_file: match file_name {
            Some(n) => owned(n),
            None => owned("unknown.psd"),
        },
        file_size: data.len() as u64,
        file_sha1: sha1_hex(data),
    }
}

/// The layer records of a document; when they cannot be scanned, a strict
/// export fails and any other goes on without layers and with a warning.
pub fn scan_layers_or_warn(data: &[u8], strict: bool, warnings: &mut Vec<ExportWarning>) -> (r: Result<Vec<FlatLayer>, AppError>)
    requires
        data@.len() <= isize::MAX,
    ensures
        match spec_scan_layer_records(data@) {
            Ok(ls) => r matches Ok(v) && layer_views(v@) == ls && final(warnings)@ == old(warnings)@,
            Err(e) => if strict {
                r matches Err(x) && x@ == AppErrorView::PsdParse(spec_scan_message(e))
                    && final(warnings)@ == old(warnings)@
            } else {
                &&& r matches Ok(v) && v@.len() == 0
                &&& export_warning_views(final(warnings)@) == export_warning_views(old(warnings)@).push(
                    (WarningView {
                        code: "layer-record-scan-failed"@,
                        message: "failed to scan layer records: "@ + spec_scan_message(e),
                        layer_name: None,
                    }),
                )
            },
        },
{
    match scan_layer_records(data) {
        Ok(records) => Ok(records),
        Err(e) => {
            if strict {
                return Err(AppError::PsdParse(owned(e.message())));
            }
            let mut m = owned("failed to scan layer records: ");
            push_str(&mut m, e.message());
            let ghost w0 = export_warning_views(warnings@);
            warnings.push(ExportWarning::new("layer-record-scan-failed", m.as_str()));
            assert(export_warning_views(warnings@) =~= w0.push(
                WarningView {
                    code: "layer-record-scan-failed"@,
                    message: "failed to scan layer records: "@ + spec_scan_message(e),
                    layer_name: None,
                },
            ));
            Ok(Vec::new())
        },
    }
}

/// A strict export fails when anything was warned about.
pub fn check_strict(strict: bool, warning_count: usize) -> (r: Result<(), AppError>)
    ensures
        (strict && warning_count > 0) <==> (r is Err),
        r matches Err(e) ==> e@ == (AppErrorView::StrictWarnings { warning_count: warning_count as nat }),
{
    if strict && warning_count > 0 {
        Err(AppError::StrictWarnings { warning_count })
    } else {
        Ok(())
    }
}

/// The message when Photoshop made no preview.
pub const PREVIEW_REQUIRED: &'static str = "Photoshop did not produce a preview image; export cannot produce preview/document.png";

/// The preview the bundle needs; without one the export fails.
pub fn require_preview(p: Option<PreviewOverride>) -> (r: Result<PreviewOverride, AppError>)
    ensures
        match p {
            Some(x) => r matches Ok(y) && preview_view(Some(y)) == preview_view(Some(x)),
            None => r matches Err(e) && e@ == AppErrorView::Manifest(PREVIEW_REQUIRED@),
        },
{
    match p {
        Some(x) => Ok(x),
        None => Err(AppError::Manifest(owned(PREVIEW_REQUIRED))),
    }
}

} // verus!

verus! {

/// Goes on after the additional layer information could not be read: a
/// strict export fails, any other warns and goes on without it.
pub fn metadata_scan_failed(e: ScanError, strict: bool, warnings: &mut Vec<ExportWarning>) -> (r: Result<(), AppError>)
    ensures
        strict ==> (r matches Err(x) && x@ == AppErrorView::PsdParse(spec_scan_message(e)) && final(warnings)@
            == old(warnings)@),
        !strict ==> (r is Ok && export_warning_views(final(warnings)@) == export_warning_views(old(warnings)@).push(
            (WarningView {
                code: "layer-metadata-scan-failed"@,
                message: "failed to inspect additional layer info blocks: "@ + spec_scan_message(e),
                layer_name: None,
            }),
        )),
{
    if strict {
        return Err(AppError::PsdParse(owned(e.message())));
    }
    let mut m = owned("failed to inspect additional layer info blocks: ");
    push_str(&mut m, e.message());
    let ghost w0 = export_warning_views(warnings@);
    warnings.push(ExportWarning::new("layer-metadata-scan-failed", m.as_str()));
    assert(export_warning_views(warnings@) =~= w0.push(
        WarningView {
            code: "layer-metadata-scan-failed"@,
            message: "failed to inspect additional layer info blocks: "@ + spec_scan_message(e),
            layer_name: None,
        },
    ));
    Ok(())
}

/// The reason a smart object layer is exported only as a node and a raster.
pub open spec fn smart_object_reason() -> Seq<char> {
    "smart object metadata was detected, but phase one only preserves the layer node and raster export"@
}

/// What a layer keeps of its blocks: its text, its effect changes and
/// what is not fully supported.
pub struct LayerExtras<T, F, S, E> {
    pub text: Option<T>,
    pub effect_updates: Vec<crate::layer_meta::EffectUpdate<F, S, E>>,
    pub unsupported: Vec<crate::export_model::UnsupportedInfo>,
}

/// Merges what a layer's blocks say into the layer: their warnings join
/// the document's, the layer becomes text when its type tool data had
/// character runs (kept text always has), else a shape when a block says
/// so; its text and effect changes are handed back with what is not fully
/// supported, a smart object adding a note of its own.
pub fn merge_layer_scan<T, F, S, E>(
    layer: &mut FlatLayer,
    scan: crate::layer_meta::LayerScan<T, F, S, E>,
    warnings: &mut Vec<ExportWarning>,
) -> (r: LayerExtras<T, F, S, E>)
    ensures
        export_warning_views(final(warnings)@) == export_warning_views(old(warnings)@) + export_warning_views(
            scan.warnings@,
        ),
        final(layer)@ == (FlatLayerView {
            layer_type: crate::layer_meta::spec_scanned_layer_type(
                old(layer).layer_type,
                scan.text is Some,
                scan.shape_detected,
            ),
            ..old(layer)@
        }),
        r.text == scan.text,
        r.effect_updates@ == scan.effect_updates@,
        crate::layer_meta::unsupported_views(r.unsupported@) == crate::layer_meta::unsupported_views(
            scan.unsupported@,
        ) + if scan.smart_object_detected {
            seq![("smart_object"@, smart_object_reason())]
        } else {
            Seq::<(Seq<char>, Seq<char>)>::empty()
        },
{
    let ghost w0 = export_warning_views(warnings@);
    let ghost sw = export_warning_views(scan.warnings@);
    let crate::layer_meta::LayerScan { text, effect_updates, shape_detected, smart_object_detected, mut unsupported, warnings: scan_warnings } = scan;
    let mut i: usize = 0;
    while i < scan_warnings.len()
        invariant
            i <= scan_warnings@.len(),
            sw == export_warning_views(scan_warnings@),
            export_warning_views(warnings@) == w0 + sw.subrange(0, i as int),
        decreases scan_warnings.len() - i,
    {
        let w = ExportWarning {
            code: owned(scan_warnings[i].code.as_str()),
            message: owned(scan_warnings[i].message.as_str()),
            layer_name: match &scan_warnings[i].layer_name {
                Some(n) => Some(owned(n.as_str())),
                None => None,
            },
        };
        let ghost prev = export_warning_views(warnings@);
        warnings.push(w);
        i = i + 1;
        assert(export_warning_views(warnings@) =~= prev.push(sw[i - 1]));
        assert(sw.subrange(0, i as int) =~= sw.subrange(0, i - 1).push(sw[i - 1]));
    }
    assert(sw.subrange(0, i as int) =~= sw);
    layer.layer_type = crate::layer_meta::scanned_layer_type(layer.layer_type, text.is_some(), shape_detected);
    let ghost u0 = crate::layer_meta::unsupported_views(unsupported@);
    if smart_object_detected {
        unsupported.push(
            crate::export_model::UnsupportedInfo {
                kind: owned("smart_object"),
                reason: owned(
                    "smart object metadata was detected, but phase one only preserves the layer node and raster export",
                ),
            },
        );
        assert(crate::layer_meta::unsupported_views(unsupported@) =~= u0 + seq![("smart_object"@, smart_object_reason())]);
    } else {
        assert(crate::layer_meta::unsupported_views(unsupported@) =~= u0 + Seq::<(Seq<char>, Seq<char>)>::empty());
    }
    LayerExtras { text, effect_updates, unsupported }
}

} // verus!
