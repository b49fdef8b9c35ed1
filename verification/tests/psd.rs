use psd2ugui::bytes::{ScanError, SliceCursor};
use psd2ugui::errors::AppError;
use psd2ugui::export_model::ExportWarning;
use psd2ugui::layer_meta::{
    block_kind, read_b4_string, read_pascal_id, scan_layer_metadata, scanned_layer_type, shape_detected,
    smart_object_detected, BlockKind,
};
use psd2ugui::layer_meta::{assemble_layer_scan as assemble, BlockOutcome};
use psd2ugui::parse::{
    check_psd_support, check_strict, merge_layer_scan, metadata_scan_failed, parsed_metadata, parsed_source,
    scan_layers_or_warn,
};
use psd2ugui::psd::{scan_layer_records, scan_psd_metadata, Bounds, LayerType, PsdMetadata};

struct Record {
    top: i32,
    left: i32,
    bottom: i32,
    right: i32,
    channel_lens: Vec<u32>,
    blend: [u8; 4],
    opacity: u8,
    clipping: u8,
    flags: u8,
    name: Vec<u8>,
    blocks: Vec<([u8; 4], [u8; 4], Vec<u8>)>,
}

fn header(depth: u16, mode: u16) -> Vec<u8> {
    let mut d = Vec::new();
    d.extend_from_slice(b"8BPS");
    d.extend_from_slice(&1u16.to_be_bytes());
    d.extend_from_slice(&[0; 6]);
    d.extend_from_slice(&3u16.to_be_bytes());
    d.extend_from_slice(&40u32.to_be_bytes());
    d.extend_from_slice(&60u32.to_be_bytes());
    d.extend_from_slice(&depth.to_be_bytes());
    d.extend_from_slice(&mode.to_be_bytes());
    d.extend_from_slice(&0u32.to_be_bytes());
    d.extend_from_slice(&0u32.to_be_bytes());
    d
}

/// Builds a document; gives the bytes and, per layer, where each block's
/// payload starts.
fn document(records: &[Record]) -> (Vec<u8>, Vec<Vec<usize>>) {
    let mut d = header(8, 3);
    let mut info = Vec::new();
    info.extend_from_slice(&(records.len() as u16).to_be_bytes());
    let mut rel_starts: Vec<Vec<usize>> = Vec::new();
    for r in records {
        for v in [r.top, r.left, r.bottom, r.right] {
            info.extend_from_slice(&v.to_be_bytes());
        }
        info.extend_from_slice(&(r.channel_lens.len() as u16).to_be_bytes());
        for (i, l) in r.channel_lens.iter().enumerate() {
            info.extend_from_slice(&(i as i16).to_be_bytes());
            info.extend_from_slice(&l.to_be_bytes());
        }
        info.extend_from_slice(b"8BIM");
        info.extend_from_slice(&r.blend);
        info.extend_from_slice(&[r.opacity, r.clipping, r.flags, 0]);
        let mut extra = Vec::new();
        extra.extend_from_slice(&0u32.to_be_bytes());
        extra.extend_from_slice(&0u32.to_be_bytes());
        extra.push(r.name.len() as u8);
        extra.extend_from_slice(&r.name);
        let pad = (4 - ((r.name.len() + 1) % 4)) % 4;
        extra.extend_from_slice(&vec![0; pad]);
        let mut starts = Vec::new();
        for (sig, key, payload) in &r.blocks {
            extra.extend_from_slice(sig);
            extra.extend_from_slice(key);
            extra.extend_from_slice(&(payload.len() as u32).to_be_bytes());
            starts.push(info.len() + 4 + extra.len());
            extra.extend_from_slice(payload);
        }
        info.extend_from_slice(&(extra.len() as u32).to_be_bytes());
        info.extend_from_slice(&extra);
        rel_starts.push(starts);
    }
    for r in records {
        for l in &r.channel_lens {
            info.extend_from_slice(&vec![0; *l as usize]);
        }
    }
    let base = d.len() + 4 + 4;
    let section_len = (4 + info.len()) as u32;
    d.extend_from_slice(&section_len.to_be_bytes());
    d.extend_from_slice(&(info.len() as u32).to_be_bytes());
    d.extend_from_slice(&info);
    let starts = rel_starts.into_iter().map(|v| v.into_iter().map(|s| s + base).collect()).collect();
    (d, starts)
}

fn sample() -> Vec<Record> {
    let mut luni = Vec::new();
    luni.extend_from_slice(&2u32.to_be_bytes());
    luni.extend_from_slice(&0x48u16.to_be_bytes());
    luni.extend_from_slice(&0xE9u16.to_be_bytes());
    vec![
        Record {
            top: 1,
            left: 2,
            bottom: 11,
            right: 22,
            channel_lens: vec![3],
            blend: *b"norm",
            opacity: 128,
            clipping: 1,
            flags: 2,
            name: b"Bg".to_vec(),
            blocks: vec![(*b"8BIM", *b"lsct", 1u32.to_be_bytes().to_vec()), (*b"8BIM", *b"luni", luni)],
        },
        Record {
            top: 0,
            left: 0,
            bottom: 0,
            right: 0,
            channel_lens: vec![],
            blend: *b"mul ",
            opacity: 255,
            clipping: 0,
            flags: 0,
            name: vec![],
            blocks: vec![(*b"8B64", *b"SoCo", vec![0; 5])],
        },
    ]
}

#[test]
fn header_fields_are_read() {
    let data = header(8, 3);
    let m = scan_psd_metadata(&data).expect("header should scan");
    assert_eq!(m, PsdMetadata { width: 60, height: 40, color_mode: 3, depth: 8, channel_count: 3 });
    assert!(check_psd_support(&m).is_ok());
    let pm = parsed_metadata(&m);
    assert_eq!((pm.width, pm.height, pm.color_mode.as_str(), pm.depth, pm.channel_count), (60, 40, "rgb", 8, 3));
}

#[test]
fn header_errors_are_reported() {
    let mut bad = header(8, 3);
    bad[0] = b'X';
    assert_eq!(scan_psd_metadata(&bad), Err(ScanError::InvalidSignature));
    let mut v2 = header(8, 3);
    v2[5] = 2;
    assert_eq!(scan_psd_metadata(&v2), Err(ScanError::UnsupportedVersion));
    assert_eq!(scan_psd_metadata(&header(8, 3)[..20]), Err(ScanError::UnexpectedEnd));
    assert_eq!(ScanError::UnexpectedEnd.message(), "unexpected end of stream");
    assert_eq!(ScanError::InvalidSignature.message(), "invalid PSD signature");
}

#[test]
fn unsupported_documents_are_refused() {
    let sixteen = scan_psd_metadata(&header(16, 3)).unwrap();
    match check_psd_support(&sixteen) {
        Err(AppError::UnsupportedPsd(m)) => assert_eq!(m, "only 8-bit PSD files are supported, found 16-bit"),
        _ => panic!("expected an unsupported PSD error"),
    }
    let cmyk = scan_psd_metadata(&header(8, 4)).unwrap();
    match check_psd_support(&cmyk) {
        Err(AppError::UnsupportedPsd(m)) => assert_eq!(m, "only RGB PSD files are supported, found color mode 4"),
        _ => panic!("expected an unsupported PSD error"),
    }
}

#[test]
fn layer_records_are_scanned() {
    let (data, _) = document(&sample());
    let layers = scan_layer_records(&data).expect("records should scan");
    assert_eq!(layers.len(), 2);
    let a = &layers[0];
    assert_eq!(a.raw_index, 0);
    assert_eq!(a.name, "Hé");
    assert_eq!(a.bounds, Bounds { x: 2, y: 1, width: 20, height: 10 });
    assert_eq!(a.layer_type, LayerType::Group);
    assert!(a.group_opener);
    assert!(!a.group_closer);
    assert!(!a.visible);
    assert!(a.is_clipped);
    assert_eq!(a.opacity, 128);
    assert_eq!(a.blend_mode, "norm");
    let b = &layers[1];
    assert_eq!(b.name, "Layer 1");
    assert_eq!(b.layer_type, LayerType::Unknown);
    assert!(b.visible);
    assert!(!b.is_clipped);
    assert_eq!(b.blend_mode, "mul ");
    assert_eq!(b.bounds, Bounds { x: 0, y: 0, width: 0, height: 0 });
}

#[test]
fn documents_without_layers_scan_empty() {
    let data = header(8, 3);
    let mut with_empty = data.clone();
    with_empty.extend_from_slice(&0u32.to_be_bytes());
    assert_eq!(scan_layer_records(&with_empty).unwrap().len(), 0);
    assert_eq!(scan_layer_metadata(&with_empty).unwrap().len(), 0);
}

#[test]
fn bad_blend_signature_stops_both_scans() {
    let (mut data, _) = document(&sample());
    let pos = data.windows(8).position(|w| w == b"8BIMnorm").unwrap();
    data[pos] = b'X';
    assert_eq!(scan_layer_records(&data).err(), Some(ScanError::InvalidRecordBlendSignature));
    assert_eq!(scan_layer_metadata(&data).err(), Some(ScanError::InvalidLayerBlendSignature));
}

#[test]
fn layer_blocks_are_located() {
    let (data, starts) = document(&sample());
    let blocks = scan_layer_metadata(&data).expect("metadata should scan");
    assert_eq!(blocks.len(), 2);
    assert_eq!(blocks[0].len(), 2);
    assert_eq!(&blocks[0][0].key, b"lsct");
    assert_eq!(blocks[0][0].len, 4);
    assert_eq!(blocks[0][0].start, starts[0][0]);
    assert_eq!(&blocks[0][1].key, b"luni");
    assert_eq!(blocks[0][1].start, starts[0][1]);
    assert_eq!(&data[blocks[0][1].start..blocks[0][1].start + 4], &2u32.to_be_bytes());
    assert_eq!(&blocks[1][0].key, b"SoCo");
    assert_eq!(blocks[1][0].len, 5);
    assert!(shape_detected(&blocks[1]));
    assert!(!shape_detected(&blocks[0]));
    assert!(!smart_object_detected(&blocks[1]));
}

#[test]
fn block_kinds_follow_keys() {
    assert_eq!(block_kind(*b"TySh"), BlockKind::TypeTool);
    assert_eq!(block_kind(*b"SoCo"), BlockKind::SolidColor);
    assert_eq!(block_kind(*b"vscg"), BlockKind::VectorStroke);
    assert_eq!(block_kind(*b"vsms"), BlockKind::ShapeHint);
    assert_eq!(block_kind(*b"lfx2"), BlockKind::Effects);
    assert_eq!(block_kind(*b"PlLd"), BlockKind::SmartObject);
    assert_eq!(block_kind(*b"lsct"), BlockKind::Other);
    assert_eq!(scanned_layer_type(LayerType::Pixel, true, true), LayerType::Text);
    assert_eq!(scanned_layer_type(LayerType::Pixel, false, true), LayerType::Shape);
    assert_eq!(scanned_layer_type(LayerType::Pixel, false, false), LayerType::Pixel);
}

#[test]
fn descriptor_identifiers_default_to_four_bytes() {
    let mut data = Vec::new();
    data.extend_from_slice(&0u32.to_be_bytes());
    data.extend_from_slice(b"Txt ");
    data.extend_from_slice(&2u32.to_be_bytes());
    data.extend_from_slice(b"Ok");
    data.extend_from_slice(b"norm");
    let mut c = SliceCursor::new(&data);
    assert_eq!(read_pascal_id(&mut c), Ok("Txt ".to_string()));
    assert_eq!(read_pascal_id(&mut c), Ok("Ok".to_string()));
    assert_eq!(read_b4_string(&mut c), Ok("norm".to_string()));
    assert_eq!(read_b4_string(&mut c), Err(ScanError::UnexpectedEnd));
}

#[test]
fn failed_layer_scan_warns_unless_strict() {
    let mut data = header(8, 3);
    data.extend_from_slice(&10u32.to_be_bytes());
    data.extend_from_slice(&6u32.to_be_bytes());
    data.extend_from_slice(&1u16.to_be_bytes());
    let mut warnings: Vec<ExportWarning> = Vec::new();
    let layers = scan_layers_or_warn(&data, false, &mut warnings).ok().expect("lenient scan goes on");
    assert!(layers.is_empty());
    assert_eq!(warnings.len(), 1);
    assert_eq!(warnings[0].code, "layer-record-scan-failed");
    assert_eq!(warnings[0].message, "failed to scan layer records: unexpected end of stream");
    let mut strict_warnings: Vec<ExportWarning> = Vec::new();
    match scan_layers_or_warn(&data, true, &mut strict_warnings) {
        Err(AppError::PsdParse(m)) => assert_eq!(m, "unexpected end of stream"),
        _ => panic!("strict scan should fail"),
    }
    assert!(strict_warnings.is_empty());
}

#[test]
fn strict_mode_fails_on_warnings() {
    assert!(check_strict(false, 3).is_ok());
    assert!(check_strict(true, 0).is_ok());
    match check_strict(true, 2) {
        Err(e) => {
            assert_eq!(e.exit_code(), 5);
            assert_eq!(e.message(), "strict mode aborted export because 2 warning(s) were raised");
        }
        Ok(()) => panic!("strict mode should fail"),
    }
}

#[test]
fn source_info_describes_the_input() {
    let s = parsed_source("C:\\art\\ui.psd", Some("ui.psd"), b"abc");
    assert_eq!(s.input_path, "C:/art/ui.psd");
    assert_eq!(s.input_file, "ui.psd");
    assert_eq!(s.file_size, 3);
    assert_eq!(s.file_sha1, "a9993e364706816aba3e25717850c26c9cd0d89d");
    assert_eq!(parsed_source("x", None, b"").input_file, "unknown.psd");
}

#[test]
fn failed_metadata_scan_warns_unless_strict() {
    let mut warnings: Vec<ExportWarning> = Vec::new();
    assert!(metadata_scan_failed(ScanError::InvalidAdditionalInfoSignature, false, &mut warnings).is_ok());
    assert_eq!(warnings[0].code, "layer-metadata-scan-failed");
    assert_eq!(
        warnings[0].message,
        "failed to inspect additional layer info blocks: invalid additional layer info signature"
    );
    match metadata_scan_failed(ScanError::UnexpectedEnd, true, &mut warnings) {
        Err(AppError::PsdParse(m)) => assert_eq!(m, "unexpected end of stream"),
        _ => panic!("strict scan should fail"),
    }
    assert_eq!(warnings.len(), 1);
}

#[test]
fn layer_scans_merge_into_layers() {
    let (data, _) = document(&sample());
    let mut layers = scan_layer_records(&data).unwrap();
    let blocks: Vec<(String, BlockOutcome<&str, u8, u8, u8>)> = vec![
        ("TySh".to_string(), BlockOutcome::Text(Ok(("Hello", true, false)))),
        ("SoLd".to_string(), BlockOutcome::SmartObject),
        ("lfx2".to_string(), BlockOutcome::Effects(Err("unsupported layer effects descriptor version".to_string()))),
    ];
    let mut warnings: Vec<ExportWarning> = Vec::new();
    let extras = merge_layer_scan(&mut layers[1], assemble(blocks), &mut warnings);
    assert_eq!(layers[1].layer_type, LayerType::Text);
    assert_eq!(layers[1].name, "Layer 1");
    assert_eq!(extras.text, Some("Hello"));
    assert_eq!(extras.unsupported.len(), 1);
    assert_eq!(extras.unsupported[0].kind, "smart_object");
    assert_eq!(warnings.len(), 1);
    assert_eq!(warnings[0].code, "effects-parse-failed");

    let shape: Vec<(String, BlockOutcome<&str, u8, u8, u8>)> = vec![("vmsk".to_string(), BlockOutcome::ShapeHint)];
    let extras = merge_layer_scan(&mut layers[0], assemble(shape), &mut warnings);
    assert_eq!(layers[0].layer_type, LayerType::Shape);
    assert_eq!(extras.unsupported[0].kind, "shape_layer");
}
