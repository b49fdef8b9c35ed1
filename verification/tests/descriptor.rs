use psd2ugui::bytes::SliceCursor;
use psd2ugui::descriptor::{
    descriptor_bool_by_keys, descriptor_engine_data, descriptor_enum_by_keys, descriptor_number_by_keys,
    descriptor_object_by_keys, descriptor_text, first_object_from_list, read_descriptor, read_effects_block,
    read_stroke_block, read_type_tool_head, read_type_tool_tail, DescriptorError, DescriptorValue,
};
use psd2ugui::engine::{
    engine_lookup, engine_string_value, first_engine_array, first_engine_string, parse_engine_data, EngineValue,
};
use psd2ugui::layer_meta::{assemble_layer_scan, BlockOutcome, EffectUpdate};

fn id(out: &mut Vec<u8>, name: &[u8]) {
    if name.len() == 4 {
        out.extend_from_slice(&0u32.to_be_bytes());
    } else {
        out.extend_from_slice(&(name.len() as u32).to_be_bytes());
    }
    out.extend_from_slice(name);
}

fn descriptor_head(out: &mut Vec<u8>, count: u32) {
    out.extend_from_slice(&1u32.to_be_bytes());
    out.extend_from_slice(&[0, 0]);
    id(out, b"null");
    out.extend_from_slice(&count.to_be_bytes());
}

fn text_value(out: &mut Vec<u8>, units: &[u16]) {
    out.extend_from_slice(b"TEXT");
    out.extend_from_slice(&(units.len() as u32).to_be_bytes());
    for u in units {
        out.extend_from_slice(&u.to_be_bytes());
    }
}

fn color(out: &mut Vec<u8>) {
    out.extend_from_slice(b"Objc");
    descriptor_head(out, 1);
    id(out, b"Rd  ");
    out.extend_from_slice(b"doub");
    out.extend_from_slice(&255.0f64.to_bits().to_be_bytes());
}

fn sample() -> Vec<u8> {
    let mut d = Vec::new();
    descriptor_head(&mut d, 7);
    id(&mut d, b"Txt ");
    text_value(&mut d, &[0x48, 0x69, 0]);
    id(&mut d, b"Sz  ");
    d.extend_from_slice(b"UntF");
    d.extend_from_slice(b"#Pxl");
    d.extend_from_slice(&12.0f64.to_bits().to_be_bytes());
    id(&mut d, b"enab");
    d.extend_from_slice(b"bool");
    d.push(1);
    id(&mut d, b"Styl");
    d.extend_from_slice(b"enum");
    id(&mut d, b"FStl");
    id(&mut d, b"OutF");
    id(&mut d, b"Clr ");
    color(&mut d);
    id(&mut d, b"lst ");
    d.extend_from_slice(b"VlLs");
    d.extend_from_slice(&2u32.to_be_bytes());
    d.extend_from_slice(b"long");
    d.extend_from_slice(&7i32.to_be_bytes());
    color(&mut d);
    id(&mut d, b"EngineData");
    d.extend_from_slice(b"tdta");
    d.extend_from_slice(&5u32.to_be_bytes());
    d.extend_from_slice(&[b'<', b'<', b'>', 0, 0]);
    d
}

#[test]
fn descriptors_are_read_in_full() {
    let data = sample();
    let mut cursor = SliceCursor::new(&data);
    let desc = read_descriptor(&mut cursor).expect("descriptor should read");
    assert_eq!(cursor.position() as usize, data.len());
    assert_eq!(desc.class_id, "null");
    assert_eq!(desc.items.len(), 7);
    assert_eq!(descriptor_text(&desc), Some("Hi".to_string()));
    match descriptor_number_by_keys(&desc, &["Sz  "]) {
        Some(DescriptorValue::UnitFloat { unit, value }) => {
            assert_eq!(unit, "#Pxl");
            assert_eq!(f64::from_bits(*value), 12.0);
        }
        _ => panic!("expected a unit value"),
    }
    assert_eq!(descriptor_bool_by_keys(&desc, &["enab", "strokeEnabled"]), Some(true));
    assert_eq!(descriptor_enum_by_keys(&desc, &["Styl"]), Some("OutF".to_string()));
    assert_eq!(descriptor_enum_by_keys(&desc, &["Md  "]), None);
    let clr = descriptor_object_by_keys(&desc, &["color", "Clr "]).expect("color object");
    match descriptor_number_by_keys(clr, &["Rd  "]) {
        Some(DescriptorValue::Double(bits)) => assert_eq!(f64::from_bits(*bits), 255.0),
        _ => panic!("expected a double"),
    }
    let listed = first_object_from_list(&desc).expect("object in list");
    assert_eq!(listed.items.len(), 1);
    assert_eq!(descriptor_engine_data(&desc), Some(vec![b'<', b'<', b'>']));
}

#[test]
fn unknown_value_types_are_refused() {
    let mut d = Vec::new();
    descriptor_head(&mut d, 1);
    id(&mut d, b"abcd");
    d.extend_from_slice(b"xyzw");
    let mut cursor = SliceCursor::new(&d);
    match read_descriptor(&mut cursor) {
        Err(e) => assert_eq!(e.message(), "unsupported descriptor value type 'xyzw'"),
        Ok(_) => panic!("expected an error"),
    }
    let mut short = SliceCursor::new(&d[..10]);
    match read_descriptor(&mut short) {
        Err(e) => assert_eq!(e.message(), "unexpected end of stream"),
        Ok(_) => panic!("expected an error"),
    }
}

#[test]
fn engine_data_text_is_encoded_as_utf8() {
    let mut d = Vec::new();
    descriptor_head(&mut d, 1);
    id(&mut d, b"EngineData");
    text_value(&mut d, &[0xE9, 0x4E2D]);
    let mut cursor = SliceCursor::new(&d);
    let desc = read_descriptor(&mut cursor).unwrap();
    assert_eq!(descriptor_engine_data(&desc), Some("é中".as_bytes().to_vec()));
}

#[test]
fn block_versions_are_checked() {
    let mut stroke = Vec::new();
    stroke.extend_from_slice(&0u32.to_be_bytes());
    stroke.extend_from_slice(&15u32.to_be_bytes());
    match read_stroke_block(&mut SliceCursor::new(&stroke)) {
        Err(e) => assert_eq!(e.message(), "unsupported vector stroke descriptor version"),
        Ok(_) => panic!("expected an error"),
    }
    let mut good = 16u32.to_be_bytes().to_vec();
    descriptor_head(&mut good, 0);
    assert!(read_stroke_block(&mut SliceCursor::new(&good)).is_ok());

    let mut effects = Vec::new();
    effects.extend_from_slice(&1u32.to_be_bytes());
    effects.extend_from_slice(&16u32.to_be_bytes());
    assert!(matches!(
        read_effects_block(&mut SliceCursor::new(&effects)),
        Err(DescriptorError::UnsupportedEffectsVersion)
    ));
    let mut ok = Vec::new();
    ok.extend_from_slice(&0u32.to_be_bytes());
    ok.extend_from_slice(&16u32.to_be_bytes());
    descriptor_head(&mut ok, 0);
    assert!(read_effects_block(&mut SliceCursor::new(&ok)).is_ok());
}

#[test]
fn type_tool_blocks_are_framed() {
    let mut d = Vec::new();
    d.extend_from_slice(&1u16.to_be_bytes());
    for v in [2.0f64, 0.0, 0.0, 2.0, 10.0, 20.0] {
        d.extend_from_slice(&v.to_bits().to_be_bytes());
    }
    d.extend_from_slice(&50u16.to_be_bytes());
    d.extend_from_slice(&16u32.to_be_bytes());
    descriptor_head(&mut d, 0);
    let tail_start = d.len();
    d.extend_from_slice(&1u16.to_be_bytes());
    d.extend_from_slice(&16u32.to_be_bytes());
    descriptor_head(&mut d, 0);
    d.extend_from_slice(&[0; 16]);
    let mut cursor = SliceCursor::new(&d);
    let head = read_type_tool_head(&mut cursor).expect("head should read");
    assert_eq!(f64::from_bits(head.transform[0]), 2.0);
    assert_eq!(f64::from_bits(head.transform[5]), 20.0);
    assert_eq!(cursor.position() as usize, tail_start);
    assert!(read_type_tool_tail(&mut cursor).is_ok());
    assert_eq!(cursor.position() as usize, d.len());
}

#[test]
fn engine_dictionaries_and_arrays_parse() {
    let data = b"<< /A 1 /B [ (x) /N true null -2.5 ] /A 3 >> trailing";
    let root = parse_engine_data(data).expect("engine data should parse");
    match &root {
        EngineValue::Dict(entries) => {
            assert_eq!(entries.len(), 2);
            assert_eq!(entries[0].0, "A");
            assert!(matches!(&entries[0].1, EngineValue::Atom(a) if a == "3"));
        }
        _ => panic!("expected a dictionary"),
    }
    let second = engine_lookup(&root, &["B", "1"]).expect("path should resolve");
    assert_eq!(engine_string_value(second), Some("N".to_string()));
    assert!(matches!(engine_lookup(&root, &["B", "2"]), Some(EngineValue::Bool(true))));
    assert!(matches!(engine_lookup(&root, &["B", "3"]), Some(EngineValue::Null)));
    assert!(engine_lookup(&root, &["B", "9"]).is_none());
    assert!(engine_lookup(&root, &["C"]).is_none());
    assert_eq!(first_engine_string(&root, &[&["Z"][..], &["B", "0"][..]]), Some("x".to_string()));
    assert_eq!(first_engine_array(&root, &[&["A"][..], &["B"][..]]).map(|v| v.len()), Some(5));
}

#[test]
fn malformed_engine_data_is_refused() {
    assert_eq!(parse_engine_data(b"[1 2").err(), Some("unterminated engine array".to_string()));
    assert_eq!(parse_engine_data(b"[ ) ]").err(), Some("unexpected delimiter in engine array".to_string()));
    assert_eq!(parse_engine_data(b"<< 5 >>").err(), Some("expected '/'".to_string()));
}

#[test]
fn layer_scans_follow_block_order() {
    let blocks: Vec<(String, BlockOutcome<&str, u8, u16, u32>)> = vec![
        ("TySh".to_string(), BlockOutcome::Text(Ok(("t", true, true)))),
        ("SoCo".to_string(), BlockOutcome::Fill(Err("bad fill".to_string()))),
        ("vstk".to_string(), BlockOutcome::Stroke(Ok(2))),
        ("vmsk".to_string(), BlockOutcome::ShapeHint),
        ("lfx2".to_string(), BlockOutcome::Effects(Ok(3))),
        ("PlLd".to_string(), BlockOutcome::SmartObject),
    ];
    let scan = assemble_layer_scan(blocks);
    assert_eq!(scan.text, Some("t"));
    assert!(scan.shape_detected);
    assert!(scan.smart_object_detected);
    assert_eq!(scan.warnings.len(), 2);
    assert_eq!(scan.warnings[0].code, "text-content-missing");
    assert_eq!(scan.warnings[1].code, "shape-fill-parse-failed");
    assert_eq!(scan.warnings[1].message, "bad fill");
    assert_eq!(scan.unsupported.len(), 1);
    assert_eq!(scan.unsupported[0].kind, "shape_layer");
    assert_eq!(
        scan.unsupported[0].reason,
        "shape metadata block 'vmsk' is preserved as a shape hint, but phase one only extracts basic fill and stroke semantics"
    );
    assert_eq!(scan.effect_updates.len(), 2);
    assert!(matches!(scan.effect_updates[0], EffectUpdate::Stroke(2)));
    assert!(matches!(scan.effect_updates[1], EffectUpdate::Merge(3)));
}

#[test]
fn text_without_runs_is_not_kept() {
    let blocks: Vec<(String, BlockOutcome<&str, u8, u16, u32>)> =
        vec![("TySh".to_string(), BlockOutcome::Text(Ok(("t", false, false))))];
    let scan = assemble_layer_scan(blocks);
    assert_eq!(scan.text, None);
    assert_eq!(scan.warnings[0].code, "text-character-runs-missing");
}

#[test]
fn engine_data_text_of_every_width_is_encoded_as_utf8() {
    let mut d = Vec::new();
    descriptor_head(&mut d, 1);
    id(&mut d, b"EngineData");
    text_value(&mut d, &[0x41, 0xE9, 0x4E2D, 0xD83D, 0xDE00]);
    let mut cursor = SliceCursor::new(&d);
    let desc = read_descriptor(&mut cursor).unwrap();
    assert_eq!(descriptor_engine_data(&desc), Some("Aé中😀".as_bytes().to_vec()));
}

#[test]
fn engine_array_indices_read_like_usize() {
    let root = parse_engine_data(b"<< /B [ (x) (y) ] >>").expect("engine data should parse");
    assert_eq!(first_engine_string(&root, &[&["B", "+1"][..]]), Some("y".to_string()));
    assert_eq!(first_engine_string(&root, &[&["B", "01"][..]]), Some("y".to_string()));
    assert!(engine_lookup(&root, &["B", "-1"]).is_none());
    assert!(engine_lookup(&root, &["B", "+"]).is_none());
    assert!(engine_lookup(&root, &["B", ""]).is_none());
    assert!(engine_lookup(&root, &["B", "1x"]).is_none());
    assert!(engine_lookup(&root, &["B", "99999999999999999999999"]).is_none());
}
