use vstd::prelude::*;

use crate::bytes::{be_u16_at, be_u32_at, ScanError, SliceCursor};
use crate::psd::{bytes_are, layer_count_of, name_padding, sig_8b64, sig_8bim, sig_8bps};

verus! {

/// Where an additional layer information block lies: its key and the
/// position and length of its payload.
#[derive(Debug, Clone, Copy)]
pub struct InfoBlock {
    pub key: [u8; 4],
    pub start: usize,
    pub len: usize,
}

pub struct InfoBlockView {
    pub key: Seq<u8>,
    pub start: int,
    pub len: int,
}

impl View for InfoBlock {
    type V = InfoBlockView;

    open spec fn view(&self) -> InfoBlockView {
        InfoBlockView { key: self.key@, start: self.start as int, len: self.len as int }
    }
}

/// The views of a layer's blocks.
pub open spec fn block_views(s: Seq<InfoBlock>) -> Seq<InfoBlockView> {
    s.map_values(|b: InfoBlock| b@)
}

/// The views of every layer's blocks.
pub open spec fn layer_block_views(s: Seq<Vec<InfoBlock>>) -> Seq<Seq<InfoBlockView>> {
    s.map_values(|v: Vec<InfoBlock>| block_views(v@))
}

/// The additional information blocks of a layer record from `p` while `p`
/// lies before `end`, after the blocks `acc`: each has an `8BIM` or `8B64`
/// signature, a key, a length and a payload that must lie within the bytes.
pub open spec fn spec_meta_blocks(d: Seq<u8>, p: int, end: int, acc: Seq<InfoBlockView>) -> Result<
    Seq<InfoBlockView>,
    ScanError,
>
    decreases d.len() - p,
{
    if p >= end {
        Ok(acc)
    } else if p + 4 > d.len() {
        Err(ScanError::UnexpectedEnd)
    } else if d.subrange(p, p + 4) != sig_8bim() && d.subrange(p, p + 4) != sig_8b64() {
        Err(ScanError::InvalidAdditionalInfoSignature)
    } else if p + 12 > d.len() {
        Err(ScanError::UnexpectedEnd)
    } else {
        let b = p + 12;
        let len = be_u32_at(d, p + 8);
        proof {
            assert(len >= 0);
        }
        if b + len > d.len() {
            Err(ScanError::UnexpectedEnd)
        } else {
            spec_meta_blocks(d, b + len, end, acc.push(InfoBlockView { key: d.subrange(p + 4, p + 8), start: b, len }))
        }
    }
}

/// The blocks of the layer record at `p` and the position after it.
pub open spec fn spec_meta_record(d: Seq<u8>, p: int) -> Result<(Seq<InfoBlockView>, int), ScanError> {
    if p + 18 > d.len() {
        Err(ScanError::UnexpectedEnd)
    } else {
        let q = p + 18 + be_u16_at(d, p + 16) * 6;
        if q + 4 > d.len() {
            Err(ScanError::UnexpectedEnd)
        } else if d.subrange(q, q + 4) != sig_8bim() {
            Err(ScanError::InvalidLayerBlendSignature)
        } else if q + 16 > d.len() {
            Err(ScanError::UnexpectedEnd)
        } else {
            let extra_end = q + 16 + be_u32_at(d, q + 12);
            let r = q + 16;
            if r + 4 > d.len() {
                Err(ScanError::UnexpectedEnd)
            } else {
                let r2 = r + 4 + be_u32_at(d, r);
                if r2 + 4 > d.len() {
                    Err(ScanError::UnexpectedEnd)
                } else {
                    let r3 = r2 + 4 + be_u32_at(d, r2);
                    if r3 + 1 > d.len() {
                        Err(ScanError::UnexpectedEnd)
                    } else {
                        let name_len = d[r3] as int;
                        let r5 = r3 + 1 + name_len + name_padding(name_len);
                        if r5 > d.len() {
                            Err(ScanError::UnexpectedEnd)
                        } else {
                            match spec_meta_blocks(d, r5, extra_end, seq![]) {
                                Err(e) => Err(e),
                                Ok(bs) => if extra_end > d.len() {
                                    Err(ScanError::UnexpectedEnd)
                                } else {
                                    Ok((bs, extra_end))
                                },
                            }
                        }
                    }
                }
            }
        }
    }
}

/// The blocks of `n` consecutive layer records from `p`, after `acc`.
pub open spec fn spec_meta_records(d: Seq<u8>, p: int, n: nat, acc: Seq<Seq<InfoBlockView>>) -> Result<
    Seq<Seq<InfoBlockView>>,
    ScanError,
>
    decreases n,
{
    if n == 0 {
        Ok(acc)
    } else {
        match spec_meta_record(d, p) {
            Err(e) => Err(e),
            Ok((bs, next)) => spec_meta_records(d, next, (n - 1) as nat, acc.push(bs)),
        }
    }
}

/// Where the layer records start, how many there are, and where the layer
/// information and the layer and mask section end; `None` when there are
/// no layers (the layer and mask section must then still fit).
pub open spec fn spec_meta_start(d: Seq<u8>) -> Result<Option<(int, nat, int, int)>, ScanError> {
    if d.len() < 4 {
        Err(ScanError::UnexpectedEnd)
    } else if d.subrange(0, 4) != sig_8bps() {
        Err(ScanError::InvalidSignature)
    } else if d.len() < 6 {
        Err(ScanError::UnexpectedEnd)
    } else if be_u16_at(d, 4) != 1 {
        Err(ScanError::UnsupportedVersion)
    } else if d.len() < 30 {
        Err(ScanError::UnexpectedEnd)
    } else {
        let p1 = 30 + be_u32_at(d, 26);
        if p1 + 4 > d.len() {
            Err(ScanError::UnexpectedEnd)
        } else {
            let p2 = p1 + 4 + be_u32_at(d, p1);
            if p2 + 4 > d.len() {
                Err(ScanError::UnexpectedEnd)
            } else if be_u32_at(d, p2) == 0 {
                Ok(None)
            } else {
                let mask_end = p2 + 4 + be_u32_at(d, p2);
                if p2 + 8 > d.len() {
                    Err(ScanError::UnexpectedEnd)
                } else if be_u32_at(d, p2 + 4) == 0 {
                    if mask_end > d.len() {
                        Err(ScanError::UnexpectedEnd)
                    } else {
                        Ok(None)
                    }
                } else if p2 + 10 > d.len() {
                    Err(ScanError::UnexpectedEnd)
                } else {
                    Ok(
                        Some(
                            (
                                p2 + 10,
                                layer_count_of(be_u16_at(d, p2 + 8)),
                                p2 + 8 + be_u32_at(d, p2 + 4),
                                mask_end,
                            ),
                        ),
                    )
                }
            }
        }
    }
}

/// The additional information blocks of every layer record of a PSD file,
/// bottom-most layer first; the layer information and the layer and mask
/// section must fit in the bytes.
pub open spec fn spec_scan_layer_metadata(d: Seq<u8>) -> Result<Seq<Seq<InfoBlockView>>, ScanError> {
    match spec_meta_start(d) {
        Err(e) => Err(e),
        Ok(None) => Ok(seq![]),
        Ok(Some((p, n, info_end, mask_end))) => match spec_meta_records(d, p, n, seq![]) {
            Err(e) => Err(e),
            Ok(s) => if info_end > d.len() || mask_end > d.len() {
                Err(ScanError::UnexpectedEnd)
            } else {
                Ok(s)
            },
        },
    }
}

fn scan_meta_blocks(cursor: &mut SliceCursor, end: u64) -> (r: Result<Vec<InfoBlock>, ScanError>)
    requires
        old(cursor).wf(),
    ensures
        final(cursor).wf(),
        final(cursor).data() == old(cursor).data(),
        r matches Ok(v) ==> spec_meta_blocks(old(cursor).data(), old(cursor).pos(), end as int, seq![]) == Ok::<
            Seq<InfoBlockView>,
            ScanError,
        >(block_views(v@)),
        r matches Err(e) ==> spec_meta_blocks(old(cursor).data(), old(cursor).pos(), end as int, seq![]) == Err::<
            Seq<InfoBlockView>,
            ScanError,
        >(e),
{
    let ghost d = cursor.data();
    let ghost p0 = cursor.pos();
    let mut out: Vec<InfoBlock> = Vec::new();
    proof {
        cursor.lemma_bounds();
        assert(block_views(out@) =~= Seq::<InfoBlockView>::empty());
    }
    while cursor.position() < end
        invariant
            cursor.wf(),
            cursor.data() == d,
            d == old(cursor).data(),
            p0 == old(cursor).pos(),
            spec_meta_blocks(d, p0, end as int, seq![]) == spec_meta_blocks(d, cursor.pos(), end as int, block_views(out@)),
        decreases d.len() - cursor.pos(),
    {
        proof {
            cursor.lemma_bounds();
        }
        let ghost here = cursor.pos();
        let ghost acc = block_views(out@);
        let signature = cursor.read_b4()?;
        if !bytes_are(signature, 0x38, 0x42, 0x49, 0x4D) && !bytes_are(signature, 0x38, 0x42, 0x36, 0x34) {
            assert(sig_8bim() == seq![0x38u8, 0x42u8, 0x49u8, 0x4Du8]);
            assert(sig_8b64() == seq![0x38u8, 0x42u8, 0x36u8, 0x34u8]);
            return Err(ScanError::InvalidAdditionalInfoSignature);
        }
        let key = cursor.read_b4()?;
        let len = cursor.read_u32()?;
        proof {
            cursor.lemma_bounds();
        }
        let start = cursor.position();
        cursor.skip(len as u64)?;
        let block = InfoBlock { key, start: start as usize, len: len as usize };
        assert(d.subrange(here + 4, here + 8) == key@);
        out.push(block);
        assert(block_views(out@) =~= acc.push(
            InfoBlockView { key: d.subrange(here + 4, here + 8), start: here + 12, len: be_u32_at(d, here + 8) },
        ));
    }
    Ok(out)
}

fn scan_meta_record(cursor: &mut SliceCursor) -> (r: Result<Vec<InfoBlock>, ScanError>)
    requires
        old(cursor).wf(),
    ensures
        final(cursor).wf(),
        final(cursor).data() == old(cursor).data(),
        r matches Ok(v) ==> spec_meta_record(old(cursor).data(), old(cursor).pos()) == Ok::<
            (Seq<InfoBlockView>, int),
            ScanError,
        >((block_views(v@), final(cursor).pos())),
        r matches Err(e) ==> spec_meta_record(old(cursor).data(), old(cursor).pos()) == Err::<
            (Seq<InfoBlockView>, int),
            ScanError,
        >(e),
{
    proof {
        cursor.lemma_bounds();
    }
    let ghost d = cursor.data();
    let ghost p = cursor.pos();
    cursor.skip(16)?;
    let channel_count = cursor.read_u16()? as u64;
    cursor.skip(channel_count * 6)?;
    let ghost q = cursor.pos();
    let blend_signature = cursor.read_b4()?;
    if !bytes_are(blend_signature, 0x38, 0x42, 0x49, 0x4D) {
        assert(sig_8bim() == seq![0x38u8, 0x42u8, 0x49u8, 0x4Du8]);
        return Err(ScanError::InvalidLayerBlendSignature);
    }
    cursor.skip(4)?;
    cursor.skip(4)?;
    let extra_len = cursor.read_u32()? as u64;
    proof {
        cursor.lemma_bounds();
    }
    let extra_end = cursor.position() + extra_len;
    let mask_len = cursor.read_u32()? as u64;
    cursor.skip(mask_len)?;
    let ranges_len = cursor.read_u32()? as u64;
    cursor.skip(ranges_len)?;
    let name_len = cursor.read_u8()? as u64;
    cursor.skip(name_len)?;
    let padding = (4 - ((name_len + 1) % 4)) % 4;
    assert(padding as int == name_padding(name_len as int));
    cursor.skip(padding)?;
    let blocks = scan_meta_blocks(cursor, extra_end)?;
    cursor.set_position(extra_end)?;
    Ok(blocks)
}

fn scan_meta_records(cursor: &mut SliceCursor, layer_count: usize) -> (r: Result<Vec<Vec<InfoBlock>>, ScanError>)
    requires
        old(cursor).wf(),
    ensures
        final(cursor).wf(),
        final(cursor).data() == old(cursor).data(),
        r matches Ok(v) ==> spec_meta_records(old(cursor).data(), old(cursor).pos(), layer_count as nat, seq![])
            == Ok::<Seq<Seq<InfoBlockView>>, ScanError>(layer_block_views(v@)),
        r matches Err(e) ==> spec_meta_records(old(cursor).data(), old(cursor).pos(), layer_count as nat, seq![])
            == Err::<Seq<Seq<InfoBlockView>>, ScanError>(e),
{
    let ghost d = cursor.data();
    let ghost p = cursor.pos();
    let mut scans: Vec<Vec<InfoBlock>> = Vec::new();
    let mut i: usize = 0;
    assert(layer_block_views(scans@) =~= Seq::<Seq<InfoBlockView>>::empty());
    while i < layer_count
        invariant
            cursor.wf(),
            cursor.data() == d,
            d == old(cursor).data(),
            p == old(cursor).pos(),
            i <= layer_count,
            spec_meta_records(d, p, layer_count as nat, seq![]) == spec_meta_records(
                d,
                cursor.pos(),
                (layer_count - i) as nat,
                layer_block_views(scans@),
            ),
        decreases layer_count - i,
    {
        let ghost acc = layer_block_views(scans@);
        let blocks = scan_meta_record(cursor)?;
        scans.push(blocks);
        assert(layer_block_views(scans@) =~= acc.push(block_views(blocks@)));
        i = i + 1;
    }
    proof {
        assert(spec_meta_records(d, cursor.pos(), 0, layer_block_views(scans@)) == Ok::<
            Seq<Seq<InfoBlockView>>,
            ScanError,
        >(layer_block_views(scans@)));
    }
    Ok(scans)
}

/// The additional information blocks of every layer record of a PSD file,
/// bottom-most layer first (see `spec_scan_layer_metadata`), without
/// decoding them.
pub fn scan_layer_metadata(data: &[u8]) -> (r: Result<Vec<Vec<InfoBlock>>, ScanError>)
    requires
        data@.len() <= isize::MAX,
    ensures
        r matches Ok(v) ==> spec_scan_layer_metadata(data@) == Ok::<Seq<Seq<InfoBlockView>>, ScanError>(
            layer_block_views(v@),
        ),
        r matches Err(e) ==> spec_scan_layer_metadata(data@) == Err::<Seq<Seq<InfoBlockView>>, ScanError>(e),
{
    let ghost d = data@;
    let mut cursor = SliceCursor::new(data);
    let signature = cursor.read_b4()?;
    if !bytes_are(signature, 0x38, 0x42, 0x50, 0x53) {
        assert(sig_8bps() == seq![0x38u8, 0x42u8, 0x50u8, 0x53u8]);
        return Err(ScanError::InvalidSignature);
    }
    let version = cursor.read_u16()?;
    if version != 1 {
        return Err(ScanError::UnsupportedVersion);
    }
    cursor.skip(6)?;
    cursor.skip(2 + 4 + 4 + 2 + 2)?;
    let color_mode_length = cursor.read_u32()? as u64;
    cursor.skip(color_mode_length)?;
    let image_resources_length = cursor.read_u32()? as u64;
    cursor.skip(image_resources_length)?;
    let layer_mask_length = cursor.read_u32()? as u64;
    if layer_mask_length == 0 {
        assert(layer_block_views(Seq::<Vec<InfoBlock>>::empty()) =~= Seq::<Seq<InfoBlockView>>::empty());
        return Ok(Vec::new());
    }
    proof {
        cursor.lemma_bounds();
    }
    let layer_mask_end = cursor.position() + layer_mask_length;
    let layer_info_length = cursor.read_u32()? as u64;
    if layer_info_length == 0 {
        cursor.set_position(layer_mask_end)?;
        assert(layer_block_views(Seq::<Vec<InfoBlock>>::empty()) =~= Seq::<Seq<InfoBlockView>>::empty());
        return Ok(Vec::new());
    }
    proof {
        cursor.lemma_bounds();
    }
    let layer_info_end = cursor.position() + layer_info_length;
    let raw_count = cursor.read_u16()?;
    let layer_count: usize = if raw_count >= 32768 {
        (65536 - raw_count as u32) as usize
    } else {
        raw_count as usize
    };
    let scans = scan_meta_records(&mut cursor, layer_count)?;
    cursor.set_position(layer_info_end)?;
    cursor.set_position(layer_mask_end)?;
    Ok(scans)
}

} // verus!

verus! {

/// What an additional layer information block holds, as far as the export
/// cares.
#[derive(Debug, Clone, Copy, PartialEq, Eq, Structural)]
pub enum BlockKind {
    /// `TySh`: type tool data.
    TypeTool,
    /// `SoCo`: a solid color fill.
    SolidColor,
    /// `vstk` or `vscg`: a vector stroke.
    VectorStroke,
    /// `GdFl`, `PtFl`, `vmsk` or `vsms`: a shape the export keeps as a hint.
    ShapeHint,
    /// `lfx2`: layer effects.
    Effects,
    /// `SoLd`, `lnkD`, `lnk2`, `PlLd` or `sn2P`: smart object data.
    SmartObject,
    Other,
}

/// The four ASCII bytes of a block key.
pub open spec fn key_bytes(k: Seq<char>) -> Seq<u8> {
    k.map_values(|c: char| c as u8)
}

/// The kind of block a key names.
pub open spec fn spec_block_kind(key: Seq<u8>) -> BlockKind {
    if key == key_bytes("TySh"@) {
        BlockKind::TypeTool
    } else if key == key_bytes("SoCo"@) {
        BlockKind::SolidColor
    } else if key == key_bytes("vstk"@) || key == key_bytes("vscg"@) {
        BlockKind::VectorStroke
    } else if key == key_bytes("GdFl"@) || key == key_bytes("PtFl"@) || key == key_bytes("vmsk"@) || key
        == key_bytes("vsms"@) {
        BlockKind::ShapeHint
    } else if key == key_bytes("lfx2"@) {
        BlockKind::Effects
    } else if key == key_bytes("SoLd"@) || key == key_bytes("lnkD"@) || key == key_bytes("lnk2"@) || key
        == key_bytes("PlLd"@) || key == key_bytes("sn2P"@) {
        BlockKind::SmartObject
    } else {
        BlockKind::Other
    }
}

fn key_is(key: [u8; 4], name: &str) -> (r: bool)
    requires
        name@.len() == 4,
    ensures
        r == (key@ == key_bytes(name@)),
{
    let cs = crate::text::chars_of(name);
    let r = key[0] == cs[0] as u8 && key[1] == cs[1] as u8 && key[2] == cs[2] as u8 && key[3] == cs[3] as u8;
    proof {
        if r {
            assert(key@ =~= key_bytes(name@));
        }
        if key@ == key_bytes(name@) {
            assert(key@[0] == key_bytes(name@)[0]);
            assert(key@[1] == key_bytes(name@)[1]);
            assert(key@[2] == key_bytes(name@)[2]);
            assert(key@[3] == key_bytes(name@)[3]);
        }
    }
    r
}

/// The kind of block a key names (see `spec_block_kind`).
pub fn block_kind(key: [u8; 4]) -> (k: BlockKind)
    ensures
        k == spec_block_kind(key@),
{
    proof {
        reveal_strlit("TySh");
        reveal_strlit("SoCo");
        reveal_strlit("vstk");
        reveal_strlit("vscg");
        reveal_strlit("GdFl");
        reveal_strlit("PtFl");
        reveal_strlit("vmsk");
        reveal_strlit("vsms");
        reveal_strlit("lfx2");
        reveal_strlit("SoLd");
        reveal_strlit("lnkD");
        reveal_strlit("lnk2");
        reveal_strlit("PlLd");
        reveal_strlit("sn2P");
    }
    if key_is(key, "TySh") {
        BlockKind::TypeTool
    } else if key_is(key, "SoCo") {
        BlockKind::SolidColor
    } else if key_is(key, "vstk") || key_is(key, "vscg") {
        BlockKind::VectorStroke
    } else if key_is(key, "GdFl") || key_is(key, "PtFl") || key_is(key, "vmsk") || key_is(key, "vsms") {
        BlockKind::ShapeHint
    } else if key_is(key, "lfx2") {
        BlockKind::Effects
    } else if key_is(key, "SoLd") || key_is(key, "lnkD") || key_is(key, "lnk2") || key_is(key, "PlLd") || key_is(
        key,
        "sn2P",
    ) {
        BlockKind::SmartObject
    } else {
        BlockKind::Other
    }
}

/// Whether any of a layer's blocks shows it is a shape layer.
pub open spec fn spec_shape_detected(blocks: Seq<InfoBlockView>) -> bool {
    exists|i: int|
        0 <= i < blocks.len() && (spec_block_kind(blocks[i].key) == BlockKind::SolidColor || spec_block_kind(
            blocks[i].key,
        ) == BlockKind::VectorStroke || spec_block_kind(blocks[i].key) == BlockKind::ShapeHint)
}

/// Whether any of a layer's blocks holds smart object data.
pub open spec fn spec_smart_object_detected(blocks: Seq<InfoBlockView>) -> bool {
    exists|i: int| 0 <= i < blocks.len() && spec_block_kind(blocks[i].key) == BlockKind::SmartObject
}

/// Whether a layer's blocks show a shape layer (see `spec_shape_detected`).
pub fn shape_detected(blocks: &Vec<InfoBlock>) -> (r: bool)
    ensures
        r == spec_shape_detected(block_views(blocks@)),
{
    let ghost v = block_views(blocks@);
    let mut i: usize = 0;
    while i < blocks.len()
        invariant
            i <= blocks@.len(),
            v == block_views(blocks@),
            forall|k: int|
                0 <= k < i ==> !(spec_block_kind(#[trigger] v[k].key) == BlockKind::SolidColor || spec_block_kind(
                    v[k].key,
                ) == BlockKind::VectorStroke || spec_block_kind(v[k].key) == BlockKind::ShapeHint),
        decreases blocks.len() - i,
    {
        let k = block_kind(blocks[i].key);
        assert(v[i as int].key == blocks@[i as int].key@);
        if k == BlockKind::SolidColor || k == BlockKind::VectorStroke || k == BlockKind::ShapeHint {
            return true;
        }
        i = i + 1;
    }
    false
}

/// Whether a layer's blocks hold smart object data.
pub fn smart_object_detected(blocks: &Vec<InfoBlock>) -> (r: bool)
    ensures
        r == spec_smart_object_detected(block_views(blocks@)),
{
    let ghost v = block_views(blocks@);
    let mut i: usize = 0;
    while i < blocks.len()
        invariant
            i <= blocks@.len(),
            v == block_views(blocks@),
            forall|k: int| 0 <= k < i ==> spec_block_kind(#[trigger] v[k].key) != BlockKind::SmartObject,
        decreases blocks.len() - i,
    {
        let k = block_kind(blocks[i].key);
        assert(v[i as int].key == blocks@[i as int].key@);
        if k == BlockKind::SmartObject {
            return true;
        }
        i = i + 1;
    }
    false
}

/// The kind of a layer once its blocks are known: text when its type tool
/// data has character runs, else a shape when a block says so, else as read.
pub open spec fn spec_scanned_layer_type(
    read: crate::psd::LayerType,
    has_text_runs: bool,
    shape: bool,
) -> crate::psd::LayerType {
    if has_text_runs {
        crate::psd::LayerType::Text
    } else if shape {
        crate::psd::LayerType::Shape
    } else {
        read
    }
}

/// The kind of a layer once its blocks are known (see `spec_scanned_layer_type`).
pub fn scanned_layer_type(read: crate::psd::LayerType, has_text_runs: bool, shape: bool) -> (t: crate::psd::LayerType)
    ensures
        t == spec_scanned_layer_type(read, has_text_runs, shape),
{
    if has_text_runs {
        crate::psd::LayerType::Text
    } else if shape {
        crate::psd::LayerType::Shape
    } else {
        read
    }
}

} // verus!

verus! {

/// A descriptor identifier at `p`: a length (0 standing for 4) and that
/// many bytes, decoded as UTF-8 with invalid sequences replaced; gives the
/// identifier and the position after it.
pub open spec fn spec_pascal_id(d: Seq<u8>, p: int) -> Result<(Seq<char>, int), ScanError> {
    if p + 4 > d.len() {
        Err(ScanError::UnexpectedEnd)
    } else {
        let stated = be_u32_at(d, p);
        let len = if stated == 0 { 4 } else { stated };
        if p + 4 + len > d.len() {
            Err(ScanError::UnexpectedEnd)
        } else {
            Ok((crate::psd::utf8_lossy(d.subrange(p + 4, p + 4 + len)), p + 4 + len))
        }
    }
}

/// Reads a descriptor identifier (see `spec_pascal_id`).
pub fn read_pascal_id(cursor: &mut SliceCursor) -> (r: Result<String, ScanError>)
    requires
        old(cursor).wf(),
    ensures
        final(cursor).wf(),
        final(cursor).data() == old(cursor).data(),
        match spec_pascal_id(old(cursor).data(), old(cursor).pos()) {
            Ok((s, next)) => r matches Ok(x) && x@ == s && final(cursor).pos() == next,
            Err(e) => r matches Err(x) && x == e,
        },
{
    proof {
        cursor.lemma_bounds();
    }
    let mut len = cursor.read_u32()?;
    if len == 0 {
        len = 4;
    }
    let bytes = cursor.read_bytes(len as usize)?;
    Ok(crate::psd::decode_utf8_lossy(bytes.as_slice()))
}

/// Reads four bytes as text, decoded as UTF-8 with invalid sequences replaced.
pub fn read_b4_string(cursor: &mut SliceCursor) -> (r: Result<String, ScanError>)
    requires
        old(cursor).wf(),
    ensures
        final(cursor).wf(),
        final(cursor).data() == old(cursor).data(),
        old(cursor).pos() + 4 <= old(cursor).data().len() ==> (r matches Ok(s) && s@ == crate::psd::utf8_lossy(
            old(cursor).data().subrange(old(cursor).pos(), old(cursor).pos() + 4),
        ) && final(cursor).pos() == old(cursor).pos() + 4),
        old(cursor).pos() + 4 > old(cursor).data().len() ==> (r matches Err(e) && e == ScanError::UnexpectedEnd),
{
    let b = cursor.read_b4()?;
    Ok(crate::psd::decode_utf8_lossy(&b))
}

} // verus!

verus! {

/// What reading one additional information block gave: parsed type tool
/// text (with whether it has character runs and whether its content is
/// empty) or why it failed, a fill, a stroke, effects, or a kind that
/// carries nothing to read.
pub enum BlockOutcome<T, F, S, E> {
    Text(Result<(T, bool, bool), String>),
    Fill(Result<F, String>),
    Stroke(Result<S, String>),
    ShapeHint,
    Effects(Result<E, String>),
    SmartObject,
    Other,
}

/// A change to a layer's effects, applied in block order.
pub enum EffectUpdate<F, S, E> {
    Fill(F),
    Stroke(S),
    Merge(E),
}

/// What the blocks of a layer say: its text, its effect changes in order,
/// whether it is a shape or a smart object, what is not fully supported,
/// and the warnings.
pub struct LayerScan<T, F, S, E> {
    pub text: Option<T>,
    pub effect_updates: Vec<EffectUpdate<F, S, E>>,
    pub shape_detected: bool,
    pub smart_object_detected: bool,
    pub unsupported: Vec<crate::export_model::UnsupportedInfo>,
    pub warnings: Vec<crate::export_model::ExportWarning>,
}

/// A layer scan as plain values.
pub struct LayerScanView<T, F, S, E> {
    pub text: Option<T>,
    pub effect_updates: Seq<EffectUpdate<F, S, E>>,
    pub shape_detected: bool,
    pub smart_object_detected: bool,
    pub unsupported: Seq<(Seq<char>, Seq<char>)>,
    pub warnings: Seq<crate::export_model::WarningView>,
}

pub open spec fn unsupported_views(s: Seq<crate::export_model::UnsupportedInfo>) -> Seq<(Seq<char>, Seq<char>)> {
    s.map_values(|u: crate::export_model::UnsupportedInfo| (u.kind@, u.reason@))
}

pub open spec fn scan_view<T, F, S, E>(s: LayerScan<T, F, S, E>) -> LayerScanView<T, F, S, E> {
    LayerScanView {
        text: s.text,
        effect_updates: s.effect_updates@,
        shape_detected: s.shape_detected,
        smart_object_detected: s.smart_object_detected,
        unsupported: unsupported_views(s.unsupported@),
        warnings: crate::export_model::export_warning_views(s.warnings@),
    }
}

pub open spec fn doc_warning(code: Seq<char>, message: Seq<char>) -> crate::export_model::WarningView {
    crate::export_model::WarningView { code, message, layer_name: None }
}

/// The reason a shape block is kept only as a hint.
pub open spec fn shape_hint_reason(key: Seq<char>) -> Seq<char> {
    "shape metadata block '"@ + key
        + "' is preserved as a shape hint, but phase one only extracts basic fill and stroke semantics"@
}

/// A layer scan after one more block with key `key` (decoded as text):
/// type tool text without character runs is only warned about, text with
/// runs is kept (with a warning when its content is empty); a fill or a
/// stroke marks a shape and changes the effects; other shape blocks mark a
/// shape and are reported as not fully supported; effects are merged;
/// smart object blocks mark a smart object; each failure is warned about.
pub open spec fn scan_step<T, F, S, E>(
    s: LayerScanView<T, F, S, E>,
    key: Seq<char>,
    o: BlockOutcome<T, F, S, E>,
) -> LayerScanView<T, F, S, E> {
    match o {
        BlockOutcome::Text(Ok((t, has_runs, empty))) => if !has_runs {
            LayerScanView {
                warnings: s.warnings.push(
                    doc_warning(
                        "text-character-runs-missing"@,
                        "type tool data was detected but no character runs were extracted; layer will not be treated as text"@,
                    ),
                ),
                ..s
            }
        } else if empty {
            LayerScanView {
                text: Some(t),
                warnings: s.warnings.push(
                    doc_warning(
                        "text-content-missing"@,
                        "character runs were extracted but text content was empty"@,
                    ),
                ),
                ..s
            }
        } else {
            LayerScanView { text: Some(t), ..s }
        },
        BlockOutcome::Text(Err(m)) => LayerScanView {
            warnings: s.warnings.push(doc_warning("text-parse-failed"@, m@)),
            ..s
        },
        BlockOutcome::Fill(Ok(f)) => LayerScanView {
            shape_detected: true,
            effect_updates: s.effect_updates.push(EffectUpdate::Fill(f)),
            ..s
        },
        BlockOutcome::Fill(Err(m)) => LayerScanView {
            shape_detected: true,
            warnings: s.warnings.push(doc_warning("shape-fill-parse-failed"@, m@)),
            ..s
        },
        BlockOutcome::Stroke(Ok(st)) => LayerScanView {
            shape_detected: true,
            effect_updates: s.effect_updates.push(EffectUpdate::Stroke(st)),
            ..s
        },
        BlockOutcome::Stroke(Err(m)) => LayerScanView {
            shape_detected: true,
            warnings: s.warnings.push(doc_warning("shape-stroke-parse-failed"@, m@)),
            ..s
        },
        BlockOutcome::ShapeHint => LayerScanView {
            shape_detected: true,
            unsupported: s.unsupported.push(("shape_layer"@, shape_hint_reason(key))),
            ..s
        },
        BlockOutcome::Effects(Ok(e)) => LayerScanView {
            effect_updates: s.effect_updates.push(EffectUpdate::Merge(e)),
            ..s
        },
        BlockOutcome::Effects(Err(m)) => LayerScanView {
            warnings: s.warnings.push(doc_warning("effects-parse-failed"@, m@)),
            ..s
        },
        BlockOutcome::SmartObject => LayerScanView { smart_object_detected: true, ..s },
        BlockOutcome::Other => s,
    }
}

/// A layer scan after the blocks `bs[..k]`, from an empty one.
pub open spec fn scan_blocks<T, F, S, E>(bs: Seq<(String, BlockOutcome<T, F, S, E>)>, k: int) -> LayerScanView<
    T,
    F,
    S,
    E,
>
    decreases k,
{
    if k <= 0 {
        LayerScanView {
            text: None,
            effect_updates: seq![],
            shape_detected: false,
            smart_object_detected: false,
            unsupported: seq![],
            warnings: seq![],
        }
    } else {
        scan_step(scan_blocks(bs, k - 1), bs[k - 1].0@, bs[k - 1].1)
    }
}

/// What a layer's blocks say, in order (see `scan_step`); each block comes
/// with its key.
pub fn assemble_layer_scan<T, F, S, E>(blocks: Vec<(String, BlockOutcome<T, F, S, E>)>) -> (r: LayerScan<T, F, S, E>)
    ensures
        scan_view(r) == scan_blocks(blocks@, blocks@.len() as int),
{
    let ghost bs = blocks@;
    let mut scan = LayerScan {
        text: None,
        effect_updates: Vec::new(),
        shape_detected: false,
        smart_object_detected: false,
        unsupported: Vec::new(),
        warnings: Vec::new(),
    };
    let n = blocks.len();
    let mut rest = blocks;
    proof {
        assert(crate::export_model::export_warning_views(scan.warnings@) =~= Seq::<crate::export_model::WarningView>::empty());
        assert(unsupported_views(scan.unsupported@) =~= Seq::<(Seq<char>, Seq<char>)>::empty());
        assert(scan.effect_updates@ =~= Seq::<EffectUpdate<F, S, E>>::empty());
        assert(bs.subrange(0, bs.len() as int) =~= bs);
    }
    let mut i: usize = 0;
    while rest.len() > 0
        invariant
            rest@.len() + i == bs.len(),
            n == bs.len(),
            rest@ == bs.subrange(i as int, bs.len() as int),
            scan_view(scan) == scan_blocks(bs, i as int),
        decreases rest.len(),
    {
        let ghost before = scan_view(scan);
        let (key, outcome) = rest.remove(0);
        assert(bs[i as int] == (key, outcome));
        assert(rest@ =~= bs.subrange(i + 1, bs.len() as int));
        let ghost w0 = crate::export_model::export_warning_views(scan.warnings@);
        let ghost u0 = unsupported_views(scan.unsupported@);
        match outcome {
            BlockOutcome::Text(Ok((t, has_runs, empty))) => {
                if !has_runs {
                    scan.warnings.push(
                        crate::export_model::ExportWarning::new(
                            "text-character-runs-missing",
                            "type tool data was detected but no character runs were extracted; layer will not be treated as text",
                        ),
                    );
                } else {
                    if empty {
                        scan.warnings.push(
                            crate::export_model::ExportWarning::new(
                                "text-content-missing",
                                "character runs were extracted but text content was empty",
                            ),
                        );
                    }
                    scan.text = Some(t);
                }
            },
            BlockOutcome::Text(Err(m)) => {
                scan.warnings.push(crate::export_model::ExportWarning::new("text-parse-failed", m.as_str()));
            },
            BlockOutcome::Fill(Ok(f)) => {
                scan.shape_detected = true;
                scan.effect_updates.push(EffectUpdate::Fill(f));
            },
            BlockOutcome::Fill(Err(m)) => {
                scan.shape_detected = true;
                scan.warnings.push(crate::export_model::ExportWarning::new("shape-fill-parse-failed", m.as_str()));
            },
            BlockOutcome::Stroke(Ok(st)) => {
                scan.shape_detected = true;
                scan.effect_updates.push(EffectUpdate::Stroke(st));
            },
            BlockOutcome::Stroke(Err(m)) => {
                scan.shape_detected = true;
                scan.warnings.push(crate::export_model::ExportWarning::new("shape-stroke-parse-failed", m.as_str()));
            },
            BlockOutcome::ShapeHint => {
                scan.shape_detected = true;
                let mut reason = crate::text::owned("shape metadata block '");
                crate::text::push_str(&mut reason, key.as_str());
                crate::text::push_str(
                    &mut reason,
                    "' is preserved as a shape hint, but phase one only extracts basic fill and stroke semantics",
                );
                scan.unsupported.push(
                    crate::export_model::UnsupportedInfo { kind: crate::text::owned("shape_layer"), reason },
                );
            },
            BlockOutcome::Effects(Ok(e)) => {
                scan.effect_updates.push(EffectUpdate::Merge(e));
            },
            BlockOutcome::Effects(Err(m)) => {
                scan.warnings.push(crate::export_model::ExportWarning::new("effects-parse-failed", m.as_str()));
            },
            BlockOutcome::SmartObject => {
                scan.smart_object_detected = true;
            },
            BlockOutcome::Other => {},
        }
        proof {
            assert(crate::export_model::export_warning_views(scan.warnings@) =~= scan_step(before, key@, outcome).warnings);
            assert(unsupported_views(scan.unsupported@) =~= scan_step(before, key@, outcome).unsupported);
            assert(scan_view(scan) =~= scan_step(before, key@, outcome));
        }
        i = i + 1;
    }
    scan
}

} // verus!
