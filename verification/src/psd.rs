use vstd::prelude::*;

use crate::bytes::{as_signed32, be_u16_at, be_u32_at, ScanError, SliceCursor};
use crate::text::{push_decimal, push_str};

verus! {

/// The kind of a PSD layer.
#[derive(Debug, Clone, Copy, PartialEq, Eq)]
pub enum LayerType {
    Group,
    Pixel,
    Text,
    Shape,
    Unknown,
}

/// A layer rectangle in document pixels.
#[derive(Debug, Clone, Copy, PartialEq, Eq)]
pub struct Bounds {
    pub x: i32,
    pub y: i32,
    pub width: u32,
    pub height: u32,
}

/// The fixed header fields of a PSD file.
#[derive(Debug, Clone, Copy, PartialEq, Eq)]
pub struct PsdMetadata {
    pub width: u32,
    pub height: u32,
    pub color_mode: u16,
    pub depth: u16,
    pub channel_count: u16,
}

/// One layer record as stored, bottom-most first, with its group markers.
/// `opacity` is the stored byte: 0 is transparent, 255 opaque.
#[derive(Debug, Clone)]
pub struct FlatLayer {
    pub raw_index: usize,
    pub name: String,
    pub layer_type: LayerType,
    pub visible: bool,
    pub opacity: u8,
    pub blend_mode: String,
    pub bounds: Bounds,
    pub group_opener: bool,
    pub group_closer: bool,
    pub is_clipped: bool,
}

/// A layer record with its strings seen as character sequences.
pub struct FlatLayerView {
    pub raw_index: nat,
    pub name: Seq<char>,
    pub layer_type: LayerType,
    pub visible: bool,
    pub opacity: u8,
    pub blend_mode: Seq<char>,
    pub bounds: Bounds,
    pub group_opener: bool,
    pub group_closer: bool,
    pub is_clipped: bool,
}

impl View for FlatLayer {
    type V = FlatLayerView;

    open spec fn view(&self) -> FlatLayerView {
        FlatLayerView {
            raw_index: self.raw_index as nat,
            name: self.name@,
            layer_type: self.layer_type,
            visible: self.visible,
            opacity: self.opacity,
            blend_mode: self.blend_mode@,
            bounds: self.bounds,
            group_opener: self.group_opener,
            group_closer: self.group_closer,
            is_clipped: self.is_clipped,
        }
    }
}

/// What `String::from_utf8_lossy` makes of `bytes`.
pub uninterp spec fn utf8_lossy(bytes: Seq<u8>) -> Seq<char>;

/// What `String::from_utf16_lossy` makes of `units`.
pub uninterp spec fn utf16_lossy(units: Seq<u16>) -> Seq<char>;

/// Calls `String::from_utf8_lossy`, which keeps each valid UTF-8 sequence and
/// puts U+FFFD in place of each invalid one; so the result is empty exactly
/// when the bytes are, and bytes that are valid UTF-8 give back the text
/// they encode. What the replacement of invalid sequences gives is named,
/// not stated.
#[verifier::external_body]
pub(crate) fn decode_utf8_lossy(bytes: &[u8]) -> (s: String)
    ensures
        s@ == utf8_lossy(bytes@),
        s@.len() == 0 <==> bytes@.len() == 0,
        forall|t: Seq<char>| #[trigger] crate::descriptor::utf8_of(t) == bytes@ ==> s@ == t,
{
    String::from_utf8_lossy(bytes).into_owned()
}

/// Calls `String::from_utf16_lossy`, which keeps each valid UTF-16 sequence and
/// puts U+FFFD in place of each unpaired surrogate; so the result is empty
/// exactly when the units are, and units that are valid UTF-16 give back the
/// text they encode. What the replacement of unpaired surrogates gives is
/// named, not stated.
#[verifier::external_body]
pub(crate) fn decode_utf16_lossy(units: &[u16]) -> (s: String)
    ensures
        s@ == utf16_lossy(units@),
        s@.len() == 0 <==> units@.len() == 0,
        forall|t: Seq<char>| #[trigger] crate::text::utf16_of(t) == units@ ==> s@ == t,
{
    String::from_utf16_lossy(units)
}

/// `8BPS`, the file signature.
pub open spec fn sig_8bps() -> Seq<u8> {
    seq![0x38u8, 0x42u8, 0x50u8, 0x53u8]
}

/// `8BIM`, the resource signature.
pub open spec fn sig_8bim() -> Seq<u8> {
    seq![0x38u8, 0x42u8, 0x49u8, 0x4Du8]
}

/// `8B64`, the large resource signature.
pub open spec fn sig_8b64() -> Seq<u8> {
    seq![0x38u8, 0x42u8, 0x36u8, 0x34u8]
}

/// `lsct`, the section divider key.
pub open spec fn key_lsct() -> Seq<u8> {
    seq![0x6Cu8, 0x73u8, 0x63u8, 0x74u8]
}

/// `luni`, the Unicode layer name key.
pub open spec fn key_luni() -> Seq<u8> {
    seq![0x6Cu8, 0x75u8, 0x6Eu8, 0x69u8]
}

/// `iOpa`, the fill opacity key.
pub open spec fn key_iopa() -> Seq<u8> {
    seq![0x69u8, 0x4Fu8, 0x70u8, 0x61u8]
}

pub(crate) fn bytes_are(b: [u8; 4], c0: u8, c1: u8, c2: u8, c3: u8) -> (r: bool)
    ensures
        r <==> b@ == seq![c0, c1, c2, c3],
{
    let r = b[0] == c0 && b[1] == c1 && b[2] == c2 && b[3] == c3;
    proof {
        if r {
            assert(b@ =~= seq![c0, c1, c2, c3]);
        }
        if b@ == seq![c0, c1, c2, c3] {
            assert(b@[0] == c0 && b@[1] == c1 && b@[2] == c2 && b@[3] == c3);
        }
    }
    r
}

/// The header of `d`: signature `8BPS`, version 1, six reserved bytes, then
/// channel count, height, width, depth and color mode, all big-endian.
pub open spec fn spec_scan_metadata(d: Seq<u8>) -> Result<PsdMetadata, ScanError> {
    if d.len() < 4 {
        Err(ScanError::UnexpectedEnd)
    } else if d.subrange(0, 4) != sig_8bps() {
        Err(ScanError::InvalidSignature)
    } else if d.len() < 6 {
        Err(ScanError::UnexpectedEnd)
    } else if be_u16_at(d, 4) != 1 {
        Err(ScanError::UnsupportedVersion)
    } else if d.len() < 26 {
        Err(ScanError::UnexpectedEnd)
    } else {
        Ok(
            PsdMetadata {
                channel_count: be_u16_at(d, 12) as u16,
                height: be_u32_at(d, 14) as u32,
                width: be_u32_at(d, 18) as u32,
                depth: be_u16_at(d, 22) as u16,
                color_mode: be_u16_at(d, 24) as u16,
            },
        )
    }
}

/// Reads the PSD header fields.
pub fn scan_psd_metadata(data: &[u8]) -> (r: Result<PsdMetadata, ScanError>)
    requires
        data@.len() <= isize::MAX,
    ensures
        r == spec_scan_metadata(data@),
{
    let mut cursor = SliceCursor::new(data);
    let signature = cursor.read_b4()?;
    if !bytes_are(signature, 0x38, 0x42, 0x50, 0x53) {
        return Err(ScanError::InvalidSignature);
    }
    let version = cursor.read_u16()?;
    if version != 1 {
        return Err(ScanError::UnsupportedVersion);
    }
    cursor.skip(6)?;
    let channel_count = cursor.read_u16()?;
    let height = cursor.read_u32()?;
    let width = cursor.read_u32()?;
    let depth = cursor.read_u16()?;
    let color_mode = cursor.read_u16()?;
    Ok(PsdMetadata { width, height, color_mode, depth, channel_count })
}

} // verus!

verus! {

/// What the additional information blocks of one layer record have said so far.
pub struct BlockState {
    pub group_opener: bool,
    pub group_closer: bool,
    pub unicode_name: Option<Seq<u16>>,
}

/// The UTF-16 units of a `luni` block: at most `n` units from `q`, none of
/// them reaching past `block_end`; `acc` holds those read before.
pub open spec fn spec_luni_units(d: Seq<u8>, q: int, n: nat, block_end: int, acc: Seq<u16>) -> Result<
    Seq<u16>,
    ScanError,
>
    decreases n,
{
    if n == 0 {
        Ok(acc)
    } else if q + 2 > block_end {
        Ok(acc)
    } else if q + 2 > d.len() {
        Err(ScanError::UnexpectedEnd)
    } else {
        spec_luni_units(d, q + 2, (n - 1) as nat, block_end, acc.push(be_u16_at(d, q) as u16))
    }
}

/// The effect of one additional information block whose payload starts at `b`.
pub open spec fn spec_block_effect(
    d: Seq<u8>,
    key: Seq<u8>,
    b: int,
    block_len: int,
    st: BlockState,
) -> Result<BlockState, ScanError> {
    if key == key_lsct() {
        if block_len < 4 {
            Ok(st)
        } else if b + 4 > d.len() {
            Err(ScanError::UnexpectedEnd)
        } else {
            let kind = be_u32_at(d, b);
            Ok(
                BlockState {
                    group_opener: kind == 1 || kind == 2,
                    group_closer: kind == 3,
                    unicode_name: st.unicode_name,
                },
            )
        }
    } else if key == key_luni() {
        if block_len < 4 {
            Ok(st)
        } else if b + 4 > d.len() {
            Err(ScanError::UnexpectedEnd)
        } else {
            match spec_luni_units(d, b + 4, be_u32_at(d, b) as nat, b + block_len, seq![]) {
                Ok(units) => Ok(
                    BlockState {
                        group_opener: st.group_opener,
                        group_closer: st.group_closer,
                        unicode_name: Some(units),
                    },
                ),
                Err(e) => Err(e),
            }
        }
    } else if key == key_iopa() {
        if block_len < 1 {
            Ok(st)
        } else if b + 1 > d.len() {
            Err(ScanError::UnexpectedEnd)
        } else {
            Ok(st)
        }
    } else {
        Ok(st)
    }
}

/// The additional information blocks of a layer record, from `p` while `p`
/// lies before `end`; a block whose signature is neither `8BIM` nor `8B64`
/// ends them.
pub open spec fn spec_blocks(d: Seq<u8>, p: int, end: int, st: BlockState) -> Result<
    BlockState,
    ScanError,
>
    decreases end - p,
{
    if p >= end {
        Ok(st)
    } else if p + 4 > d.len() {
        Err(ScanError::UnexpectedEnd)
    } else if d.subrange(p, p + 4) != sig_8bim() && d.subrange(p, p + 4) != sig_8b64() {
        Ok(st)
    } else if p + 12 > d.len() {
        Err(ScanError::UnexpectedEnd)
    } else {
        let block_len = be_u32_at(d, p + 8);
        let block_end = p + 12 + block_len;
        match spec_block_effect(d, d.subrange(p + 4, p + 8), p + 12, block_len, st) {
            Err(e) => Err(e),
            Ok(next) => if block_end > d.len() {
                Err(ScanError::UnexpectedEnd)
            } else if block_end >= end {
                Ok(next)
            } else {
                spec_blocks(d, block_end, end, next)
            },
        }
    }
}

/// A section divider block (`lsct`) of four bytes or more says what its
/// layer is by the kind it starts with: kinds 1 and 2 (an open or a closed
/// folder) make the layer a group opener, kind 3 a group closer, and any
/// other kind neither.
pub proof fn law_section_divider_kinds(d: Seq<u8>, b: int, block_len: int, st: BlockState)
    requires
        0 <= b,
        b + 4 <= d.len(),
        block_len >= 4,
    ensures
        spec_block_effect(d, key_lsct(), b, block_len, st) matches Ok(s) && (s.group_opener <==> (be_u32_at(d, b)
            == 1 || be_u32_at(d, b) == 2)) && (s.group_closer <==> be_u32_at(d, b) == 3),
{
}

/// The last additional information block of a record, when it is a section
/// divider of kind 1 or 2 (an open or a closed folder), leaves the record a
/// group opener.
pub proof fn law_last_folder_divider_opens_a_group(d: Seq<u8>, p: int, end: int, st: BlockState)
    requires
        0 <= p,
        p < end,
        p + 16 <= d.len(),
        d.subrange(p, p + 4) == sig_8bim(),
        d.subrange(p + 4, p + 8) == key_lsct(),
        be_u32_at(d, p + 8) >= 4,
        p + 12 + be_u32_at(d, p + 8) <= d.len(),
        p + 12 + be_u32_at(d, p + 8) >= end,
        be_u32_at(d, p + 12) == 1 || be_u32_at(d, p + 12) == 2,
    ensures
        spec_blocks(d, p, end, st) matches Ok(s) && s.group_opener && !s.group_closer,
{
}

/// A layer whose blocks make it a group opener is a group.
pub proof fn law_group_openers_are_groups(
    raw_index: nat,
    top: int,
    left: int,
    bottom: int,
    right: int,
    blend_key: Seq<u8>,
    opacity: u8,
    clipping: u8,
    flags: u8,
    name_bytes: Seq<u8>,
    st: BlockState,
)
    requires
        st.group_opener,
    ensures
        record_view(raw_index, top, left, bottom, right, blend_key, opacity, clipping, flags, name_bytes, st).group_opener,
        record_view(raw_index, top, left, bottom, right, blend_key, opacity, clipping, flags, name_bytes, st).layer_type
            == LayerType::Group,
{
}

/// Padding after a Pascal name of `len` bytes, up to a multiple of four.
pub open spec fn name_padding(len: int) -> int {
    (4 - ((len + 1) % 4)) % 4
}

/// The part of a layer record after its extra data length, which starts at
/// `r`: mask data, blending ranges, the padded Pascal name, then the
/// additional information blocks up to `extra_end`. Gives the name bytes and
/// what the blocks said.
pub open spec fn spec_record_tail(d: Seq<u8>, r: int, extra_end: int) -> Result<
    (Seq<u8>, BlockState),
    ScanError,
> {
    if r + 4 > d.len() {
        Err(ScanError::UnexpectedEnd)
    } else {
        let r2 = r + 4 + be_u32_at(d, r);
        if r2 + 4 > d.len() {
            Err(ScanError::UnexpectedEnd)
        } else {
            let r3 = r2 + 4 + be_u32_at(d, r2);
            if r3 + 1 > d.len() {
                Err(ScanError::UnexpectedEnd)
            } else {
                let name_len = d[r3] as int;
                let r4 = r3 + 1 + name_len;
                let r5 = r4 + name_padding(name_len);
                if r5 > d.len() {
                    Err(ScanError::UnexpectedEnd)
                } else {
                    let init = BlockState { group_opener: false, group_closer: false, unicode_name: None };
                    match spec_blocks(d, r5, extra_end, init) {
                        Err(e) => Err(e),
                        Ok(st) => if extra_end > d.len() {
                            Err(ScanError::UnexpectedEnd)
                        } else {
                            Ok((d.subrange(r3 + 1, r4), st))
                        },
                    }
                }
            }
        }
    }
}

/// `v` when positive, else 0.
pub open spec fn positive_part(v: int) -> int {
    if v > 0 { v } else { 0 }
}

/// The layer that a record describes.
pub open spec fn record_view(
    raw_index: nat,
    top: int,
    left: int,
    bottom: int,
    right: int,
    blend_key: Seq<u8>,
    opacity: u8,
    clipping: u8,
    flags: u8,
    name_bytes: Seq<u8>,
    st: BlockState,
) -> FlatLayerView {
    let width = positive_part(right - left);
    let height = positive_part(bottom - top);
    let decoded = match st.unicode_name {
        Some(units) => utf16_lossy(units),
        None => utf8_lossy(name_bytes),
    };
    FlatLayerView {
        raw_index,
        name: if decoded.len() == 0 { "Layer "@ + crate::text::decimal(raw_index) } else { decoded },
        layer_type: if st.group_opener {
            LayerType::Group
        } else if width > 0 && height > 0 {
            LayerType::Pixel
        } else {
            LayerType::Unknown
        },
        visible: (flags & 2u8) == 0,
        opacity,
        blend_mode: utf8_lossy(blend_key),
        bounds: Bounds { x: left as i32, y: top as i32, width: width as u32, height: height as u32 },
        group_opener: st.group_opener,
        group_closer: st.group_closer,
        is_clipped: clipping != 0,
    }
}

/// One layer record starting at `p`: its bounds, channel table, blend
/// signature and key, opacity, clipping, flags and extra data. Gives the layer
/// and the position after the record.
pub open spec fn spec_record(d: Seq<u8>, p: int, raw_index: nat) -> Result<
    (FlatLayerView, int),
    ScanError,
> {
    if p + 18 > d.len() {
        Err(ScanError::UnexpectedEnd)
    } else {
        let q = p + 18 + be_u16_at(d, p + 16) * 6;
        if q + 4 > d.len() {
            Err(ScanError::UnexpectedEnd)
        } else if d.subrange(q, q + 4) != sig_8bim() {
            Err(ScanError::InvalidRecordBlendSignature)
        } else if q + 16 > d.len() {
            Err(ScanError::UnexpectedEnd)
        } else {
            let extra_end = q + 16 + be_u32_at(d, q + 12);
            match spec_record_tail(d, q + 16, extra_end) {
                Err(e) => Err(e),
                Ok((name_bytes, st)) => Ok(
                    (
                        record_view(
                            raw_index,
                            as_signed32(be_u32_at(d, p)),
                            as_signed32(be_u32_at(d, p + 4)),
                            as_signed32(be_u32_at(d, p + 8)),
                            as_signed32(be_u32_at(d, p + 12)),
                            d.subrange(q + 4, q + 8),
                            d[q + 8],
                            d[q + 9],
                            d[q + 10],
                            name_bytes,
                            st,
                        ),
                        extra_end,
                    ),
                ),
            }
        }
    }
}

/// `n` consecutive layer records from `p`, numbered from `raw_index`,
/// after the layers `acc` already read.
pub open spec fn spec_records(d: Seq<u8>, p: int, raw_index: nat, n: nat, acc: Seq<FlatLayerView>) -> Result<
    Seq<FlatLayerView>,
    ScanError,
>
    decreases n,
{
    if n == 0 {
        Ok(acc)
    } else {
        match spec_record(d, p, raw_index) {
            Err(e) => Err(e),
            Ok((layer, next)) => spec_records(d, next, raw_index + 1, (n - 1) as nat, acc.push(layer)),
        }
    }
}

/// Passing over `n` layer records from `p` without reading their contents:
/// the position after them, or the end of the bytes reached first.
pub open spec fn spec_pass_over_records(d: Seq<u8>, p: int, n: nat) -> Result<int, ScanError>
    decreases n,
{
    if n == 0 {
        Ok(p)
    } else if p + 18 > d.len() {
        Err(ScanError::UnexpectedEnd)
    } else {
        let q = p + 18 + be_u16_at(d, p + 16) * 6;
        if q + 16 > d.len() {
            Err(ScanError::UnexpectedEnd)
        } else {
            let next = q + 16 + be_u32_at(d, q + 12);
            if next > d.len() {
                Err(ScanError::UnexpectedEnd)
            } else {
                spec_pass_over_records(d, next, (n - 1) as nat)
            }
        }
    }
}

/// Magnitude of a 16-bit layer count read as two's complement (a negative
/// count marks a merged alpha channel).
pub open spec fn layer_count_of(raw: int) -> nat {
    if raw >= 32768 {
        (65536 - raw) as nat
    } else {
        raw as nat
    }
}

/// Where the layer records start and how many there are: after the header,
/// the color mode data and the image resources, inside the layer and mask
/// information. `None` when there is no layer information.
pub open spec fn spec_layer_records_start(d: Seq<u8>) -> Result<Option<(int, nat)>, ScanError> {
    if d.len() < 4 {
        Err(ScanError::UnexpectedEnd)
    } else if d.subrange(0, 4) != sig_8bps() {
        Err(ScanError::InvalidSignature)
    } else if d.len() < 6 {
        Err(ScanError::UnexpectedEnd)
    } else if be_u16_at(d, 4) != 1 {
        Err(ScanError::UnsupportedVersion)
    } else if d.len() < 30 {
        Err(ScanError::UnexpectedEnd)
    } else {
        let p1 = 30 + be_u32_at(d, 26);
        if p1 + 4 > d.len() {
            Err(ScanError::UnexpectedEnd)
        } else {
            let p2 = p1 + 4 + be_u32_at(d, p1);
            if p2 + 4 > d.len() {
                Err(ScanError::UnexpectedEnd)
            } else if be_u32_at(d, p2) == 0 {
                Ok(None)
            } else if p2 + 8 > d.len() {
                Err(ScanError::UnexpectedEnd)
            } else if be_u32_at(d, p2 + 4) == 0 {
                Ok(None)
            } else if p2 + 10 > d.len() {
                Err(ScanError::UnexpectedEnd)
            } else {
                Ok(Some((p2 + 10, layer_count_of(be_u16_at(d, p2 + 8)))))
            }
        }
    }
}

/// The layer records of a PSD file, bottom-most first.
pub open spec fn spec_scan_layer_records(d: Seq<u8>) -> Result<Seq<FlatLayerView>, ScanError> {
    match spec_layer_records_start(d) {
        Err(e) => Err(e),
        Ok(None) => Ok(seq![]),
        Ok(Some((p, n))) => match spec_pass_over_records(d, p, n) {
            Err(e) => Err(e),
            Ok(_) => spec_records(d, p, 0, n, seq![]),
        },
    }
}

/// The views of a sequence of layers.
pub open spec fn layer_views(layers: Seq<FlatLayer>) -> Seq<FlatLayerView> {
    layers.map_values(|l: FlatLayer| l@)
}

} // verus!

verus! {

/// Block state as the scan holds it.
pub struct BlockStatus {
    pub group_opener: bool,
    pub group_closer: bool,
    pub unicode_name: Option<Vec<u16>>,
}

impl View for BlockStatus {
    type V = BlockState;

    open spec fn view(&self) -> BlockState {
        BlockState {
            group_opener: self.group_opener,
            group_closer: self.group_closer,
            unicode_name: match self.unicode_name {
                Some(v) => Some(v@),
                None => None,
            },
        }
    }
}

/// Reads the UTF-16 units of a `luni` block.
fn scan_luni_units(cursor: &mut SliceCursor, count: u32, block_end: u64) -> (r: Result<
    Vec<u16>,
    ScanError,
>)
    requires
        old(cursor).wf(),
    ensures
        final(cursor).wf(),
        final(cursor).data() == old(cursor).data(),
        r matches Ok(v) ==> spec_luni_units(
            old(cursor).data(),
            old(cursor).pos(),
            count as nat,
            block_end as int,
            seq![],
        ) == Ok::<Seq<u16>, ScanError>(v@),
        r matches Err(e) ==> spec_luni_units(
            old(cursor).data(),
            old(cursor).pos(),
            count as nat,
            block_end as int,
            seq![],
        ) == Err::<Seq<u16>, ScanError>(e),
{
    let ghost d = cursor.data();
    let ghost p0 = cursor.pos();
    let mut units: Vec<u16> = Vec::new();
    let mut k: u32 = 0;
    while k < count
        invariant
            cursor.wf(),
            cursor.data() == d,
            d == old(cursor).data(),
            p0 == old(cursor).pos(),
            k <= count,
            spec_luni_units(d, p0, count as nat, block_end as int, seq![]) == spec_luni_units(
                d,
                cursor.pos(),
                (count - k) as nat,
                block_end as int,
                units@,
            ),
        decreases count - k,
    {
        proof {
            cursor.lemma_bounds();
        }
        let here = cursor.position();
        if block_end < 2 || here > block_end - 2 {
            return Ok(units);
        }
        let unit = cursor.read_u16()?;
        units.push(unit);
        k = k + 1;
    }
    Ok(units)
}

/// Applies one additional information block, whose payload starts at the
/// cursor and spans `block_len` bytes.
fn apply_block(cursor: &mut SliceCursor, key: [u8; 4], block_len: u64, st: BlockStatus) -> (r: Result<
    BlockStatus,
    ScanError,
>)
    requires
        old(cursor).wf(),
        block_len <= u32::MAX,
    ensures
        final(cursor).wf(),
        final(cursor).data() == old(cursor).data(),
        r matches Ok(v) ==> spec_block_effect(
            old(cursor).data(),
            key@,
            old(cursor).pos(),
            block_len as int,
            st@,
        ) == Ok::<BlockState, ScanError>(v@),
        r matches Err(e) ==> spec_block_effect(
            old(cursor).data(),
            key@,
            old(cursor).pos(),
            block_len as int,
            st@,
        ) == Err::<BlockState, ScanError>(e),
        key@ == key_lsct() && block_len >= 4 ==> (r matches Ok(v) ==> (v.group_opener <==> (be_u32_at(
            old(cursor).data(),
            old(cursor).pos(),
        ) == 1 || be_u32_at(old(cursor).data(), old(cursor).pos()) == 2))),
{
    proof {
        cursor.lemma_bounds();
    }
    let b = cursor.position();
    if bytes_are(key, 0x6C, 0x73, 0x63, 0x74) {
        if block_len >= 4 {
            let kind = cursor.read_u32()?;
            Ok(
                BlockStatus {
                    group_opener: kind == 1 || kind == 2,
                    group_closer: kind == 3,
                    unicode_name: st.unicode_name,
                },
            )
        } else {
            Ok(st)
        }
    } else if bytes_are(key, 0x6C, 0x75, 0x6E, 0x69) {
        if block_len >= 4 {
            let char_count = cursor.read_u32()?;
            let units = scan_luni_units(cursor, char_count, b + block_len)?;
            Ok(
                BlockStatus {
                    group_opener: st.group_opener,
                    group_closer: st.group_closer,
                    unicode_name: Some(units),
                },
            )
        } else {
            Ok(st)
        }
    } else if bytes_are(key, 0x69, 0x4F, 0x70, 0x61) {
        if block_len >= 1 {
            let _fill_opacity = cursor.read_u8()?;
            Ok(st)
        } else {
            Ok(st)
        }
    } else {
        Ok(st)
    }
}

/// Reads the additional information blocks of a layer record up to `end`.
fn scan_blocks(cursor: &mut SliceCursor, end: u64) -> (r: Result<BlockStatus, ScanError>)
    requires
        old(cursor).wf(),
    ensures
        final(cursor).wf(),
        final(cursor).data() == old(cursor).data(),
        r matches Ok(v) ==> spec_blocks(
            old(cursor).data(),
            old(cursor).pos(),
            end as int,
            BlockState { group_opener: false, group_closer: false, unicode_name: None },
        ) == Ok::<BlockState, ScanError>(v@),
        r matches Err(e) ==> spec_blocks(
            old(cursor).data(),
            old(cursor).pos(),
            end as int,
            BlockState { group_opener: false, group_closer: false, unicode_name: None },
        ) == Err::<BlockState, ScanError>(e),
{
    let ghost d = cursor.data();
    let ghost p0 = cursor.pos();
    let ghost init = BlockState { group_opener: false, group_closer: false, unicode_name: None };
    let mut st = BlockStatus { group_opener: false, group_closer: false, unicode_name: None };
    proof {
        cursor.lemma_bounds();
    }
    if cursor.position() >= end {
        return Ok(st);
    }
    loop
        invariant
            cursor.wf(),
            cursor.data() == d,
            d == old(cursor).data(),
            p0 == old(cursor).pos(),
            init == (BlockState { group_opener: false, group_closer: false, unicode_name: None }),
            cursor.pos() < end,
            spec_blocks(d, p0, end as int, init) == spec_blocks(d, cursor.pos(), end as int, st@),
        decreases end - cursor.pos(),
    {
        proof {
            cursor.lemma_bounds();
        }
        let ghost here = cursor.pos();
        let ghost st0 = st@;
        let signature = match cursor.read_b4() {
            Ok(b) => b,
            Err(e) => {
                assert(spec_blocks(d, here, end as int, st0) == Err::<BlockState, ScanError>(e));
                return Err(e);
            },
        };
        if !bytes_are(signature, 0x38, 0x42, 0x49, 0x4D) && !bytes_are(
            signature,
            0x38,
            0x42,
            0x36,
            0x34,
        ) {
            assert(sig_8bim() == seq![0x38u8, 0x42u8, 0x49u8, 0x4Du8]);
            assert(d.subrange(here, here + 4) != sig_8bim());
            assert(spec_blocks(d, here, end as int, st0) == Ok::<BlockState, ScanError>(st0));
            return Ok(st);
        }
        let key = cursor.read_b4()?;
        let block_len = cursor.read_u32()? as u64;
        let block_start = cursor.position();
        let block_end = block_start + block_len;
        assert(d.subrange(here + 4, here + 8) == key@);
        st = apply_block(cursor, key, block_len, st)?;
        cursor.set_position(block_end)?;
        if block_end >= end {
            return Ok(st);
        }
    }
}

} // verus!

verus! {

/// Reads the part of a layer record after its extra data length.
fn scan_record_tail(cursor: &mut SliceCursor, extra_end: u64) -> (r: Result<
    (Vec<u8>, BlockStatus),
    ScanError,
>)
    requires
        old(cursor).wf(),
    ensures
        final(cursor).wf(),
        final(cursor).data() == old(cursor).data(),
        r matches Ok((nb, st)) ==> spec_record_tail(
            old(cursor).data(),
            old(cursor).pos(),
            extra_end as int,
        ) == Ok::<(Seq<u8>, BlockState), ScanError>((nb@, st@)) && final(cursor).pos()
            == extra_end,
        r matches Err(e) ==> spec_record_tail(
            old(cursor).data(),
            old(cursor).pos(),
            extra_end as int,
        ) == Err::<(Seq<u8>, BlockState), ScanError>(e),
{
    let mask_len = cursor.read_u32()? as u64;
    cursor.skip(mask_len)?;
    let ranges_len = cursor.read_u32()? as u64;
    cursor.skip(ranges_len)?;
    let name_len = cursor.read_u8()?;
    let name_bytes = cursor.read_bytes(name_len as usize)?;
    let padding = (4 - ((name_len as u64 + 1) % 4)) % 4;
    cursor.skip(padding)?;
    let st = scan_blocks(cursor, extra_end)?;
    cursor.set_position(extra_end)?;
    Ok((name_bytes, st))
}

/// `Layer <index>`, the name of a layer that has none.
fn fallback_layer_name(raw_index: usize) -> (s: String)
    ensures
        s@ == "Layer "@ + crate::text::decimal(raw_index as nat),
{
    let mut s = crate::text::owned("Layer ");
    push_decimal(&mut s, raw_index as u64);
    s
}

/// Reads one layer record.
fn scan_record(cursor: &mut SliceCursor, raw_index: usize) -> (r: Result<FlatLayer, ScanError>)
    requires
        old(cursor).wf(),
    ensures
        final(cursor).wf(),
        final(cursor).data() == old(cursor).data(),
        r matches Ok(l) ==> spec_record(old(cursor).data(), old(cursor).pos(), raw_index as nat)
            == Ok::<(FlatLayerView, int), ScanError>((l@, final(cursor).pos())),
        r matches Err(e) ==> spec_record(old(cursor).data(), old(cursor).pos(), raw_index as nat)
            == Err::<(FlatLayerView, int), ScanError>(e),
{
    proof {
        cursor.lemma_bounds();
    }
    let ghost d = cursor.data();
    let ghost p = cursor.pos();
    let top = cursor.read_i32()?;
    let left = cursor.read_i32()?;
    let bottom = cursor.read_i32()?;
    let right = cursor.read_i32()?;
    let channel_count = cursor.read_u16()? as u64;
    cursor.skip(channel_count * 6)?;
    let ghost q = cursor.pos();
    let blend_signature = cursor.read_b4()?;
    if !bytes_are(blend_signature, 0x38, 0x42, 0x49, 0x4D) {
        assert(sig_8bim() == seq![0x38u8, 0x42u8, 0x49u8, 0x4Du8]);
        return Err(ScanError::InvalidRecordBlendSignature);
    }
    let blend_key = cursor.read_b4()?;
    let opacity = cursor.read_u8()?;
    let clipping = cursor.read_u8()?;
    let flags = cursor.read_u8()?;
    let _filler = cursor.read_u8()?;
    let extra_len = cursor.read_u32()? as u64;
    proof {
        cursor.lemma_bounds();
    }
    let extra_end = cursor.position() + extra_len;
    let (name_bytes, st) = scan_record_tail(cursor, extra_end)?;
    let decoded = match &st.unicode_name {
        Some(units) => decode_utf16_lossy(units.as_slice()),
        None => decode_utf8_lossy(name_bytes.as_slice()),
    };
    let name = if decoded.as_str().is_empty() {
        fallback_layer_name(raw_index)
    } else {
        decoded
    };
    let width: u32 = if right > left {
        (right as i64 - left as i64) as u32
    } else {
        0
    };
    let height: u32 = if bottom > top {
        (bottom as i64 - top as i64) as u32
    } else {
        0
    };
    let layer_type = if st.group_opener {
        LayerType::Group
    } else if width > 0 && height > 0 {
        LayerType::Pixel
    } else {
        LayerType::Unknown
    };
    let layer = FlatLayer {
        raw_index,
        name,
        layer_type,
        visible: (flags & 2) == 0,
        opacity,
        blend_mode: decode_utf8_lossy(&blend_key),
        bounds: Bounds { x: left, y: top, width, height },
        group_opener: st.group_opener,
        group_closer: st.group_closer,
        is_clipped: clipping != 0,
    };
    assert(blend_key@ == d.subrange(q + 4, q + 8));
    assert(layer@ == record_view(
        raw_index as nat,
        top as int,
        left as int,
        bottom as int,
        right as int,
        blend_key@,
        opacity,
        clipping,
        flags,
        name_bytes@,
        st@,
    ));
    Ok(layer)
}

} // verus!

verus! {

/// Passes over `count` layer records without reading their contents.
fn pass_over_records(cursor: &mut SliceCursor, count: usize) -> (r: Result<(), ScanError>)
    requires
        old(cursor).wf(),
    ensures
        final(cursor).wf(),
        final(cursor).data() == old(cursor).data(),
        r is Ok ==> spec_pass_over_records(old(cursor).data(), old(cursor).pos(), count as nat)
            == Ok::<int, ScanError>(final(cursor).pos()),
        r matches Err(e) ==> spec_pass_over_records(
            old(cursor).data(),
            old(cursor).pos(),
            count as nat,
        ) == Err::<int, ScanError>(e),
{
    let ghost d = cursor.data();
    let ghost p0 = cursor.pos();
    let mut i: usize = 0;
    while i < count
        invariant
            cursor.wf(),
            cursor.data() == d,
            d == old(cursor).data(),
            p0 == old(cursor).pos(),
            i <= count,
            spec_pass_over_records(d, p0, count as nat) == spec_pass_over_records(
                d,
                cursor.pos(),
                (count - i) as nat,
            ),
        decreases count - i,
    {
        let ghost p = cursor.pos();
        cursor.skip(16)?;
        let channel_count = cursor.read_u16()?;
        let mut c: u16 = 0;
        while c < channel_count
            invariant
                cursor.wf(),
                cursor.data() == d,
                d == old(cursor).data(),
                p0 == old(cursor).pos(),
                i < count,
                spec_pass_over_records(d, p0, count as nat) == spec_pass_over_records(
                    d,
                    p,
                    (count - i) as nat,
                ),
                c <= channel_count,
                channel_count == be_u16_at(d, p + 16),
                p + 18 <= d.len(),
                cursor.pos() == p + 18 + c * 6,
            decreases channel_count - c,
        {
            cursor.skip(2)?;
            let _channel_data_len = cursor.read_u32()?;
            c = c + 1;
        }
        cursor.skip(12)?;
        let extra_len = cursor.read_u32()? as u64;
        cursor.skip(extra_len)?;
        i = i + 1;
    }
    Ok(())
}

/// Moves the cursor to the first layer record and gives the number of
/// records, or `None` when the file has no layer information.
fn locate_layer_records(cursor: &mut SliceCursor) -> (r: Result<Option<usize>, ScanError>)
    requires
        old(cursor).wf(),
        old(cursor).pos() == 0,
    ensures
        final(cursor).wf(),
        final(cursor).data() == old(cursor).data(),
        r matches Ok(Some(n)) ==> spec_layer_records_start(old(cursor).data()) == Ok::<
            Option<(int, nat)>,
            ScanError,
        >(Some((final(cursor).pos(), n as nat))),
        r matches Ok(None) ==> spec_layer_records_start(old(cursor).data()) == Ok::<
            Option<(int, nat)>,
            ScanError,
        >(None),
        r matches Err(e) ==> spec_layer_records_start(old(cursor).data()) == Err::<
            Option<(int, nat)>,
            ScanError,
        >(e),
{
    let signature = cursor.read_b4()?;
    if !bytes_are(signature, 0x38, 0x42, 0x50, 0x53) {
        return Err(ScanError::InvalidSignature);
    }
    let version = cursor.read_u16()?;
    if version != 1 {
        return Err(ScanError::UnsupportedVersion);
    }
    cursor.skip(6)?;
    cursor.skip(2 + 4 + 4 + 2 + 2)?;
    let color_mode_length = cursor.read_u32()? as u64;
    cursor.skip(color_mode_length)?;
    let image_resources_length = cursor.read_u32()? as u64;
    cursor.skip(image_resources_length)?;
    let layer_mask_length = cursor.read_u32()?;
    if layer_mask_length == 0 {
        return Ok(None);
    }
    let layer_info_length = cursor.read_u32()?;
    if layer_info_length == 0 {
        return Ok(None);
    }
    let raw_count = cursor.read_u16()?;
    let layer_count: usize = if raw_count >= 32768 {
        (65536 - raw_count as u32) as usize
    } else {
        raw_count as usize
    };
    Ok(Some(layer_count))
}

/// Reads the layer records of a PSD file without decoding image data:
/// bounds, blend mode, opacity, clipping, visibility, names (the Unicode
/// name when a `luni` block gives one) and group markers (`lsct`), in file
/// order, bottom-most first.
pub fn scan_layer_records(data: &[u8]) -> (r: Result<Vec<FlatLayer>, ScanError>)
    requires
        data@.len() <= isize::MAX,
    ensures
        r matches Ok(v) ==> spec_scan_layer_records(data@) == Ok::<Seq<FlatLayerView>, ScanError>(
            layer_views(v@),
        ),
        r matches Err(e) ==> spec_scan_layer_records(data@) == Err::<Seq<FlatLayerView>, ScanError>(
            e,
        ),
{
    let mut cursor = SliceCursor::new(data);
    let ghost d = data@;
    let layer_count = match locate_layer_records(&mut cursor)? {
        None => {
            let empty: Vec<FlatLayer> = Vec::new();
            assert(layer_views(empty@) =~= seq![]);
            return Ok(empty);
        },
        Some(n) => n,
    };
    proof {
        cursor.lemma_bounds();
    }
    let records_start = cursor.position();
    let ghost start = cursor.pos();
    pass_over_records(&mut cursor, layer_count)?;
    cursor.set_position(records_start)?;
    let mut layers: Vec<FlatLayer> = Vec::new();
    assert(layer_views(layers@) =~= seq![]);
    let mut raw_index: usize = 0;
    while raw_index < layer_count
        invariant
            cursor.wf(),
            cursor.data() == d,
            raw_index <= layer_count,
            d == data@,
            spec_scan_layer_records(d) == spec_records(d, start, 0, layer_count as nat, seq![]),
            spec_records(d, start, 0, layer_count as nat, seq![]) == spec_records(
                d,
                cursor.pos(),
                raw_index as nat,
                (layer_count - raw_index) as nat,
                layer_views(layers@),
            ),
        decreases layer_count - raw_index,
    {
        let layer = scan_record(&mut cursor, raw_index)?;
        let ghost before = layer_views(layers@);
        layers.push(layer);
        assert(layer_views(layers@) =~= before.push(layer@));
        raw_index = raw_index + 1;
    }
    Ok(layers)
}

} // verus!
