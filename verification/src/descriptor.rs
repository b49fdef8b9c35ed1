use vstd::prelude::*;

use crate::bytes::{as_signed32, be_u16_at, be_u32_at, spec_scan_message, ScanError, SliceCursor};
use crate::engine::{trim_nul_chars, trim_trailing_nul_chars};
use crate::layer_meta::{read_pascal_id, spec_pascal_id};
use crate::psd::{bytes_are, decode_utf16_lossy, decode_utf8_lossy, utf16_lossy, utf8_lossy};
use crate::text::{owned, push_str};

verus! {

/// A Photoshop action descriptor: a class id and keyed values, in file
/// order.
#[derive(Debug)]
pub struct Descriptor {
    pub class_id: String,
    pub items: Vec<(String, DescriptorValue)>,
}

/// A descriptor value. Floating-point values are kept as the bits of the
/// stored IEEE 754 double.
#[derive(Debug)]
pub enum DescriptorValue {
    Integer(i32),
    Double(u64),
    UnitFloat { unit: String, value: u64 },
    Boolean(bool),
    Text(String),
    RawData(Vec<u8>),
    Object(Box<Descriptor>),
    Enum { kind: String, value: String },
    List(Vec<DescriptorValue>),
}

/// A descriptor seen as plain values.
pub struct DescView {
    pub class_id: Seq<char>,
    pub items: Seq<(Seq<char>, DescValueView)>,
}

/// A descriptor value seen as plain values.
pub enum DescValueView {
    Integer(i32),
    Double(u64),
    UnitFloat { unit: Seq<char>, value: u64 },
    Boolean(bool),
    Text(Seq<char>),
    RawData(Seq<u8>),
    Object(DescView),
    Enum { kind: Seq<char>, value: Seq<char> },
    List(Seq<DescValueView>),
}

/// The view of a descriptor.
pub open spec fn desc_view(d: Descriptor) -> DescView
    decreases d, 3nat,
{
    DescView { class_id: d.class_id@, items: items_view(d.items@) }
}

/// The views of keyed descriptor values.
pub open spec fn items_view(s: Seq<(String, DescriptorValue)>) -> Seq<(Seq<char>, DescValueView)>
    decreases s, 2nat,
{
    if s.len() == 0 {
        seq![]
    } else {
        items_view(s.drop_last()).push((s.last().0@, value_view(s.last().1)))
    }
}

/// The view of a descriptor value.
pub open spec fn value_view(v: DescriptorValue) -> DescValueView
    decreases v, 1nat,
{
    match v {
        DescriptorValue::Integer(i) => DescValueView::Integer(i),
        DescriptorValue::Double(b) => DescValueView::Double(b),
        DescriptorValue::UnitFloat { unit, value } => DescValueView::UnitFloat { unit: unit@, value },
        DescriptorValue::Boolean(b) => DescValueView::Boolean(b),
        DescriptorValue::Text(t) => DescValueView::Text(t@),
        DescriptorValue::RawData(b) => DescValueView::RawData(b@),
        DescriptorValue::Object(o) => DescValueView::Object(desc_view(*o)),
        DescriptorValue::Enum { kind, value } => DescValueView::Enum { kind: kind@, value: value@ },
        DescriptorValue::List(vs) => DescValueView::List(values_view(vs@)),
    }
}

/// The views of a list of descriptor values.
pub open spec fn values_view(s: Seq<DescriptorValue>) -> Seq<DescValueView>
    decreases s, 2nat,
{
    if s.len() == 0 {
        seq![]
    } else {
        values_view(s.drop_last()).push(value_view(s.last()))
    }
}

/// Why a descriptor could not be read.
#[derive(Debug, Clone)]
pub enum DescriptorError {
    Scan(ScanError),
    /// A value of a type this reader does not know, with its four-byte tag.
    UnsupportedValueType(String),
    /// A vector stroke block whose descriptor version is not 16.
    UnsupportedStrokeVersion,
    /// A layer effects block whose descriptor version is not 16.
    UnsupportedEffectsVersion,
}

pub enum DescErrorView {
    Scan(ScanError),
    UnsupportedValueType(Seq<char>),
    UnsupportedStrokeVersion,
    UnsupportedEffectsVersion,
}

impl View for DescriptorError {
    type V = DescErrorView;

    open spec fn view(&self) -> DescErrorView {
        match self {
            DescriptorError::Scan(e) => DescErrorView::Scan(*e),
            DescriptorError::UnsupportedValueType(t) => DescErrorView::UnsupportedValueType(t@),
            DescriptorError::UnsupportedStrokeVersion => DescErrorView::UnsupportedStrokeVersion,
            DescriptorError::UnsupportedEffectsVersion => DescErrorView::UnsupportedEffectsVersion,
        }
    }
}

/// The description of a descriptor error.
pub open spec fn spec_descriptor_message(e: DescErrorView) -> Seq<char> {
    match e {
        DescErrorView::Scan(s) => spec_scan_message(s),
        DescErrorView::UnsupportedValueType(t) => "unsupported descriptor value type '"@ + t + "'"@,
        DescErrorView::UnsupportedStrokeVersion => "unsupported vector stroke descriptor version"@,
        DescErrorView::UnsupportedEffectsVersion => "unsupported layer effects descriptor version"@,
    }
}

impl DescriptorError {
    /// What went wrong, in words (see `spec_descriptor_message`).
    pub fn message(&self) -> (r: String)
        ensures
            r@ == spec_descriptor_message(self@),
    {
        match self {
            DescriptorError::Scan(e) => owned(e.message()),
            DescriptorError::UnsupportedValueType(t) => {
                let mut s = owned("unsupported descriptor value type '");
                push_str(&mut s, t.as_str());
                push_str(&mut s, "'");
                s
            },
            DescriptorError::UnsupportedStrokeVersion => owned("unsupported vector stroke descriptor version"),
            DescriptorError::UnsupportedEffectsVersion => owned("unsupported layer effects descriptor version"),
        }
    }
}

/// How many bytes lie from `p` to the end.
pub open spec fn rest(d: Seq<u8>, p: int) -> nat {
    if 0 <= p < d.len() {
        (d.len() - p) as nat
    } else {
        0
    }
}

/// A big-endian 64-bit value at `p`.
pub open spec fn be_u64_at(d: Seq<u8>, p: int) -> int {
    be_u32_at(d, p) * 0x1_0000_0000 + be_u32_at(d, p + 4)
}

/// `n` big-endian 16-bit values from `p`.
pub open spec fn u16s_at(d: Seq<u8>, p: int, n: nat) -> Seq<u16> {
    Seq::new(n, |i: int| be_u16_at(d, p + 2 * i) as u16)
}

pub open spec fn end_err<T>() -> Result<T, DescErrorView> {
    Err(DescErrorView::Scan(ScanError::UnexpectedEnd))
}

/// A descriptor at `p`: a Unicode name (its length in code units, then the
/// units, skipped), a class id, an item count and that many items; gives the
/// descriptor and how many bytes it took.
pub open spec fn spec_descriptor(d: Seq<u8>, p: int) -> Result<(DescView, nat), DescErrorView>
    decreases rest(d, p), 3int, 0int,
{
    if p < 0 || p + 4 > d.len() {
        end_err()
    } else {
        let q = p + 4 + 2 * be_u32_at(d, p);
        if q > d.len() {
            end_err()
        } else {
            match spec_pascal_id(d, q) {
                Err(e) => Err(DescErrorView::Scan(e)),
                Ok((class_id, q1)) => if q1 + 4 > d.len() {
                    end_err()
                } else {
                    match spec_items(d, q1 + 4, be_u32_at(d, q1) as nat, seq![]) {
                        Err(e) => Err(e),
                        Ok((items, c)) => Ok((DescView { class_id, items }, (q1 + 4 + c - p) as nat)),
                    }
                },
            }
        }
    }
}

/// `n` more items from `p` after the items `acc`: a key (a descriptor
/// identifier) and a value each; gives all the items and how many bytes
/// the `n` took.
pub open spec fn spec_items(d: Seq<u8>, p: int, n: nat, acc: Seq<(Seq<char>, DescValueView)>) -> Result<
    (Seq<(Seq<char>, DescValueView)>, nat),
    DescErrorView,
>
    decreases rest(d, p), 2int, n,
{
    if n == 0 {
        Ok((acc, 0))
    } else if p < 0 {
        end_err()
    } else {
        match spec_pascal_id(d, p) {
            Err(e) => Err(DescErrorView::Scan(e)),
            Ok((key, p1)) => if p1 <= p || p1 > d.len() {
                end_err()
            } else {
                match spec_value(d, p1) {
                    Err(e) => Err(e),
                    Ok((v, c)) => match spec_items(d, p1 + c, (n - 1) as nat, acc.push((key, v))) {
                        Err(e) => Err(e),
                        Ok((items, c2)) => Ok((items, (p1 + c + c2 - p) as nat)),
                    },
                }
            },
        }
    }
}

/// `n` more list values from `p` after the values `acc`.
pub open spec fn spec_values(d: Seq<u8>, p: int, n: nat, acc: Seq<DescValueView>) -> Result<
    (Seq<DescValueView>, nat),
    DescErrorView,
>
    decreases rest(d, p), 2int, n,
{
    if n == 0 {
        Ok((acc, 0))
    } else if p < 0 {
        end_err()
    } else {
        match spec_value(d, p) {
            Err(e) => Err(e),
            Ok((v, c)) => match spec_values(d, p + c, (n - 1) as nat, acc.push(v)) {
                Err(e) => Err(e),
                Ok((vs, c2)) => Ok((vs, c + c2)),
            },
        }
    }
}

/// The four-byte tags of the value types.
pub open spec fn tag_long() -> Seq<u8> { seq![0x6C, 0x6F, 0x6E, 0x67] }
pub open spec fn tag_doub() -> Seq<u8> { seq![0x64, 0x6F, 0x75, 0x62] }
pub open spec fn tag_untf() -> Seq<u8> { seq![0x55, 0x6E, 0x74, 0x46] }
pub open spec fn tag_bool() -> Seq<u8> { seq![0x62, 0x6F, 0x6F, 0x6C] }
pub open spec fn tag_text() -> Seq<u8> { seq![0x54, 0x45, 0x58, 0x54] }
pub open spec fn tag_tdta() -> Seq<u8> { seq![0x74, 0x64, 0x74, 0x61] }
pub open spec fn tag_objc() -> Seq<u8> { seq![0x4F, 0x62, 0x6A, 0x63] }
pub open spec fn tag_enum() -> Seq<u8> { seq![0x65, 0x6E, 0x75, 0x6D] }
pub open spec fn tag_vlls() -> Seq<u8> { seq![0x56, 0x6C, 0x4C, 0x73] }

/// A value at `p`: a four-byte type tag, then `long` a 32-bit integer,
/// `doub` a double, `UntF` a unit tag and a double, `bool` a byte, `TEXT`
/// a count and that many UTF-16 units (trailing NULs dropped), `tdta` a
/// length and raw bytes, `Objc` a descriptor, `enum` two identifiers, `VlLs`
/// a count and that many values; any other tag is refused. Gives the value
/// and how many bytes it took.
pub open spec fn spec_value(d: Seq<u8>, p: int) -> Result<(DescValueView, nat), DescErrorView>
    decreases rest(d, p), 1int, 0int,
{
    if p < 0 || p + 4 > d.len() {
        end_err()
    } else {
        let tag = d.subrange(p, p + 4);
        let q = p + 4;
        if tag == tag_long() {
            if q + 4 > d.len() {
                end_err()
            } else {
                Ok((DescValueView::Integer(as_signed32(be_u32_at(d, q)) as i32), 8))
            }
        } else if tag == tag_doub() {
            if q + 8 > d.len() {
                end_err()
            } else {
                Ok((DescValueView::Double(be_u64_at(d, q) as u64), 12))
            }
        } else if tag == tag_untf() {
            if q + 12 > d.len() {
                end_err()
            } else {
                Ok(
                    (
                        DescValueView::UnitFloat {
                            unit: utf8_lossy(d.subrange(q, q + 4)),
                            value: be_u64_at(d, q + 4) as u64,
                        },
                        16,
                    ),
                )
            }
        } else if tag == tag_bool() {
            if q + 1 > d.len() {
                end_err()
            } else {
                Ok((DescValueView::Boolean(d[q] != 0), 5))
            }
        } else if tag == tag_text() {
            if q + 4 > d.len() {
                end_err()
            } else {
                let n = be_u32_at(d, q);
                if q + 4 + 2 * n > d.len() {
                    end_err()
                } else {
                    Ok(
                        (
                            DescValueView::Text(trim_nul_chars(utf16_lossy(u16s_at(d, q + 4, n as nat)))),
                            (8 + 2 * n) as nat,
                        ),
                    )
                }
            }
        } else if tag == tag_tdta() {
            if q + 4 > d.len() {
                end_err()
            } else {
                let n = be_u32_at(d, q);
                if q + 4 + n > d.len() {
                    end_err()
                } else {
                    Ok((DescValueView::RawData(d.subrange(q + 4, q + 4 + n)), (8 + n) as nat))
                }
            }
        } else if tag == tag_objc() {
            match spec_descriptor(d, q) {
                Err(e) => Err(e),
                Ok((o, c)) => Ok((DescValueView::Object(o), 4 + c)),
            }
        } else if tag == tag_enum() {
            match spec_pascal_id(d, q) {
                Err(e) => Err(DescErrorView::Scan(e)),
                Ok((kind, q1)) => match spec_pascal_id(d, q1) {
                    Err(e) => Err(DescErrorView::Scan(e)),
                    Ok((value, q2)) => Ok((DescValueView::Enum { kind, value }, (q2 - p) as nat)),
                },
            }
        } else if tag == tag_vlls() {
            if q + 4 > d.len() {
                end_err()
            } else {
                match spec_values(d, q + 4, be_u32_at(d, q) as nat, seq![]) {
                    Err(e) => Err(e),
                    Ok((vs, c)) => Ok((DescValueView::List(vs), 8 + c)),
                }
            }
        } else {
            Err(DescErrorView::UnsupportedValueType(utf8_lossy(tag)))
        }
    }
}


/// A result with its byte count moved on by `k`.
pub open spec fn shifted<T>(r: Result<(T, nat), DescErrorView>, k: int) -> Result<(T, nat), DescErrorView> {
    match r {
        Ok((v, c)) => Ok((v, (c + k) as nat)),
        Err(e) => Err(e),
    }
}

fn scan_err(e: ScanError) -> (r: DescriptorError)
    ensures
        r@ == DescErrorView::Scan(e),
{
    DescriptorError::Scan(e)
}

/// Reads a big-endian 64-bit value.
fn read_u64(cursor: &mut SliceCursor) -> (r: Result<u64, ScanError>)
    requires
        old(cursor).wf(),
    ensures
        final(cursor).wf(),
        final(cursor).data() == old(cursor).data(),
        old(cursor).pos() + 8 <= old(cursor).data().len() ==> (r matches Ok(v) && v == be_u64_at(
            old(cursor).data(),
            old(cursor).pos(),
        ) && final(cursor).pos() == old(cursor).pos() + 8),
        old(cursor).pos() + 8 > old(cursor).data().len() ==> r == Err::<u64, ScanError>(ScanError::UnexpectedEnd),
{
    proof {
        cursor.lemma_bounds();
    }
    if cursor.remaining() < 8 {
        return Err(ScanError::UnexpectedEnd);
    }
    let hi = cursor.read_u32()?;
    let lo = cursor.read_u32()?;
    Ok((hi as u64) * 0x1_0000_0000 + lo as u64)
}

/// Reads a descriptor (see `spec_descriptor`).
pub fn read_descriptor(cursor: &mut SliceCursor) -> (r: Result<Descriptor, DescriptorError>)
    requires
        old(cursor).wf(),
    ensures
        final(cursor).wf(),
        final(cursor).data() == old(cursor).data(),
        match spec_descriptor(old(cursor).data(), old(cursor).pos()) {
            Ok((v, c)) => r matches Ok(x) && desc_view(x) == v && final(cursor).pos() == old(cursor).pos() + c,
            Err(e) => r matches Err(x) && x@ == e,
        },
    decreases rest(old(cursor).data(), old(cursor).pos()), 3int, 0int,
{
    let ghost d = cursor.data();
    let ghost p = cursor.pos();
    proof {
        cursor.lemma_bounds();
    }
    let name_len = match cursor.read_u32() {
        Ok(v) => v,
        Err(e) => return Err(scan_err(e)),
    };
    match cursor.skip(name_len as u64 * 2) {
        Ok(()) => {},
        Err(e) => return Err(scan_err(e)),
    }
    let class_id = match read_pascal_id(cursor) {
        Ok(v) => v,
        Err(e) => return Err(scan_err(e)),
    };
    let ghost q1 = cursor.pos();
    let count = match cursor.read_u32() {
        Ok(v) => v,
        Err(e) => return Err(scan_err(e)),
    };
    proof {
        cursor.lemma_bounds();
    }
    let items = read_items(cursor, count)?;
    Ok(Descriptor { class_id, items })
}

/// Reads `n` descriptor items (see `spec_items`).
fn read_items(cursor: &mut SliceCursor, n: u32) -> (r: Result<Vec<(String, DescriptorValue)>, DescriptorError>)
    requires
        old(cursor).wf(),
    ensures
        final(cursor).wf(),
        final(cursor).data() == old(cursor).data(),
        match spec_items(old(cursor).data(), old(cursor).pos(), n as nat, seq![]) {
            Ok((v, c)) => r matches Ok(x) && items_view(x@) == v && final(cursor).pos() == old(cursor).pos() + c,
            Err(e) => r matches Err(x) && x@ == e,
        },
    decreases rest(old(cursor).data(), old(cursor).pos()), 2int, n,
{
    let ghost d = cursor.data();
    let ghost p0 = cursor.pos();
    proof {
        cursor.lemma_bounds();
    }
    let mut out: Vec<(String, DescriptorValue)> = Vec::new();
    let mut i: u32 = 0;
    while i < n
        invariant
            cursor.wf(),
            cursor.data() == d,
            0 <= p0 <= cursor.pos(),
            p0 == old(cursor).pos(),
            d == old(cursor).data(),
            i <= n,
            spec_items(d, p0, n as nat, seq![]) == shifted(
                spec_items(d, cursor.pos(), (n - i) as nat, items_view(out@)),
                cursor.pos() - p0,
            ),
        decreases n - i,
    {
        let ghost pi = cursor.pos();
        let ghost acc = items_view(out@);
        proof {
            cursor.lemma_bounds();
        }
        let key = match read_pascal_id(cursor) {
            Ok(v) => v,
            Err(e) => return Err(scan_err(e)),
        };
        let ghost p1 = cursor.pos();
        let value = read_descriptor_value(cursor)?;
        let ghost c = (cursor.pos() - p1) as nat;
        proof {
            assert(out@.push((key, value)).drop_last() =~= out@);
            assert(items_view(out@.push((key, value))) =~= acc.push((key@, value_view(value))));
        }
        out.push((key, value));
        i = i + 1;
    }
    Ok(out)
}

/// Reads `n` list values (see `spec_values`).
fn read_values(cursor: &mut SliceCursor, n: u32) -> (r: Result<Vec<DescriptorValue>, DescriptorError>)
    requires
        old(cursor).wf(),
    ensures
        final(cursor).wf(),
        final(cursor).data() == old(cursor).data(),
        match spec_values(old(cursor).data(), old(cursor).pos(), n as nat, seq![]) {
            Ok((v, c)) => r matches Ok(x) && values_view(x@) == v && final(cursor).pos() == old(cursor).pos() + c,
            Err(e) => r matches Err(x) && x@ == e,
        },
    decreases rest(old(cursor).data(), old(cursor).pos()), 2int, n,
{
    let ghost d = cursor.data();
    let ghost p0 = cursor.pos();
    proof {
        cursor.lemma_bounds();
    }
    let mut out: Vec<DescriptorValue> = Vec::new();
    let mut i: u32 = 0;
    while i < n
        invariant
            cursor.wf(),
            cursor.data() == d,
            0 <= p0 <= cursor.pos(),
            p0 == old(cursor).pos(),
            d == old(cursor).data(),
            i <= n,
            spec_values(d, p0, n as nat, seq![]) == shifted(
                spec_values(d, cursor.pos(), (n - i) as nat, values_view(out@)),
                cursor.pos() - p0,
            ),
        decreases n - i,
    {
        let ghost acc = values_view(out@);
        proof {
            cursor.lemma_bounds();
        }
        let value = read_descriptor_value(cursor)?;
        proof {
            assert(out@.push(value).drop_last() =~= out@);
            assert(values_view(out@.push(value)) =~= acc.push(value_view(value)));
        }
        out.push(value);
        i = i + 1;
    }
    Ok(out)
}

/// Reads a descriptor value (see `spec_value`).
pub fn read_descriptor_value(cursor: &mut SliceCursor) -> (r: Result<DescriptorValue, DescriptorError>)
    requires
        old(cursor).wf(),
    ensures
        final(cursor).wf(),
        final(cursor).data() == old(cursor).data(),
        match spec_value(old(cursor).data(), old(cursor).pos()) {
            Ok((v, c)) => r matches Ok(x) && value_view(x) == v && final(cursor).pos() == old(cursor).pos() + c,
            Err(e) => r matches Err(x) && x@ == e,
        },
    decreases rest(old(cursor).data(), old(cursor).pos()), 1int, 0int,
{
    let ghost d = cursor.data();
    let ghost p = cursor.pos();
    proof {
        cursor.lemma_bounds();
    }
    let tag = match cursor.read_b4() {
        Ok(t) => t,
        Err(e) => return Err(scan_err(e)),
    };
    proof {
        cursor.lemma_bounds();
    }
    if bytes_are(tag, 0x6C, 0x6F, 0x6E, 0x67) {
        let v = match cursor.read_i32() {
            Ok(v) => v,
            Err(e) => return Err(scan_err(e)),
        };
        return Ok(DescriptorValue::Integer(v));
    }
    if bytes_are(tag, 0x64, 0x6F, 0x75, 0x62) {
        let v = match read_u64(cursor) {
            Ok(v) => v,
            Err(e) => return Err(scan_err(e)),
        };
        return Ok(DescriptorValue::Double(v));
    }
    if bytes_are(tag, 0x55, 0x6E, 0x74, 0x46) {
        if cursor.remaining() < 12 {
            return Err(scan_err(ScanError::UnexpectedEnd));
        }
        let unit = match cursor.read_b4() {
            Ok(u) => u,
            Err(e) => return Err(scan_err(e)),
        };
        let v = match read_u64(cursor) {
            Ok(v) => v,
            Err(e) => return Err(scan_err(e)),
        };
        return Ok(DescriptorValue::UnitFloat { unit: decode_utf8_lossy(&unit), value: v });
    }
    if bytes_are(tag, 0x62, 0x6F, 0x6F, 0x6C) {
        let b = match cursor.read_u8() {
            Ok(b) => b,
            Err(e) => return Err(scan_err(e)),
        };
        return Ok(DescriptorValue::Boolean(b != 0));
    }
    if bytes_are(tag, 0x54, 0x45, 0x58, 0x54) {
        let n = match cursor.read_u32() {
            Ok(v) => v,
            Err(e) => return Err(scan_err(e)),
        };
        let ghost q = cursor.pos();
        let mut words: Vec<u16> = Vec::new();
        let mut i: u32 = 0;
        while i < n
            invariant
                cursor.wf(),
                cursor.data() == d,
                d == old(cursor).data(),
                p == old(cursor).pos(),
                0 <= p,
                p + 8 <= d.len(),
                d.subrange(p, p + 4) == tag_text(),
                q == p + 8,
                n == be_u32_at(d, p + 4),
                i <= n,
                cursor.pos() == q + 2 * i,
                words@ == u16s_at(d, q, i as nat),
            decreases n - i,
        {
            proof {
                cursor.lemma_bounds();
            }
            let w = match cursor.read_u16() {
                Ok(w) => w,
                Err(e) => return Err(scan_err(e)),
            };
            words.push(w);
            i = i + 1;
            assert(words@ =~= u16s_at(d, q, i as nat));
        }
        proof {
            cursor.lemma_bounds();
        }
        let text = decode_utf16_lossy(words.as_slice());
        return Ok(DescriptorValue::Text(trim_trailing_nul_chars(text.as_str())));
    }
    if bytes_are(tag, 0x74, 0x64, 0x74, 0x61) {
        let n = match cursor.read_u32() {
            Ok(v) => v,
            Err(e) => return Err(scan_err(e)),
        };
        let bytes = match cursor.read_bytes(n as usize) {
            Ok(b) => b,
            Err(e) => return Err(scan_err(e)),
        };
        return Ok(DescriptorValue::RawData(bytes));
    }
    if bytes_are(tag, 0x4F, 0x62, 0x6A, 0x63) {
        let o = read_descriptor(cursor)?;
        return Ok(DescriptorValue::Object(Box::new(o)));
    }
    if bytes_are(tag, 0x65, 0x6E, 0x75, 0x6D) {
        let kind = match read_pascal_id(cursor) {
            Ok(v) => v,
            Err(e) => return Err(scan_err(e)),
        };
        let value = match read_pascal_id(cursor) {
            Ok(v) => v,
            Err(e) => return Err(scan_err(e)),
        };
        return Ok(DescriptorValue::Enum { kind, value });
    }
    if bytes_are(tag, 0x56, 0x6C, 0x4C, 0x73) {
        let count = match cursor.read_u32() {
            Ok(v) => v,
            Err(e) => return Err(scan_err(e)),
        };
        let values = read_values(cursor, count)?;
        return Ok(DescriptorValue::List(values));
    }
    Err(DescriptorError::UnsupportedValueType(decode_utf8_lossy(&tag)))
}


/// Whether a value is of a kind looked for: 0 a descriptor, 1 an
/// enumerated value, 2 a flag, 3 a number (integer, double or unit value),
/// 4 text.
pub open spec fn has_kind(v: DescValueView, kind: int) -> bool {
    if kind == 0 {
        v is Object
    } else if kind == 1 {
        v is Enum
    } else if kind == 2 {
        v is Boolean
    } else if kind == 3 {
        v is Integer || v is Double || v is UnitFloat
    } else {
        v is Text
    }
}

/// The first item from `i` on whose key is one of `keys` and whose value
/// is of the kind looked for.
pub open spec fn first_match(items: Seq<(Seq<char>, DescValueView)>, keys: Seq<Seq<char>>, kind: int, i: int) -> Option<
    int,
>
    decreases items.len() - i,
{
    if i < 0 || i >= items.len() {
        None
    } else if keys.contains(items[i].0) && has_kind(items[i].1, kind) {
        Some(i)
    } else {
        first_match(items, keys, kind, i + 1)
    }
}

proof fn lemma_first_match(items: Seq<(Seq<char>, DescValueView)>, keys: Seq<Seq<char>>, kind: int, i: int)
    requires
        0 <= i,
    ensures
        first_match(items, keys, kind, i) matches Some(j) ==> i <= j < items.len() && keys.contains(items[j].0)
            && has_kind(items[j].1, kind),
    decreases items.len() - i,
{
    if i < items.len() && !(keys.contains(items[i].0) && has_kind(items[i].1, kind)) {
        lemma_first_match(items, keys, kind, i + 1);
    }
}

/// The views of the keys looked for.
pub open spec fn key_views(keys: Seq<&str>) -> Seq<Seq<char>> {
    keys.map_values(|k: &str| k@)
}

/// Whether `name` is one of `keys`.
fn key_listed(keys: &[&str], name: &str) -> (r: bool)
    ensures
        r == key_views(keys@).contains(name@),
{
    let mut i: usize = 0;
    while i < keys.len()
        invariant
            i <= keys@.len(),
            forall|k: int| 0 <= k < i ==> keys@[k]@ != name@,
        decreases keys.len() - i,
    {
        if crate::photoshop::str_eq(keys[i], name) {
            assert(key_views(keys@)[i as int] == name@);
            return true;
        }
        i = i + 1;
    }
    proof {
        if key_views(keys@).contains(name@) {
            let k = choose|k: int| 0 <= k < key_views(keys@).len() && key_views(keys@)[k] == name@;
            assert(keys@[k]@ == name@);
        }
    }
    false
}

/// Where the first item listed under one of `keys` whose value is of the
/// kind looked for (see `has_kind`) lies.
fn find_item(d: &Descriptor, keys: &[&str], kind: u8) -> (r: Option<usize>)
    requires
        kind <= 4,
    ensures
        match first_match(desc_view(*d).items, key_views(keys@), kind as int, 0) {
            Some(j) => 0 <= j < d.items@.len() && (r matches Some(k) && k as int == j),
            None => r is None,
        },
        r matches Some(j) ==> j < d.items@.len() && desc_view(*d).items[j as int] == (
            d.items@[j as int].0@,
            value_view(d.items@[j as int].1),
        ) && has_kind(value_view(d.items@[j as int].1), kind as int),
{
    let ghost iv = desc_view(*d).items;
    proof {
        lemma_items_view(d.items@);
        lemma_first_match(iv, key_views(keys@), kind as int, 0);
    }
    let mut i: usize = 0;
    while i < d.items.len()
        invariant
            i <= d.items@.len(),
            kind <= 4,
            iv == desc_view(*d).items,
            iv.len() == d.items@.len(),
            forall|k: int| 0 <= k < d.items@.len() ==> #[trigger] iv[k] == (d.items@[k].0@, value_view(d.items@[k].1)),
            first_match(iv, key_views(keys@), kind as int, 0) == first_match(iv, key_views(keys@), kind as int, i as int),
        decreases d.items.len() - i,
    {
        let ghost v = iv[i as int];
        let wanted = match &d.items[i].1 {
            DescriptorValue::Object(_) => kind == 0,
            DescriptorValue::Enum { .. } => kind == 1,
            DescriptorValue::Boolean(_) => kind == 2,
            DescriptorValue::Integer(_) | DescriptorValue::Double(_) | DescriptorValue::UnitFloat { .. } => kind == 3,
            DescriptorValue::Text(_) => kind == 4,
            _ => false,
        };
        assert(wanted == has_kind(v.1, kind as int));
        if wanted && key_listed(keys, d.items[i].0.as_str()) {
            return Some(i);
        }
        i = i + 1;
    }
    None
}

/// `items_view` maps each item to its view.
pub proof fn lemma_items_view(s: Seq<(String, DescriptorValue)>)
    ensures
        items_view(s).len() == s.len(),
        forall|i: int| 0 <= i < s.len() ==> #[trigger] items_view(s)[i] == (s[i].0@, value_view(s[i].1)),
    decreases s.len(),
{
    if s.len() > 0 {
        lemma_items_view(s.drop_last());
    }
}

/// The descriptor stored under the first of `keys` that holds one.
pub fn descriptor_object_by_keys<'a>(d: &'a Descriptor, keys: &[&str]) -> (r: Option<&'a Descriptor>)
    ensures
        match first_match(desc_view(*d).items, key_views(keys@), 0, 0) {
            Some(j) => r matches Some(o) && desc_view(*d).items[j].1 == DescValueView::Object(desc_view(*o)),
            None => r is None,
        },
{
    match find_item(d, keys, 0) {
        Some(j) => match &d.items[j].1 {
            DescriptorValue::Object(o) => Some(&**o),
            _ => None,
        },
        None => None,
    }
}

/// The enumerated value stored under the first of `keys` that holds one.
pub fn descriptor_enum_by_keys(d: &Descriptor, keys: &[&str]) -> (r: Option<String>)
    ensures
        match first_match(desc_view(*d).items, key_views(keys@), 1, 0) {
            Some(j) => r matches Some(s) && desc_view(*d).items[j].1 matches DescValueView::Enum { value, .. } && s@
                == value,
            None => r is None,
        },
{
    match find_item(d, keys, 1) {
        Some(j) => match &d.items[j].1 {
            DescriptorValue::Enum { value, .. } => Some(crate::text::owned(value.as_str())),
            _ => None,
        },
        None => None,
    }
}

/// The flag stored under the first of `keys` that holds one.
pub fn descriptor_bool_by_keys(d: &Descriptor, keys: &[&str]) -> (r: Option<bool>)
    ensures
        match first_match(desc_view(*d).items, key_views(keys@), 2, 0) {
            Some(j) => r == Some(desc_view(*d).items[j].1->Boolean_0),
            None => r is None,
        },
{
    match find_item(d, keys, 2) {
        Some(j) => match &d.items[j].1 {
            DescriptorValue::Boolean(b) => Some(*b),
            _ => None,
        },
        None => None,
    }
}

/// The number (an integer, a double or a unit value) stored under the
/// first of `keys` that holds one.
pub fn descriptor_number_by_keys<'a>(d: &'a Descriptor, keys: &[&str]) -> (r: Option<&'a DescriptorValue>)
    ensures
        match first_match(desc_view(*d).items, key_views(keys@), 3, 0) {
            Some(j) => r matches Some(v) && value_view(*v) == desc_view(*d).items[j].1,
            None => r is None,
        },
{
    match find_item(d, keys, 3) {
        Some(j) => Some(&d.items[j].1),
        None => None,
    }
}

/// The text stored under `key`, if the first item under it holding text
/// says so.
pub fn descriptor_text_value(d: &Descriptor, key: &str) -> (r: Option<String>)
    ensures
        match first_match(desc_view(*d).items, seq![key@], 4, 0) {
            Some(j) => r matches Some(s) && desc_view(*d).items[j].1 == DescValueView::Text(s@),
            None => r is None,
        },
{
    let keys = [key];
    assert(key_views(keys@) =~= seq![key@]);
    match find_item(d, &keys, 4) {
        Some(j) => match &d.items[j].1 {
            DescriptorValue::Text(t) => Some(crate::text::owned(t.as_str())),
            _ => None,
        },
        None => None,
    }
}

/// The text of a type tool descriptor: under `Txt `, else under `textKey`.
pub fn descriptor_text(d: &Descriptor) -> (r: Option<String>)
    ensures
        match first_match(desc_view(*d).items, seq!["Txt "@], 4, 0) {
            Some(j) => r matches Some(s) && desc_view(*d).items[j].1 == DescValueView::Text(s@),
            None => match first_match(desc_view(*d).items, seq!["textKey"@], 4, 0) {
                Some(j) => r matches Some(s) && desc_view(*d).items[j].1 == DescValueView::Text(s@),
                None => r is None,
            },
        },
{
    match descriptor_text_value(d, "Txt ") {
        Some(t) => Some(t),
        None => descriptor_text_value(d, "textKey"),
    }
}

/// The first descriptor in the first list a descriptor holds.
pub open spec fn first_object_in(vs: Seq<DescValueView>, i: int) -> Option<DescView>
    decreases vs.len() - i,
{
    if i < 0 || i >= vs.len() {
        None
    } else if vs[i] is Object {
        Some(vs[i]->Object_0)
    } else {
        first_object_in(vs, i + 1)
    }
}

/// The first item holding a list.
pub open spec fn first_list(items: Seq<(Seq<char>, DescValueView)>, i: int) -> Option<Seq<DescValueView>>
    decreases items.len() - i,
{
    if i < 0 || i >= items.len() {
        None
    } else if items[i].1 is List {
        Some(items[i].1->List_0)
    } else {
        first_list(items, i + 1)
    }
}

/// The first descriptor inside a list the descriptor holds: the first
/// list that has one counts.
pub open spec fn spec_first_object_from_list(items: Seq<(Seq<char>, DescValueView)>, i: int) -> Option<DescView>
    decreases items.len() - i,
{
    if i < 0 || i >= items.len() {
        None
    } else if items[i].1 is List && first_object_in(items[i].1->List_0, 0) is Some {
        first_object_in(items[i].1->List_0, 0)
    } else {
        spec_first_object_from_list(items, i + 1)
    }
}

/// `values_view` maps each value to its view.
pub proof fn lemma_values_view(s: Seq<DescriptorValue>)
    ensures
        values_view(s).len() == s.len(),
        forall|i: int| 0 <= i < s.len() ==> #[trigger] values_view(s)[i] == value_view(s[i]),
    decreases s.len(),
{
    if s.len() > 0 {
        lemma_values_view(s.drop_last());
    }
}

fn first_object_in_list<'a>(vs: &'a Vec<DescriptorValue>) -> (r: Option<&'a Descriptor>)
    ensures
        match first_object_in(values_view(vs@), 0) {
            Some(o) => r matches Some(x) && desc_view(*x) == o,
            None => r is None,
        },
{
    let ghost vv = values_view(vs@);
    proof {
        lemma_values_view(vs@);
    }
    let mut i: usize = 0;
    while i < vs.len()
        invariant
            i <= vs@.len(),
            vv == values_view(vs@),
            vv.len() == vs@.len(),
            forall|k: int| 0 <= k < vs@.len() ==> #[trigger] vv[k] == value_view(vs@[k]),
            first_object_in(vv, 0) == first_object_in(vv, i as int),
        decreases vs.len() - i,
    {
        match &vs[i] {
            DescriptorValue::Object(o) => {
                return Some(&**o);
            },
            _ => {},
        }
        i = i + 1;
    }
    None
}

/// The first descriptor inside a list the descriptor holds (see
/// `spec_first_object_from_list`).
pub fn first_object_from_list<'a>(d: &'a Descriptor) -> (r: Option<&'a Descriptor>)
    ensures
        match spec_first_object_from_list(desc_view(*d).items, 0) {
            Some(o) => r matches Some(x) && desc_view(*x) == o,
            None => r is None,
        },
{
    let ghost iv = desc_view(*d).items;
    proof {
        lemma_items_view(d.items@);
    }
    let mut i: usize = 0;
    while i < d.items.len()
        invariant
            i <= d.items@.len(),
            iv == desc_view(*d).items,
            iv.len() == d.items@.len(),
            forall|k: int| 0 <= k < d.items@.len() ==> #[trigger] iv[k] == (d.items@[k].0@, value_view(d.items@[k].1)),
            spec_first_object_from_list(iv, 0) == spec_first_object_from_list(iv, i as int),
        decreases d.items.len() - i,
    {
        match &d.items[i].1 {
            DescriptorValue::List(vs) => {
                match first_object_in_list(vs) {
                    Some(o) => return Some(o),
                    None => {},
                }
            },
            _ => {},
        }
        i = i + 1;
    }
    None
}


/// The UTF-8 encoding of a character.
pub open spec fn utf8_char(c: char) -> Seq<u8> {
    let v = c as u32 as int;
    if v < 0x80 {
        seq![v as u8]
    } else if v < 0x800 {
        seq![(0xC0 + v / 64) as u8, (0x80 + v % 64) as u8]
    } else if v < 0x10000 {
        seq![(0xE0 + v / 4096) as u8, (0x80 + (v / 64) % 64) as u8, (0x80 + v % 64) as u8]
    } else {
        seq![
            (0xF0 + v / 262144) as u8,
            (0x80 + (v / 4096) % 64) as u8,
            (0x80 + (v / 64) % 64) as u8,
            (0x80 + v % 64) as u8,
        ]
    }
}

/// The UTF-8 encoding of a text.
pub open spec fn utf8_of(s: Seq<char>) -> Seq<u8>
    decreases s.len(),
{
    if s.len() == 0 {
        seq![]
    } else {
        utf8_of(s.drop_last()) + utf8_char(s.last())
    }
}

/// The UTF-8 encoding of a character, appended to `out`.
fn push_utf8_char(out: &mut Vec<u8>, c: char)
    ensures
        final(out)@ == old(out)@ + utf8_char(c),
{
    let v = c as u32;
    if v < 0x80 {
        out.push(v as u8);
    } else if v < 0x800 {
        out.push((0xC0 + v / 64) as u8);
        out.push((0x80 + v % 64) as u8);
    } else if v < 0x10000 {
        out.push((0xE0 + v / 4096) as u8);
        out.push((0x80 + (v / 64) % 64) as u8);
        out.push((0x80 + v % 64) as u8);
    } else {
        out.push((0xF0 + v / 262144) as u8);
        out.push((0x80 + (v / 4096) % 64) as u8);
        out.push((0x80 + (v / 64) % 64) as u8);
        out.push((0x80 + v % 64) as u8);
    }
    assert(final(out)@ =~= old(out)@ + utf8_char(c));
}

/// The UTF-8 encoding of a text (the bytes `str::as_bytes` holds).
fn text_bytes(s: &str) -> (r: Vec<u8>)
    ensures
        r@ == utf8_of(s@),
{
    let cs = crate::text::chars_of(s);
    let mut out: Vec<u8> = Vec::new();
    let mut i: usize = 0;
    assert(cs@.subrange(0, 0) =~= Seq::<char>::empty());
    while i < cs.len()
        invariant
            cs@ == s@,
            i <= cs@.len(),
            out@ == utf8_of(cs@.subrange(0, i as int)),
        decreases cs.len() - i,
    {
        push_utf8_char(&mut out, cs[i]);
        assert(cs@.subrange(0, i + 1).drop_last() =~= cs@.subrange(0, i as int));
        assert(cs@.subrange(0, i + 1).last() == cs@[i as int]);
        i = i + 1;
    }
    assert(cs@.subrange(0, i as int) =~= s@);
    out
}

/// The engine data of a type tool descriptor: the first `EngineData` item
/// that holds text (its UTF-8 bytes) or raw data (without trailing NUL
/// bytes).
pub open spec fn spec_engine_data(items: Seq<(Seq<char>, DescValueView)>, i: int) -> Option<Seq<u8>>
    decreases items.len() - i,
{
    if i < 0 || i >= items.len() {
        None
    } else if items[i].0 == "EngineData"@ && items[i].1 is Text {
        Some(utf8_of(items[i].1->Text_0))
    } else if items[i].0 == "EngineData"@ && items[i].1 is RawData {
        Some(crate::engine::spec_trim_trailing_nuls(items[i].1->RawData_0))
    } else {
        spec_engine_data(items, i + 1)
    }
}

/// The engine data of a type tool descriptor (see `spec_engine_data`).
pub fn descriptor_engine_data(d: &Descriptor) -> (r: Option<Vec<u8>>)
    ensures
        match spec_engine_data(desc_view(*d).items, 0) {
            Some(b) => r matches Some(x) && x@ == b,
            None => r is None,
        },
{
    let ghost iv = desc_view(*d).items;
    proof {
        lemma_items_view(d.items@);
    }
    let mut i: usize = 0;
    while i < d.items.len()
        invariant
            i <= d.items@.len(),
            iv == desc_view(*d).items,
            iv.len() == d.items@.len(),
            forall|k: int| 0 <= k < d.items@.len() ==> #[trigger] iv[k] == (d.items@[k].0@, value_view(d.items@[k].1)),
            spec_engine_data(iv, 0) == spec_engine_data(iv, i as int),
        decreases d.items.len() - i,
    {
        if crate::photoshop::str_eq(d.items[i].0.as_str(), "EngineData") {
            match &d.items[i].1 {
                DescriptorValue::Text(t) => {
                    return Some(text_bytes(t.as_str()));
                },
                DescriptorValue::RawData(b) => {
                    return Some(crate::engine::trim_trailing_nuls(b.as_slice()));
                },
                _ => {},
            }
        }
        i = i + 1;
    }
    None
}



/// A solid color fill block (`SoCo`): a version, then a descriptor.
pub open spec fn spec_fill_block(d: Seq<u8>) -> Result<(DescView, nat), DescErrorView> {
    if d.len() < 4 {
        end_err()
    } else {
        shifted(spec_descriptor(d, 4), 4)
    }
}

/// A vector stroke block (`vstk`, `vscg`): a descriptor after a version of
/// 16, or after another value and a version of 16.
pub open spec fn spec_stroke_block(d: Seq<u8>) -> Result<(DescView, nat), DescErrorView> {
    if d.len() < 4 {
        end_err()
    } else if be_u32_at(d, 0) == 16 {
        shifted(spec_descriptor(d, 4), 4)
    } else if d.len() < 8 {
        end_err()
    } else if be_u32_at(d, 4) != 16 {
        Err(DescErrorView::UnsupportedStrokeVersion)
    } else {
        shifted(spec_descriptor(d, 8), 8)
    }
}

/// A layer effects block (`lfx2`): two values, 0 and 16 or 16 and any,
/// then a descriptor.
pub open spec fn spec_effects_block(d: Seq<u8>) -> Result<(DescView, nat), DescErrorView> {
    if d.len() < 8 {
        end_err()
    } else if (be_u32_at(d, 0) == 0 && be_u32_at(d, 4) == 16) || be_u32_at(d, 0) == 16 {
        shifted(spec_descriptor(d, 8), 8)
    } else {
        Err(DescErrorView::UnsupportedEffectsVersion)
    }
}

/// Reads the descriptor of a solid color fill block (see `spec_fill_block`).
pub fn read_fill_block(cursor: &mut SliceCursor) -> (r: Result<Descriptor, DescriptorError>)
    requires
        old(cursor).wf(),
        old(cursor).pos() == 0,
    ensures
        match spec_fill_block(old(cursor).data()) {
            Ok((v, _)) => r matches Ok(x) && desc_view(x) == v,
            Err(e) => r matches Err(x) && x@ == e,
        },
{
    match cursor.read_u32() {
        Ok(_) => {},
        Err(e) => return Err(scan_err(e)),
    }
    read_descriptor(cursor)
}

/// Reads the descriptor of a vector stroke block (see `spec_stroke_block`).
pub fn read_stroke_block(cursor: &mut SliceCursor) -> (r: Result<Descriptor, DescriptorError>)
    requires
        old(cursor).wf(),
        old(cursor).pos() == 0,
    ensures
        match spec_stroke_block(old(cursor).data()) {
            Ok((v, _)) => r matches Ok(x) && desc_view(x) == v,
            Err(e) => r matches Err(x) && x@ == e,
        },
{
    let first = match cursor.read_u32() {
        Ok(v) => v,
        Err(e) => return Err(scan_err(e)),
    };
    if first != 16 {
        let second = match cursor.read_u32() {
            Ok(v) => v,
            Err(e) => return Err(scan_err(e)),
        };
        if second != 16 {
            return Err(DescriptorError::UnsupportedStrokeVersion);
        }
    }
    read_descriptor(cursor)
}

/// Reads the descriptor of a layer effects block (see `spec_effects_block`).
pub fn read_effects_block(cursor: &mut SliceCursor) -> (r: Result<Descriptor, DescriptorError>)
    requires
        old(cursor).wf(),
        old(cursor).pos() == 0,
    ensures
        match spec_effects_block(old(cursor).data()) {
            Ok((v, _)) => r matches Ok(x) && desc_view(x) == v,
            Err(e) => r matches Err(x) && x@ == e,
        },
{
    let first = match cursor.read_u32() {
        Ok(v) => v,
        Err(e) => return Err(scan_err(e)),
    };
    let second = match cursor.read_u32() {
        Ok(v) => v,
        Err(e) => return Err(scan_err(e)),
    };
    if (first == 0 && second == 16) || first == 16 {
        read_descriptor(cursor)
    } else {
        Err(DescriptorError::UnsupportedEffectsVersion)
    }
}

/// The head of a type tool block: its transform (six doubles, as bits) and
/// its text descriptor.
#[derive(Debug)]
pub struct TypeToolHead {
    pub transform: [u64; 6],
    pub text: Descriptor,
}

/// The head of a type tool block (`TySh`) at `p`: a version, six doubles,
/// a text version, a descriptor version, then the text descriptor.
pub open spec fn spec_type_tool_head(d: Seq<u8>, p: int) -> Result<(Seq<u64>, DescView, nat), DescErrorView> {
    if p < 0 || p + 2 + 48 + 6 > d.len() {
        end_err()
    } else {
        match spec_descriptor(d, p + 56) {
            Err(e) => Err(e),
            Ok((v, c)) => Ok((Seq::new(6, |i: int| be_u64_at(d, p + 2 + 8 * i) as u64), v, 56 + c)),
        }
    }
}

/// Reads the head of a type tool block (see `spec_type_tool_head`).
pub fn read_type_tool_head(cursor: &mut SliceCursor) -> (r: Result<TypeToolHead, DescriptorError>)
    requires
        old(cursor).wf(),
    ensures
        final(cursor).wf(),
        final(cursor).data() == old(cursor).data(),
        match spec_type_tool_head(old(cursor).data(), old(cursor).pos()) {
            Ok((t, v, c)) => r matches Ok(x) && x.transform@ == t && desc_view(x.text) == v && final(cursor).pos()
                == old(cursor).pos() + c,
            Err(e) => r matches Err(x) && x@ == e,
        },
{
    let ghost d = cursor.data();
    let ghost p = cursor.pos();
    proof {
        cursor.lemma_bounds();
    }
    if cursor.remaining() < 56 {
        return Err(scan_err(ScanError::UnexpectedEnd));
    }
    match cursor.read_u16() {
        Ok(_) => {},
        Err(e) => return Err(scan_err(e)),
    }
    let mut transform: [u64; 6] = [0; 6];
    let mut i: usize = 0;
    while i < 6
        invariant
            cursor.wf(),
            cursor.data() == d,
            d == old(cursor).data(),
            p == old(cursor).pos(),
            0 <= p,
            p + 56 <= d.len(),
            i <= 6,
            cursor.pos() == p + 2 + 8 * i,
            forall|k: int| 0 <= k < i ==> #[trigger] transform@[k] == be_u64_at(d, p + 2 + 8 * k) as u64,
            transform@.len() == 6,
        decreases 6 - i,
    {
        let v = match read_u64(cursor) {
            Ok(v) => v,
            Err(e) => return Err(scan_err(e)),
        };
        transform.set(i, v);
        i = i + 1;
    }
    match cursor.read_u16() {
        Ok(_) => {},
        Err(e) => return Err(scan_err(e)),
    }
    match cursor.read_u32() {
        Ok(_) => {},
        Err(e) => return Err(scan_err(e)),
    }
    let text = read_descriptor(cursor)?;
    assert(transform@ =~= Seq::new(6, |i: int| be_u64_at(d, p + 2 + 8 * i) as u64));
    Ok(TypeToolHead { transform, text })
}

/// The tail of a type tool block at `p`: a warp version, a descriptor
/// version, the warp descriptor, and four 32-bit bounds.
pub open spec fn spec_type_tool_tail(d: Seq<u8>, p: int) -> Result<nat, DescErrorView> {
    if p < 0 || p + 6 > d.len() {
        end_err()
    } else {
        match spec_descriptor(d, p + 6) {
            Err(e) => Err(e),
            Ok((_, c)) => if p + 6 + c + 16 > d.len() {
                end_err()
            } else {
                Ok(6 + c + 16)
            },
        }
    }
}

/// Reads past the tail of a type tool block (see `spec_type_tool_tail`).
pub fn read_type_tool_tail(cursor: &mut SliceCursor) -> (r: Result<(), DescriptorError>)
    requires
        old(cursor).wf(),
    ensures
        final(cursor).wf(),
        final(cursor).data() == old(cursor).data(),
        match spec_type_tool_tail(old(cursor).data(), old(cursor).pos()) {
            Ok(c) => r is Ok && final(cursor).pos() == old(cursor).pos() + c,
            Err(e) => r matches Err(x) && x@ == e,
        },
{
    proof {
        cursor.lemma_bounds();
    }
    if cursor.remaining() < 6 {
        return Err(scan_err(ScanError::UnexpectedEnd));
    }
    match cursor.read_u16() {
        Ok(_) => {},
        Err(e) => return Err(scan_err(e)),
    }
    match cursor.read_u32() {
        Ok(_) => {},
        Err(e) => return Err(scan_err(e)),
    }
    let _warp = read_descriptor(cursor)?;
    proof {
        cursor.lemma_bounds();
    }
    if cursor.remaining() < 16 {
        return Err(scan_err(ScanError::UnexpectedEnd));
    }
    match cursor.skip(16) {
        Ok(()) => {},
        Err(e) => return Err(scan_err(e)),
    }
    Ok(())
}

} // verus!
