use vstd::prelude::*;

use crate::manifest::{ManifestBounds, ManifestCharacterRun, ManifestColor, ManifestEffects, ManifestLayer, ManifestParagraphRun, ManifestText, ManifestUnsupported};
use crate::models::{COMPONENT_BUTTON, COMPONENT_CONTAINER, COMPONENT_IMAGE_PLACEHOLDER, COMPONENT_MASK_GROUP, COMPONENT_SCROLL_VIEW, COMPONENT_TMP_TEXT, InteractionSpec, InteractionSpecView, PlanMetadata, PlanMetadataView, PlanNode, PlanNodeView, PlanRect, RecoveredText, RecoveredTextCharacterRun, RecoveredTextCharacterRunView, RecoveredTextParagraphRun, RecoveredTextParagraphRunView, RecoveredTextView, ReviewItem, ReviewItemView, ostr, otext, plan_view, plan_views, review_views, unsupported_views};
use crate::text::{chars_of, owned, push_char, push_str};

verus! {

/// `v` wrapped to 32 bits, as release-build `i32` arithmetic does.
pub open spec fn wrap32(v: int) -> i32 {
    v as i32
}

/// The smallest rectangle holding both (coordinates wrap as `i32`
/// arithmetic does in a release build).
pub open spec fn spec_union_bounds(a: ManifestBounds, b: ManifestBounds) -> ManifestBounds {
    let left = if a.x <= b.x { a.x } else { b.x };
    let top = if a.y <= b.y { a.y } else { b.y };
    let ar = wrap32(a.x + a.width);
    let br = wrap32(b.x + b.width);
    let ab = wrap32(a.y + a.height);
    let bb = wrap32(b.y + b.height);
    let right = if ar >= br { ar } else { br };
    let bottom = if ab >= bb { ab } else { bb };
    ManifestBounds { x: left, y: top, width: wrap32(right - left), height: wrap32(bottom - top) }
}

/// The smallest rectangle holding both.
pub fn union_bounds(a: &ManifestBounds, b: &ManifestBounds) -> (r: ManifestBounds)
    ensures
        r == spec_union_bounds(*a, *b),
{
    let left = if a.x <= b.x { a.x } else { b.x };
    let top = if a.y <= b.y { a.y } else { b.y };
    let ar = (a.x as i64 + a.width as i64) as i32;
    let br = (b.x as i64 + b.width as i64) as i32;
    let ab = (a.y as i64 + a.height as i64) as i32;
    let bb = (b.y as i64 + b.height as i64) as i32;
    let right = if ar >= br { ar } else { br };
    let bottom = if ab >= bb { ab } else { bb };
    ManifestBounds {
        x: left,
        y: top,
        width: (right as i64 - left as i64) as i32,
        height: (bottom as i64 - top as i64) as i32,
    }
}

/// A rectangle with its position relative to the parent's.
pub open spec fn spec_plan_rect(b: ManifestBounds, parent: ManifestBounds) -> PlanRect {
    PlanRect {
        x: b.x,
        y: b.y,
        width: b.width,
        height: b.height,
        local_x: wrap32(b.x - parent.x),
        local_y: wrap32(b.y - parent.y),
    }
}

/// A rectangle with its position relative to the parent's.
pub fn plan_rect(bounds: &ManifestBounds, parent_bounds: &ManifestBounds) -> (r: PlanRect)
    ensures
        r == spec_plan_rect(*bounds, *parent_bounds),
        r.x == bounds.x && r.y == bounds.y,
        crate::plan_laws::placed_under(r, parent_bounds.x, parent_bounds.y),
{
    PlanRect {
        x: bounds.x,
        y: bounds.y,
        width: bounds.width,
        height: bounds.height,
        local_x: (bounds.x as i64 - parent_bounds.x as i64) as i32,
        local_y: (bounds.y as i64 - parent_bounds.y as i64) as i32,
    }
}

/// The rectangle of a layer: its own when it has a size or no children,
/// else the union of its visible children's non-empty rectangles (its own
/// when there are none).
pub open spec fn spec_resolve_bounds(l: ManifestLayer) -> ManifestBounds
    decreases l, 0int,
{
    if l.bounds.width > 0 || l.bounds.height > 0 || l.children@.len() == 0 {
        l.bounds
    } else {
        match union_resolved(l.children@, l.children@.len() as int) {
            Some(u) => u,
            None => l.bounds,
        }
    }
}

/// The union of the non-empty resolved rectangles of the visible layers
/// among `cs[..n]`, in order.
pub open spec fn union_resolved(cs: Seq<ManifestLayer>, n: int) -> Option<ManifestBounds>
    decreases cs, n,
{
    if n <= 0 || n > cs.len() {
        None
    } else {
        let acc = union_resolved(cs, n - 1);
        let c = cs[n - 1];
        if !c.visible {
            acc
        } else {
            let b = spec_resolve_bounds(c);
            if b.width <= 0 && b.height <= 0 {
                acc
            } else {
                match acc {
                    None => Some(b),
                    Some(a) => Some(spec_union_bounds(a, b)),
                }
            }
        }
    }
}

/// The rectangle of a layer (see `spec_resolve_bounds`).
pub fn resolve_bounds(layer: &ManifestLayer) -> (r: ManifestBounds)
    ensures
        r == spec_resolve_bounds(*layer),
    decreases layer,
{
    if layer.bounds.width > 0 || layer.bounds.height > 0 || layer.children.len() == 0 {
        return layer.bounds;
    }
    let ghost cs = layer.children@;
    let mut acc: Option<ManifestBounds> = None;
    let mut i: usize = 0;
    while i < layer.children.len()
        invariant
            cs == layer.children@,
            i <= cs.len(),
            acc == union_resolved(cs, i as int),
        decreases cs.len() - i,
    {
        let child = &layer.children[i];
        if child.visible {
            assert(decreases_to!(*layer => layer.children));
            assert(decreases_to!(layer.children => layer.children@));
            assert(decreases_to!(layer.children@ => layer.children@[i as int]));
            let b = resolve_bounds(child);
            if !(b.width <= 0 && b.height <= 0) {
                acc = match acc {
                    None => Some(b),
                    Some(a) => Some(union_bounds(&a, &b)),
                };
            }
        }
        i = i + 1;
    }
    match acc {
        Some(u) => u,
        None => layer.bounds,
    }
}

} // verus!

verus! {

/// Bit pattern of the `f32` confidence of manifest-backed text, 0.98.
pub const TEXT_CONFIDENCE: u32 = 0x3F7A_E148;

/// The trimmed text content, when not blank.
pub open spec fn spec_text_content(t: ManifestText) -> Option<Seq<char>> {
    match t.content {
        Some(c) => if crate::text::trim(c@).len() > 0 {
            Some(crate::text::trim(c@))
        } else {
            None
        },
        None => None,
    }
}

/// The trimmed text content, when not blank.
pub fn text_content(t: &ManifestText) -> (r: Option<String>)
    ensures
        ostr(r) == spec_text_content(*t),
{
    match &t.content {
        Some(c) => {
            let trimmed = crate::text::str_trim(c.as_str());
            if trimmed.as_str().is_empty() {
                None
            } else {
                Some(trimmed)
            }
        },
        None => None,
    }
}

/// `#RRGGBBAA` in capital hexadecimal.
pub open spec fn spec_color_hex(c: ManifestColor) -> Seq<char> {
    seq!['#'] + crate::text::hex_byte(c.r, true) + crate::text::hex_byte(c.g, true)
        + crate::text::hex_byte(c.b, true) + crate::text::hex_byte(c.a, true)
}

/// Writes a color as `#RRGGBBAA`.
pub fn color_to_hex(color: &ManifestColor) -> (s: String)
    ensures
        s@ == spec_color_hex(*color),
{
    let mut s = String::new();
    push_char(&mut s, '#');
    crate::text::push_hex_byte(&mut s, color.r, true);
    crate::text::push_hex_byte(&mut s, color.g, true);
    crate::text::push_hex_byte(&mut s, color.b, true);
    crate::text::push_hex_byte(&mut s, color.a, true);
    assert(s@ =~= spec_color_hex(*color));
    s
}

pub open spec fn ocolor_hex(c: Option<ManifestColor>) -> Option<Seq<char>> {
    match c {
        Some(c) => Some(spec_color_hex(c)),
        None => None,
    }
}

fn clone_opt(s: &Option<String>) -> (r: Option<String>)
    ensures
        ostr(r) == ostr(*s),
{
    match s {
        Some(v) => Some(v.clone()),
        None => None,
    }
}

/// A character run as the plan states it.
pub open spec fn spec_recover_character_run(r: ManifestCharacterRun) -> RecoveredTextCharacterRunView {
    RecoveredTextCharacterRunView {
        start: r.start,
        length: r.length,
        font_family: ostr(r.font_family),
        font_style: ostr(r.font_style),
        font_size: r.font_size,
        color: ocolor_hex(r.color),
    }
}

/// A character run as the plan states it.
pub fn recover_character_run(run: &ManifestCharacterRun) -> (r: RecoveredTextCharacterRun)
    ensures
        r@ == spec_recover_character_run(*run),
{
    RecoveredTextCharacterRun {
        start: run.start,
        length: run.length,
        font_family: clone_opt(&run.font_family),
        font_style: clone_opt(&run.font_style),
        font_size: run.font_size,
        color: match &run.color {
            Some(c) => Some(color_to_hex(c)),
            None => None,
        },
    }
}

/// A paragraph run as the plan states it.
pub open spec fn spec_recover_paragraph_run(r: ManifestParagraphRun) -> RecoveredTextParagraphRunView {
    RecoveredTextParagraphRunView { start: r.start, length: r.length, alignment: ostr(r.alignment) }
}

/// A paragraph run as the plan states it.
pub fn recover_paragraph_run(run: &ManifestParagraphRun) -> (r: RecoveredTextParagraphRun)
    ensures
        r@ == spec_recover_paragraph_run(*run),
{
    RecoveredTextParagraphRun {
        start: run.start,
        length: run.length,
        alignment: clone_opt(&run.alignment),
    }
}

/// The color of the first character run that has one.
pub open spec fn first_run_color(runs: Seq<ManifestCharacterRun>) -> Option<ManifestColor>
    decreases runs.len(),
{
    if runs.len() == 0 {
        None
    } else {
        match runs[0].color {
            Some(c) => Some(c),
            None => first_run_color(runs.drop_first()),
        }
    }
}

/// The text color: the text's own, else the first character run's.
pub open spec fn spec_resolved_text_color(t: ManifestText) -> Option<Seq<char>> {
    match t.color {
        Some(c) => Some(spec_color_hex(c)),
        None => ocolor_hex(first_run_color(t.character_runs@)),
    }
}

/// The text color: the text's own, else the first character run's.
pub fn resolved_text_color(t: &ManifestText) -> (r: Option<String>)
    ensures
        ostr(r) == spec_resolved_text_color(*t),
{
    match &t.color {
        Some(c) => Some(color_to_hex(c)),
        None => {
            let ghost runs = t.character_runs@;
            let mut i: usize = 0;
            assert(runs.subrange(0, runs.len() as int) =~= runs);
            while i < t.character_runs.len()
                invariant
                    t.color is None,
                    runs == t.character_runs@,
                    i <= runs.len(),
                    first_run_color(runs) == first_run_color(runs.subrange(i as int, runs.len() as int)),
                decreases runs.len() - i,
            {
                let ghost rest = runs.subrange(i as int, runs.len() as int);
                assert(rest[0] == runs[i as int]);
                assert(rest.drop_first() =~= runs.subrange(i + 1, runs.len() as int));
                match &t.character_runs[i].color {
                    Some(c) => {
                        return Some(color_to_hex(c));
                    },
                    None => {},
                }
                i = i + 1;
            }
            None
        },
    }
}

/// Text can be recovered from a layer whose text has character runs.
pub open spec fn has_character_runs(l: ManifestLayer) -> bool {
    match l.text {
        Some(t) => t.character_runs@.len() > 0,
        None => false,
    }
}

/// The text recovered from a layer's manifest text, when it has character
/// runs, and whether it needs review (its content is blank or missing).
pub open spec fn spec_recover_text(l: ManifestLayer) -> Option<(RecoveredTextView, bool)> {
    match l.text {
        Some(t) => if t.character_runs@.len() == 0 {
            None
        } else {
            Some(
                (
                    RecoveredTextView {
                        content: match spec_text_content(t) {
                            Some(c) => c,
                            None => seq![],
                        },
                        source: "manifest_text"@,
                        confidence: TEXT_CONFIDENCE,
                        character_runs: t.character_runs@.map_values(
                            |r: ManifestCharacterRun| spec_recover_character_run(r),
                        ),
                        paragraph_runs: t.paragraph_runs@.map_values(
                            |r: ManifestParagraphRun| spec_recover_paragraph_run(r),
                        ),
                        font_size: t.font_size,
                        alignment: ostr(t.alignment),
                        color: spec_resolved_text_color(t),
                    },
                    spec_text_content(t) is None,
                ),
            )
        },
        None => None,
    }
}

/// Recovered text and whether it needs review.
pub struct RecoveredTextCandidate {
    pub text: RecoveredText,
    pub needs_review: bool,
}

/// Recovers the text of a layer from its manifest text (see `spec_recover_text`).
pub fn recover_text(layer: &ManifestLayer) -> (r: Option<RecoveredTextCandidate>)
    ensures
        match r {
            Some(c) => spec_recover_text(*layer) == Some((c.text@, c.needs_review)),
            None => spec_recover_text(*layer) is None,
        },
{
    let t = match &layer.text {
        Some(t) => t,
        None => return None,
    };
    if t.character_runs.len() == 0 {
        return None;
    }
    let content = text_content(t);
    let needs_review = content.is_none();
    let mut runs: Vec<RecoveredTextCharacterRun> = Vec::new();
    let mut i: usize = 0;
    while i < t.character_runs.len()
        invariant
            i <= t.character_runs@.len(),
            runs@.len() == i,
            forall|k: int| 0 <= k < i ==> #[trigger] runs@[k]@ == spec_recover_character_run(t.character_runs@[k]),
        decreases t.character_runs.len() - i,
    {
        runs.push(recover_character_run(&t.character_runs[i]));
        i = i + 1;
    }
    let mut paras: Vec<RecoveredTextParagraphRun> = Vec::new();
    let mut j: usize = 0;
    while j < t.paragraph_runs.len()
        invariant
            j <= t.paragraph_runs@.len(),
            paras@.len() == j,
            forall|k: int| 0 <= k < j ==> #[trigger] paras@[k]@ == spec_recover_paragraph_run(t.paragraph_runs@[k]),
        decreases t.paragraph_runs.len() - j,
    {
        paras.push(recover_paragraph_run(&t.paragraph_runs[j]));
        j = j + 1;
    }
    let text = RecoveredText {
        content: match content {
            Some(c) => c,
            None => String::new(),
        },
        source: owned("manifest_text"),
        confidence: TEXT_CONFIDENCE,
        character_runs: runs,
        paragraph_runs: paras,
        font_size: t.font_size,
        alignment: clone_opt(&t.alignment),
        color: resolved_text_color(t),
    };
    assert(text@.character_runs =~= t.character_runs@.map_values(
        |r: ManifestCharacterRun| spec_recover_character_run(r),
    ));
    assert(text@.paragraph_runs =~= t.paragraph_runs@.map_values(
        |r: ManifestParagraphRun| spec_recover_paragraph_run(r),
    ));
    Some(RecoveredTextCandidate { text, needs_review })
}

} // verus!

verus! {

/// A layer name that suggests a button: `button` or `btn` in any ASCII
/// case, or 按钮, 领取, 确认 or 返回.
pub open spec fn spec_button_name_hint(name: Seq<char>) -> bool {
    let n = crate::text::ascii_lowercase(name);
    crate::text::contains(n, "button"@) || crate::text::contains(n, "btn"@) || crate::text::contains(
        name,
        "\u{6309}\u{94ae}"@,
    ) || crate::text::contains(name, "\u{9886}\u{53d6}"@) || crate::text::contains(
        name,
        "\u{786e}\u{8ba4}"@,
    ) || crate::text::contains(name, "\u{8fd4}\u{56de}"@)
}

/// Whether a layer name suggests a button.
pub fn button_name_hint(name: &str) -> (r: bool)
    ensures
        r == spec_button_name_hint(name@),
{
    let lower = crate::text::str_ascii_lowercase(name);
    let n = lower.as_str();
    crate::text::str_contains(n, "button") || crate::text::str_contains(n, "btn")
        || crate::text::str_contains(name, "\u{6309}\u{94ae}") || crate::text::str_contains(
        name,
        "\u{9886}\u{53d6}",
    ) || crate::text::str_contains(name, "\u{786e}\u{8ba4}") || crate::text::str_contains(
        name,
        "\u{8fd4}\u{56de}",
    )
}

/// A layer name that suggests a scroll view: `scroll`, `viewport`,
/// `content` or `list` in any ASCII case, or 列表 or 滚动.
pub open spec fn spec_scroll_name_hint(name: Seq<char>) -> bool {
    let n = crate::text::ascii_lowercase(name);
    crate::text::contains(n, "scroll"@) || crate::text::contains(n, "viewport"@)
        || crate::text::contains(n, "content"@) || crate::text::contains(n, "list"@)
        || crate::text::contains(name, "\u{5217}\u{8868}"@) || crate::text::contains(
        name,
        "\u{6eda}\u{52a8}"@,
    )
}

/// Whether a layer name suggests a scroll view.
pub fn scroll_name_hint(name: &str) -> (r: bool)
    ensures
        r == spec_scroll_name_hint(name@),
{
    let lower = crate::text::str_ascii_lowercase(name);
    let n = lower.as_str();
    crate::text::str_contains(n, "scroll") || crate::text::str_contains(n, "viewport")
        || crate::text::str_contains(n, "content") || crate::text::str_contains(n, "list")
        || crate::text::str_contains(name, "\u{5217}\u{8868}") || crate::text::str_contains(
        name,
        "\u{6eda}\u{52a8}",
    )
}

/// What identifier sanitizing keeps of one character: ASCII letters and
/// digits (made small), `-` and `_`; white space becomes `_`; the rest goes.
pub open spec fn identifier_part(c: char) -> Seq<char> {
    if crate::text::is_ascii_alnum(c) {
        seq![crate::text::ascii_lower(c)]
    } else if c == '-' || c == '_' {
        seq![c]
    } else if crate::text::is_unicode_whitespace(c) {
        seq!['_']
    } else {
        seq![]
    }
}

/// The characters identifier sanitizing keeps of `s`.
pub open spec fn identifier_chars(s: Seq<char>) -> Seq<char>
    decreases s.len(),
{
    if s.len() == 0 {
        seq![]
    } else {
        identifier_chars(s.drop_last()) + identifier_part(s.last())
    }
}

/// A document identifier made of `s`: `document` when nothing is kept.
pub open spec fn spec_sanitize_identifier(s: Seq<char>) -> Seq<char> {
    if identifier_chars(s).len() == 0 {
        "document"@
    } else {
        identifier_chars(s)
    }
}

/// Makes an identifier of `input` (see `spec_sanitize_identifier`).
pub fn sanitize_identifier(input: &str) -> (r: String)
    ensures
        r@ == spec_sanitize_identifier(input@),
{
    let v = chars_of(input);
    let mut out = String::new();
    let mut i: usize = 0;
    while i < v.len()
        invariant
            v@ == input@,
            i <= v@.len(),
            out@ == identifier_chars(input@.subrange(0, i as int)),
        decreases v.len() - i,
    {
        let c = v[i];
        assert(input@.subrange(0, i + 1).drop_last() =~= input@.subrange(0, i as int));
        if crate::text::ascii_alnum(c) {
            push_char(&mut out, crate::text::to_ascii_lower(c));
        } else if c == '-' || c == '_' {
            push_char(&mut out, c);
        } else if crate::text::is_whitespace(c) {
            push_char(&mut out, '_');
        }
        i = i + 1;
        assert(out@ =~= identifier_chars(input@.subrange(0, i as int)));
    }
    assert(input@.subrange(0, v@.len() as int) =~= input@);
    if out.as_str().is_empty() {
        owned("document")
    } else {
        out
    }
}

/// The document identifier of a bundle directory whose last path component
/// is `file_name` (`None` when it has none or it is not valid Unicode).
pub open spec fn spec_derive_document_id(file_name: Option<Seq<char>>) -> Seq<char> {
    spec_sanitize_identifier(
        crate::text::unicode_lowercase(
            match file_name {
                Some(n) => n,
                None => "document"@,
            },
        ),
    )
}

/// The document identifier of a bundle directory.
pub fn derive_document_id(file_name: Option<&str>) -> (r: String)
    ensures
        r@ == spec_derive_document_id(
            match file_name {
                Some(n) => Some(n@),
                None => None,
            },
        ),
{
    let name = match file_name {
        Some(n) => n,
        None => "document",
    };
    let lower = crate::text::to_unicode_lowercase(name);
    sanitize_identifier(lower.as_str())
}

/// Whether the effects member `key` is there and not `null`.
pub open spec fn effect_present(e: ManifestEffects, key: Seq<char>) -> bool {
    exists|i: int| 0 <= i < e.entries@.len() && e.entries@[i].key@ == key && e.entries@[i].present
}

/// Whether `key` is among the baked effects.
pub open spec fn effect_baked(e: ManifestEffects, key: Seq<char>) -> bool {
    exists|i: int| 0 <= i < e.baked@.len() && e.baked@[i]@ == key
}

/// Effects that the exported image does not show: a stroke or drop shadow
/// that is not baked, or any other effect.
pub open spec fn spec_has_unbaked_effects(e: ManifestEffects) -> bool {
    e.is_object && e.entries@.len() > 0 && (
    (effect_present(e, "stroke"@) && !effect_baked(e, "stroke"@)) || (effect_present(
        e,
        "drop_shadow"@,
    ) && !effect_baked(e, "drop_shadow"@)) || exists|i: int|
        0 <= i < e.entries@.len() && e.entries@[i].present && e.entries@[i].key@ != "baked"@
            && e.entries@[i].key@ != "stroke"@ && e.entries@[i].key@ != "drop_shadow"@)
}

fn effect_present_exec(e: &ManifestEffects, key: &str) -> (r: bool)
    ensures
        r == effect_present(*e, key@),
{
    let mut i: usize = 0;
    while i < e.entries.len()
        invariant
            i <= e.entries@.len(),
            forall|k: int| 0 <= k < i ==> !(e.entries@[k].key@ == key@ && e.entries@[k].present),
        decreases e.entries.len() - i,
    {
        if e.entries[i].present && crate::photoshop::str_eq(e.entries[i].key.as_str(), key) {
            return true;
        }
        i = i + 1;
    }
    false
}

fn effect_baked_exec(e: &ManifestEffects, key: &str) -> (r: bool)
    ensures
        r == effect_baked(*e, key@),
{
    let mut i: usize = 0;
    while i < e.baked.len()
        invariant
            i <= e.baked@.len(),
            forall|k: int| 0 <= k < i ==> e.baked@[k]@ != key@,
        decreases e.baked.len() - i,
    {
        if crate::photoshop::str_eq(e.baked[i].as_str(), key) {
            return true;
        }
        i = i + 1;
    }
    false
}

/// Whether the layer has effects that its exported image does not show.
pub fn has_unbaked_effects(e: &ManifestEffects) -> (r: bool)
    ensures
        r == spec_has_unbaked_effects(*e),
{
    if !e.is_object || e.entries.len() == 0 {
        return false;
    }
    if effect_present_exec(e, "stroke") && !effect_baked_exec(e, "stroke") {
        return true;
    }
    if effect_present_exec(e, "drop_shadow") && !effect_baked_exec(e, "drop_shadow") {
        return true;
    }
    let mut i: usize = 0;
    while i < e.entries.len()
        invariant
            e.is_object,
            e.entries@.len() > 0,
            i <= e.entries@.len(),
            forall|k: int|
                0 <= k < i ==> !(e.entries@[k].present && e.entries@[k].key@ != "baked"@
                    && e.entries@[k].key@ != "stroke"@ && e.entries@[k].key@ != "drop_shadow"@),
        decreases e.entries.len() - i,
    {
        let k = e.entries[i].key.as_str();
        if e.entries[i].present && !crate::photoshop::str_eq(k, "baked") && !crate::photoshop::str_eq(
            k,
            "stroke",
        ) && !crate::photoshop::str_eq(k, "drop_shadow") {
            assert(e.entries@[i as int].present && e.entries@[i as int].key@ != "baked"@
                && e.entries@[i as int].key@ != "stroke"@ && e.entries@[i as int].key@ != "drop_shadow"@);
            return true;
        }
        i = i + 1;
    }
    false
}

/// `rect` when the mask covers exactly the resolved rectangle, else `alpha`.
pub open spec fn spec_infer_mask_mode(mask: ManifestBounds, resolved: ManifestBounds) -> Seq<char> {
    if mask == resolved {
        "rect"@
    } else {
        "alpha"@
    }
}

/// How a mask applies to its layer.
pub fn infer_mask_mode(mask_bounds: &ManifestBounds, resolved_bounds: &ManifestBounds) -> (r: String)
    ensures
        r@ == spec_infer_mask_mode(*mask_bounds, *resolved_bounds),
{
    if mask_bounds.x == resolved_bounds.x && mask_bounds.y == resolved_bounds.y
        && mask_bounds.width == resolved_bounds.width && mask_bounds.height
        == resolved_bounds.height {
        owned("rect")
    } else {
        owned("alpha")
    }
}

/// `manifest` when the rectangle is the layer's own or it has no children,
/// else `children_union`.
pub open spec fn spec_bounds_source(l: ManifestLayer, resolved: ManifestBounds) -> Seq<char> {
    if l.bounds == resolved || l.children@.len() == 0 {
        "manifest"@
    } else {
        "children_union"@
    }
}

/// Where the resolved rectangle of a layer came from.
pub fn bounds_source(layer: &ManifestLayer, resolved_bounds: &ManifestBounds) -> (r: String)
    ensures
        r@ == spec_bounds_source(*layer, *resolved_bounds),
{
    if (layer.bounds.width == resolved_bounds.width && layer.bounds.height
        == resolved_bounds.height && layer.bounds.x == resolved_bounds.x && layer.bounds.y
        == resolved_bounds.y) || layer.children.len() == 0 {
        owned("manifest")
    } else {
        owned("children_union")
    }
}

} // verus!

verus! {

/// `sorted` with the index `x` placed after every index whose layer's
/// stack index is at most `x`'s (so equal keys keep their order).
pub open spec fn insert_by_stack(cs: Seq<ManifestLayer>, sorted: Seq<int>, x: int) -> Seq<int>
    decreases sorted.len(),
{
    if sorted.len() == 0 {
        seq![x]
    } else if cs[sorted.last()].stack_index <= cs[x].stack_index {
        sorted.push(x)
    } else {
        insert_by_stack(cs, sorted.drop_last(), x).push(sorted.last())
    }
}

/// The indices of the visible layers among `cs[..n]`, ordered by stack
/// index, equal stack indices in layer order.
pub open spec fn visible_order(cs: Seq<ManifestLayer>, n: int) -> Seq<int>
    decreases n,
{
    if n <= 0 {
        seq![]
    } else {
        let prev = visible_order(cs, n - 1);
        if cs[n - 1].visible {
            insert_by_stack(cs, prev, n - 1)
        } else {
            prev
        }
    }
}

/// The visible layers of `cs`, ordered by stack index.
pub open spec fn ordered_visible(cs: Seq<ManifestLayer>) -> Seq<int> {
    visible_order(cs, cs.len() as int)
}

proof fn lemma_insert_by_stack(cs: Seq<ManifestLayer>, s: Seq<int>, x: int, p: int)
    requires
        0 <= p <= s.len(),
        forall|j: int| p <= j < s.len() ==> cs[s[j]].stack_index > cs[x].stack_index,
        p == 0 || cs[s[p - 1]].stack_index <= cs[x].stack_index,
    ensures
        insert_by_stack(cs, s, x) == s.subrange(0, p).push(x) + s.subrange(p, s.len() as int),
    decreases s.len(),
{
    if s.len() == 0 {
        assert(s.subrange(0, p).push(x) + s.subrange(p, s.len() as int) =~= seq![x]);
    } else if cs[s.last()].stack_index <= cs[x].stack_index {
        assert(p == s.len());
        assert(s.subrange(0, p).push(x) + s.subrange(p, s.len() as int) =~= s.push(x));
    } else {
        let t = s.drop_last();
        lemma_insert_by_stack(cs, t, x, p);
        assert(s.subrange(0, p).push(x) + s.subrange(p, s.len() as int) =~= (t.subrange(0, p).push(x)
            + t.subrange(p, t.len() as int)).push(s.last()));
    }
}

proof fn lemma_visible_order_bounds(cs: Seq<ManifestLayer>, n: int)
    requires
        0 <= n <= cs.len(),
    ensures
        forall|j: int| 0 <= j < visible_order(cs, n).len() ==> 0 <= #[trigger] visible_order(cs, n)[j] < n,
    decreases n,
{
    if n > 0 {
        lemma_visible_order_bounds(cs, n - 1);
        let prev = visible_order(cs, n - 1);
        if cs[n - 1].visible {
            lemma_insert_members(cs, prev, n - 1);
        }
    }
}

proof fn lemma_insert_members(cs: Seq<ManifestLayer>, s: Seq<int>, x: int)
    ensures
        insert_by_stack(cs, s, x).len() == s.len() + 1,
        forall|j: int| 0 <= j < insert_by_stack(cs, s, x).len() ==> (#[trigger] insert_by_stack(cs, s, x)[j] == x
            || s.contains(insert_by_stack(cs, s, x)[j])),
    decreases s.len(),
{
    if s.len() > 0 && cs[s.last()].stack_index > cs[x].stack_index {
        lemma_insert_members(cs, s.drop_last(), x);
        let r = insert_by_stack(cs, s, x);
        assert forall|j: int| 0 <= j < r.len() implies (#[trigger] r[j] == x || s.contains(r[j])) by {
            if j < r.len() - 1 {
                let q = insert_by_stack(cs, s.drop_last(), x);
                assert(r[j] == q[j]);
                if q[j] != x {
                    let k = choose|k: int| 0 <= k < s.drop_last().len() && s.drop_last()[k] == q[j];
                    assert(s[k] == q[j]);
                }
            } else {
                assert(r[j] == s.last());
                assert(s[s.len() - 1] == s.last());
            }
        }
    } else if s.len() > 0 {
        let r = insert_by_stack(cs, s, x);
        assert forall|j: int| 0 <= j < r.len() implies (#[trigger] r[j] == x || s.contains(r[j])) by {
            if j < s.len() {
                assert(r[j] == s[j]);
            }
        }
    }
}

/// The indices of `cs`'s visible layers, ordered by stack index, equal
/// stack indices in layer order.
pub fn visible_children_order(cs: &Vec<ManifestLayer>) -> (r: Vec<usize>)
    ensures
        r@.map_values(|i: usize| i as int) == ordered_visible(cs@),
        forall|j: int| 0 <= j < r@.len() ==> #[trigger] r@[j] < cs@.len(),
{
    let mut order: Vec<usize> = Vec::new();
    let mut n: usize = 0;
    while n < cs.len()
        invariant
            n <= cs@.len(),
            order@.map_values(|i: usize| i as int) == visible_order(cs@, n as int),
            forall|j: int| 0 <= j < order@.len() ==> #[trigger] order@[j] < n,
        decreases cs.len() - n,
    {
        if cs[n].visible {
            let ghost before = order@.map_values(|i: usize| i as int);
            let mut p = order.len();
            while p > 0 && cs[order[p - 1]].stack_index > cs[n].stack_index
                invariant
                    p <= order@.len(),
                    n < cs@.len(),
                    forall|j: int| 0 <= j < order@.len() ==> #[trigger] order@[j] < n,
                    forall|j: int| p <= j < order@.len() ==> cs@[order@[j] as int].stack_index
                        > cs@[n as int].stack_index,
                decreases p,
            {
                p = p - 1;
            }
            proof {
                assert forall|j: int| p <= j < before.len() implies cs@[before[j]].stack_index
                    > cs@[n as int].stack_index by {
                    assert(before[j] == order@[j] as int);
                }
                if p > 0 {
                    assert(before[p - 1] == order@[p - 1] as int);
                }
                lemma_insert_by_stack(cs@, before, n as int, p as int);
            }
            order.insert(p, n);
            assert(order@.map_values(|i: usize| i as int) =~= before.subrange(0, p as int).push(n as int)
                + before.subrange(p as int, before.len() as int));
        }
        n = n + 1;
    }
    order
}

} // verus!

verus! {

/// The clip targets named by a layer and its descendants, in order.
pub open spec fn clips_of_layer(l: ManifestLayer) -> Seq<Seq<char>>
    decreases l, 1nat,
{
    (match l.clip_to {
        Some(c) => seq![c@],
        None => seq![],
    }) + clips_of_seq(l.children@)
}

/// The clip targets named by layers and their descendants, in order.
pub open spec fn clips_of_seq(s: Seq<ManifestLayer>) -> Seq<Seq<char>>
    decreases s, 0nat,
{
    if s.len() == 0 {
        seq![]
    } else {
        clips_of_seq(s.drop_last()) + clips_of_layer(s.last())
    }
}

proof fn lemma_clips_prefix(s: Seq<ManifestLayer>, i: int)
    requires
        0 <= i < s.len(),
    ensures
        clips_of_seq(s.subrange(0, i + 1)) == clips_of_seq(s.subrange(0, i)) + clips_of_layer(s[i]),
{
    assert(s.subrange(0, i + 1).drop_last() =~= s.subrange(0, i));
}

/// Appends the clip targets named by `layers` and their descendants.
pub fn collect_clip_targets(layers: &Vec<ManifestLayer>, out: &mut Vec<String>)
    ensures
        crate::hierarchy::str_views(final(out)@) == crate::hierarchy::str_views(old(out)@) + clips_of_seq(layers@),
    decreases layers,
{
    let ghost start = crate::hierarchy::str_views(out@);
    let mut i: usize = 0;
    while i < layers.len()
        invariant
            i <= layers@.len(),
            crate::hierarchy::str_views(out@) == start + clips_of_seq(layers@.subrange(0, i as int)),
        decreases layers.len() - i,
    {
        proof {
            lemma_clips_prefix(layers@, i as int);
        }
        let layer = &layers[i];
        let ghost mid = crate::hierarchy::str_views(out@);
        match &layer.clip_to {
            Some(t) => {
                out.push(t.clone());
            },
            None => {},
        }
        let ghost after_own = crate::hierarchy::str_views(out@);
        assert(after_own =~= mid + (match layer.clip_to {
            Some(c) => seq![c@],
            None => seq![],
        }));
        assert(decreases_to!(*layers => layers@));
        assert(decreases_to!(layers@ => layers@[i as int]));
        assert(decreases_to!(layers@[i as int] => layers@[i as int].children));
        collect_clip_targets(&layer.children, out);
        i = i + 1;
        assert(crate::hierarchy::str_views(out@) =~= start + clips_of_seq(layers@.subrange(0, i as int)));
    }
    assert(layers@.subrange(0, layers@.len() as int) =~= layers@);
}

/// The ids of a visible layer and its visible descendants, in order.
pub open spec fn visible_ids_of_layer(l: ManifestLayer) -> Seq<Seq<char>>
    decreases l, 1nat,
{
    if !l.visible {
        seq![]
    } else {
        seq![l.id@] + visible_ids_of_seq(l.children@)
    }
}

/// The ids of the visible layers and their visible descendants, in order.
pub open spec fn visible_ids_of_seq(s: Seq<ManifestLayer>) -> Seq<Seq<char>>
    decreases s, 0nat,
{
    if s.len() == 0 {
        seq![]
    } else {
        visible_ids_of_seq(s.drop_last()) + visible_ids_of_layer(s.last())
    }
}

/// Appends the ids of the visible layers among `layers` and of their
/// visible descendants.
pub fn collect_visible_layer_ids(layers: &Vec<ManifestLayer>, out: &mut Vec<String>)
    ensures
        crate::hierarchy::str_views(final(out)@) == crate::hierarchy::str_views(old(out)@)
            + visible_ids_of_seq(layers@),
    decreases layers,
{
    let ghost start = crate::hierarchy::str_views(out@);
    let mut i: usize = 0;
    while i < layers.len()
        invariant
            i <= layers@.len(),
            crate::hierarchy::str_views(out@) == start + visible_ids_of_seq(
                layers@.subrange(0, i as int),
            ),
        decreases layers.len() - i,
    {
        assert(layers@.subrange(0, i + 1).drop_last() =~= layers@.subrange(0, i as int));
        let layer = &layers[i];
        let ghost mid = crate::hierarchy::str_views(out@);
        assert(visible_ids_of_seq(layers@.subrange(0, i + 1)) == visible_ids_of_seq(
            layers@.subrange(0, i as int),
        ) + visible_ids_of_layer(layers@[i as int]));
        if layer.visible {
            out.push(layer.id.clone());
            assert(crate::hierarchy::str_views(out@) =~= mid + seq![layer.id@]);
            assert(decreases_to!(*layers => layers@));
            assert(decreases_to!(layers@ => layers@[i as int]));
            assert(decreases_to!(layers@[i as int] => layers@[i as int].children));
            collect_visible_layer_ids(&layer.children, out);
            assert(visible_ids_of_layer(layers@[i as int]) == seq![layer.id@] + visible_ids_of_seq(
                layer.children@,
            ));
            assert(crate::hierarchy::str_views(out@) =~= start + (visible_ids_of_seq(
                layers@.subrange(0, i as int),
            ) + visible_ids_of_layer(layers@[i as int])));
        } else {
            assert(visible_ids_of_layer(layers@[i as int]) =~= Seq::<Seq<char>>::empty());
        }
        i = i + 1;
        assert(crate::hierarchy::str_views(out@) =~= start + visible_ids_of_seq(
            layers@.subrange(0, i as int),
        ));
    }
    assert(layers@.subrange(0, layers@.len() as int) =~= layers@);
}

/// Whether `s` is among `list`.
pub fn list_contains(list: &Vec<String>, s: &str) -> (r: bool)
    ensures
        r == crate::hierarchy::str_views(list@).contains(s@),
{
    let mut i: usize = 0;
    while i < list.len()
        invariant
            i <= list@.len(),
            forall|k: int| 0 <= k < i ==> list@[k]@ != s@,
        decreases list.len() - i,
    {
        if crate::photoshop::str_eq(list[i].as_str(), s) {
            assert(crate::hierarchy::str_views(list@)[i as int] == s@);
            return true;
        }
        i = i + 1;
    }
    proof {
        if crate::hierarchy::str_views(list@).contains(s@) {
            let k = choose|k: int| 0 <= k < list@.len() && crate::hierarchy::str_views(list@)[k] == s@;
            assert(list@[k]@ == s@);
        }
    }
    false
}

} // verus!

verus! {

/// The visible children of a layer, ordered by stack index.
pub open spec fn kids_of(l: ManifestLayer) -> Seq<ManifestLayer> {
    ordered_visible(l.children@).map_values(|i: int| l.children@[i])
}

pub open spec fn max0(v: i32) -> int {
    if v > 0 { v as int } else { 0 }
}

pub open spec fn max1(v: i32) -> int {
    if v > 1 { v as int } else { 1 }
}

/// A shape or pixel child covering at least 60% of the parent's area
/// (areas computed as release-build `i32` arithmetic does).
pub open spec fn is_button_background(c: ManifestLayer, parent: ManifestBounds) -> bool {
    let cb = spec_resolve_bounds(c);
    let child_area = wrap32(max0(cb.width) * max0(cb.height));
    let parent_area = wrap32(max1(parent.width) * max1(parent.height));
    wrap32(child_area * 10) >= wrap32(parent_area * 6) && (c.layer_type@ == "shape"@
        || c.layer_type@ == "pixel"@)
}

/// A button: named like one, or two to six visible children among which a
/// text layer and a large shape or pixel background.
pub open spec fn spec_is_button(l: ManifestLayer, kids: Seq<ManifestLayer>, rb: ManifestBounds) -> bool {
    spec_button_name_hint(l.name@) || (2 <= kids.len() <= 6 && (exists|j: int|
        0 <= j < kids.len() && has_character_runs(#[trigger] kids[j])) && (exists|j: int|
        0 <= j < kids.len() && is_button_background(#[trigger] kids[j], rb)))
}

/// A scroll view: named like one, or masked with at least four visible children.
pub open spec fn spec_is_scroll(l: ManifestLayer, kids: Seq<ManifestLayer>) -> bool {
    spec_scroll_name_hint(l.name@) || (l.mask is Some && kids.len() >= 4)
}

/// A mask group: masked, or with a visible child that is clipped or that
/// another layer clips to.
pub open spec fn spec_is_mask_group(l: ManifestLayer, kids: Seq<ManifestLayer>, clips: Seq<Seq<char>>) -> bool {
    l.mask is Some || exists|j: int|
        0 <= j < kids.len() && ((#[trigger] kids[j]).clip_to is Some || clips.contains(kids[j].id@))
}

/// The component a layer becomes: a root is a container; a layer with
/// visible children a scroll view, button, mask group or container, in that
/// order of preference; a leaf text when it has character runs, else an image.
pub open spec fn spec_classify(
    l: ManifestLayer,
    kids: Seq<ManifestLayer>,
    rb: ManifestBounds,
    clips: Seq<Seq<char>>,
    is_root: bool,
) -> Seq<char> {
    if is_root {
        COMPONENT_CONTAINER@
    } else if kids.len() > 0 {
        if spec_is_scroll(l, kids) {
            COMPONENT_SCROLL_VIEW@
        } else if spec_is_button(l, kids, rb) {
            COMPONENT_BUTTON@
        } else if spec_is_mask_group(l, kids, clips) {
            COMPONENT_MASK_GROUP@
        } else {
            COMPONENT_CONTAINER@
        }
    } else if has_character_runs(l) {
        COMPONENT_TMP_TEXT@
    } else {
        COMPONENT_IMAGE_PLACEHOLDER@
    }
}

/// Bit patterns of the `f32` confidences of each component.
pub open spec fn spec_confidence(l: ManifestLayer, comp: Seq<char>, text: Option<RecoveredTextView>) -> u32 {
    if comp == COMPONENT_CONTAINER@ {
        0x3F80_0000
    } else if comp == COMPONENT_BUTTON@ {
        if spec_button_name_hint(l.name@) { 0x3F73_3333 } else { 0x3F38_51EC }
    } else if comp == COMPONENT_SCROLL_VIEW@ {
        if spec_scroll_name_hint(l.name@) { 0x3F6B_851F } else { 0x3F33_3333 }
    } else if comp == COMPONENT_MASK_GROUP@ {
        0x3F5C_28F6
    } else if comp == COMPONENT_TMP_TEXT@ {
        match text {
            Some(t) => t.confidence,
            None => 0x3EB3_3333,
        }
    } else if comp == COMPONENT_IMAGE_PLACEHOLDER@ {
        0x3F7D_70A4
    } else {
        0x3F00_0000
    }
}

/// The union of the resolved rectangles of the visible layers among `cs[..n]`.
pub open spec fn union_visible(cs: Seq<ManifestLayer>, n: int) -> Option<ManifestBounds>
    decreases n,
{
    if n <= 0 || n > cs.len() {
        None
    } else {
        let acc = union_visible(cs, n - 1);
        if !cs[n - 1].visible {
            acc
        } else {
            let b = spec_resolve_bounds(cs[n - 1]);
            match acc {
                None => Some(b),
                Some(a) => Some(spec_union_bounds(a, b)),
            }
        }
    }
}

/// The rectangle of a scroll view's content: the union of its visible
/// children, relative to the view.
pub open spec fn spec_content_rect(l: ManifestLayer, fallback: ManifestBounds) -> PlanRect {
    let target = match union_visible(l.children@, l.children@.len() as int) {
        Some(u) => u,
        None => fallback,
    };
    spec_plan_rect(target, fallback)
}

/// The interaction of a component: scroll views scroll vertically over
/// their content; buttons are pressed.
pub open spec fn spec_interaction(l: ManifestLayer, comp: Seq<char>, rb: ManifestBounds) -> Option<InteractionSpecView> {
    if comp == COMPONENT_SCROLL_VIEW@ {
        Some(
            InteractionSpecView {
                kind: "scroll"@,
                horizontal: Some(false),
                vertical: Some(true),
                content_rect: Some(spec_content_rect(l, rb)),
            },
        )
    } else if comp == COMPONENT_BUTTON@ {
        Some(InteractionSpecView { kind: "button"@, horizontal: None, vertical: None, content_rect: None })
    } else {
        None
    }
}

/// What a plan node keeps of its layer.
pub open spec fn spec_metadata(l: ManifestLayer, comp: Seq<char>, rb: ManifestBounds) -> PlanMetadataView {
    PlanMetadataView {
        layer_name: l.name@,
        layer_type: l.layer_type@,
        blend_mode: l.blend_mode@,
        opacity: l.opacity,
        asset_path: match l.asset {
            Some(a) => Some(a.path@),
            None => None,
        },
        mask_path: match l.mask {
            Some(m) => Some(m.path@),
            None => None,
        },
        clip_to: ostr(l.clip_to),
        effects_json: l.effects.json@,
        unsupported: unsupported_views(l.unsupported@),
        visible: l.visible,
        stack_index: l.stack_index,
        component_hint: comp,
        bounds_source: spec_bounds_source(l, rb),
        mask_mode: match l.mask {
            Some(m) => Some(spec_infer_mask_mode(m.bounds, rb)),
            None => None,
        },
        resolved_bounds: rb,
    }
}

/// The plan node of a layer under a parent with rectangle `parent`: its
/// component, rectangle, recovered text, interaction, confidence and
/// metadata, with its visible children planned in stack order.
pub open spec fn spec_plan_node(
    l: ManifestLayer,
    parent: ManifestBounds,
    is_root: bool,
    clips: Seq<Seq<char>>,
) -> PlanNodeView
    decreases l, 1int,
{
    let rb = spec_resolve_bounds(l);
    let kids = kids_of(l);
    let comp = spec_classify(l, kids, rb, clips, is_root);
    let recovered = if comp == COMPONENT_TMP_TEXT@ {
        spec_recover_text(l)
    } else {
        None
    };
    let text = match recovered {
        Some((t, _)) => Some(t),
        None => None,
    };
    PlanNodeView {
        node_id: l.id@,
        name: l.name@,
        source_layer_ids: seq![l.id@],
        component_type: comp,
        rect: spec_plan_rect(rb, parent),
        render_order: l.stack_index,
        children: plan_children(l.children@, ordered_visible(l.children@), ordered_visible(l.children@).len() as int, rb, clips),
        confidence: spec_confidence(l, comp, text),
        needs_review: match recovered {
            Some((_, review)) => review,
            None => false,
        },
        metadata: spec_metadata(l, comp, rb),
        text,
        interaction: spec_interaction(l, comp, rb),
    }
}

/// The plan nodes of `cs[order[k]]` for `k < n`, under a parent with
/// rectangle `rb`.
pub open spec fn plan_children(
    cs: Seq<ManifestLayer>,
    order: Seq<int>,
    n: int,
    rb: ManifestBounds,
    clips: Seq<Seq<char>>,
) -> Seq<PlanNodeView>
    decreases cs, n,
{
    if n <= 0 || n > order.len() {
        seq![]
    } else {
        let prev = plan_children(cs, order, n - 1, rb, clips);
        if 0 <= order[n - 1] < cs.len() {
            prev.push(spec_plan_node(cs[order[n - 1]], rb, false, clips))
        } else {
            prev
        }
    }
}


/// Review message for recovered text that has no content.
pub const TEXT_REVIEW_MESSAGE: &'static str = "manifest text payload was missing content and should be reviewed";

/// Review message for a text node whose text could not be recovered.
pub const TEXT_RECOVERY_FAILED_MESSAGE: &'static str = "text layer was missing a manifest-backed character run payload";

/// Review message for effects that the exported image does not show.
pub const EFFECTS_PRESERVED_MESSAGE: &'static str = "layer effects were preserved in metadata only";

/// What became of a plan node's text.
#[derive(Debug, Clone, Copy, PartialEq, Eq, Structural)]
pub enum TextOutcome {
    /// The node is not a text node.
    NotText,
    /// The text was recovered from the manifest.
    Recovered,
    /// The node is a text node whose text could not be recovered.
    Fallback,
}

/// What planning recorded of one layer.
#[derive(Debug)]
pub struct PlannedLayer {
    pub layer_id: String,
    pub component: String,
    pub text: TextOutcome,
}

pub struct PlannedLayerView {
    pub layer_id: Seq<char>,
    pub component: Seq<char>,
    pub text: TextOutcome,
}

impl View for PlannedLayer {
    type V = PlannedLayerView;

    open spec fn view(&self) -> PlannedLayerView {
        PlannedLayerView { layer_id: self.layer_id@, component: self.component@, text: self.text }
    }
}

/// The views of planned-layer records.
pub open spec fn planned_views(s: Seq<PlannedLayer>) -> Seq<PlannedLayerView> {
    s.map_values(|p: PlannedLayer| p@)
}

/// What planning gathers besides the plan nodes: review items and one
/// record per planned layer, both in planning order.
pub struct PlannerState {
    pub review_items: Vec<ReviewItem>,
    pub planned: Vec<PlannedLayer>,
}

/// What becomes of a layer's text when it is planned as `comp`.
pub open spec fn spec_text_outcome(l: ManifestLayer, comp: Seq<char>) -> TextOutcome {
    if comp != COMPONENT_TMP_TEXT@ {
        TextOutcome::NotText
    } else if spec_recover_text(l) is Some {
        TextOutcome::Recovered
    } else {
        TextOutcome::Fallback
    }
}

pub open spec fn review_of(kind: Seq<char>, severity: Seq<char>, l: ManifestLayer, message: Seq<char>) -> ReviewItemView {
    ReviewItemView { kind, severity, node_id: l.id@, message }
}

/// Review items of a text node: blank recovered text, or text that could
/// not be recovered.
pub open spec fn text_reviews(l: ManifestLayer, comp: Seq<char>) -> Seq<ReviewItemView> {
    if comp != COMPONENT_TMP_TEXT@ {
        seq![]
    } else {
        match spec_recover_text(l) {
            Some((_, true)) => seq![review_of("text_review"@, "warning"@, l, TEXT_REVIEW_MESSAGE@)],
            Some((_, false)) => seq![],
            None => seq![review_of("text_recovery_failed"@, "warning"@, l, TEXT_RECOVERY_FAILED_MESSAGE@)],
        }
    }
}

/// One warning per unsupported-feature note of the layer.
pub open spec fn unsupported_reviews(l: ManifestLayer) -> Seq<ReviewItemView> {
    l.unsupported@.map_values(|u: ManifestUnsupported| review_of(u.kind@, "warning"@, l, u.reason@))
}

/// The review items that planning a layer as `comp` raises about the layer
/// itself, in order: text, effects, unsupported features.
pub open spec fn own_reviews(l: ManifestLayer, comp: Seq<char>) -> Seq<ReviewItemView> {
    text_reviews(l, comp) + (if spec_has_unbaked_effects(l.effects) {
        seq![review_of("effects_preserved"@, "info"@, l, EFFECTS_PRESERVED_MESSAGE@)]
    } else {
        seq![]
    }) + unsupported_reviews(l)
}

/// The component a layer is planned as.
pub open spec fn spec_component_of(l: ManifestLayer, is_root: bool, clips: Seq<Seq<char>>) -> Seq<char> {
    spec_classify(l, kids_of(l), spec_resolve_bounds(l), clips, is_root)
}

/// The records of a layer and of its visible descendants, in planning
/// order (a layer before its children, children by stack index).
pub open spec fn records_of(l: ManifestLayer, is_root: bool, clips: Seq<Seq<char>>) -> Seq<PlannedLayerView>
    decreases l, 1int,
{
    let comp = spec_component_of(l, is_root, clips);
    seq![PlannedLayerView { layer_id: l.id@, component: comp, text: spec_text_outcome(l, comp) }]
        + records_children(l.children@, ordered_visible(l.children@), ordered_visible(l.children@).len() as int, clips)
}

/// The records of `cs[order[k]]` for `k < n`, each with its descendants.
pub open spec fn records_children(
    cs: Seq<ManifestLayer>,
    order: Seq<int>,
    n: int,
    clips: Seq<Seq<char>>,
) -> Seq<PlannedLayerView>
    decreases cs, n,
{
    if n <= 0 || n > order.len() {
        seq![]
    } else {
        let prev = records_children(cs, order, n - 1, clips);
        if 0 <= order[n - 1] < cs.len() {
            prev + records_of(cs[order[n - 1]], false, clips)
        } else {
            prev
        }
    }
}

/// The review items raised by planning a layer and its visible
/// descendants, in planning order.
pub open spec fn reviews_of(l: ManifestLayer, is_root: bool, clips: Seq<Seq<char>>) -> Seq<ReviewItemView>
    decreases l, 1int,
{
    own_reviews(l, spec_component_of(l, is_root, clips)) + reviews_children(
        l.children@,
        ordered_visible(l.children@),
        ordered_visible(l.children@).len() as int,
        clips,
    )
}

/// The review items of `cs[order[k]]` for `k < n` and their descendants.
pub open spec fn reviews_children(
    cs: Seq<ManifestLayer>,
    order: Seq<int>,
    n: int,
    clips: Seq<Seq<char>>,
) -> Seq<ReviewItemView>
    decreases cs, n,
{
    if n <= 0 || n > order.len() {
        seq![]
    } else {
        let prev = reviews_children(cs, order, n - 1, clips);
        if 0 <= order[n - 1] < cs.len() {
            prev + reviews_of(cs[order[n - 1]], false, clips)
        } else {
            prev
        }
    }
}

} // verus!

verus! {

/// Whether `c` is large enough, and of a kind, to be a button's background.
fn button_background(c: &ManifestLayer, parent: &ManifestBounds) -> (r: bool)
    ensures
        r == is_button_background(*c, *parent),
{
    let cb = resolve_bounds(c);
    let cw: i64 = if cb.width > 0 { cb.width as i64 } else { 0 };
    let ch: i64 = if cb.height > 0 { cb.height as i64 } else { 0 };
    let pw: i64 = if parent.width > 1 { parent.width as i64 } else { 1 };
    let ph: i64 = if parent.height > 1 { parent.height as i64 } else { 1 };
    assert(0 <= cw * ch <= 0x7FFF_FFFF * 0x7FFF_FFFF) by (nonlinear_arith)
        requires
            0 <= cw <= 0x7FFF_FFFF,
            0 <= ch <= 0x7FFF_FFFF,
    ;
    assert(1 <= pw * ph <= 0x7FFF_FFFF * 0x7FFF_FFFF) by (nonlinear_arith)
        requires
            1 <= pw <= 0x7FFF_FFFF,
            1 <= ph <= 0x7FFF_FFFF,
    ;
    let child_area = (cw * ch) as i32;
    let parent_area = (pw * ph) as i32;
    let large = ((child_area as i64) * 10) as i32 >= ((parent_area as i64) * 6) as i32;
    large && (crate::photoshop::str_eq(c.layer_type.as_str(), "shape") || crate::photoshop::str_eq(
        c.layer_type.as_str(),
        "pixel",
    ))
}

/// The layers that `order` picks from `cs`.
pub open spec fn picked(cs: Seq<ManifestLayer>, order: Seq<usize>) -> Seq<ManifestLayer> {
    order.map_values(|i: usize| cs[i as int])
}

proof fn lemma_kids_picked(l: ManifestLayer, order: Seq<usize>)
    requires
        order.map_values(|i: usize| i as int) == ordered_visible(l.children@),
    ensures
        kids_of(l) == picked(l.children@, order),
{
    assert(order.map_values(|i: usize| i as int).len() == order.len());
    assert forall|j: int| 0 <= j < order.len() implies kids_of(l)[j] == picked(l.children@, order)[j] by {
        assert(order.map_values(|i: usize| i as int)[j] == order[j] as int);
    }
    assert(kids_of(l) =~= picked(l.children@, order));
}

fn is_button_candidate(
    layer: &ManifestLayer,
    order: &Vec<usize>,
    rb: &ManifestBounds,
) -> (r: bool)
    requires
        forall|j: int| 0 <= j < order@.len() ==> #[trigger] order@[j] < layer.children@.len(),
    ensures
        r == spec_is_button(*layer, picked(layer.children@, order@), *rb),
{
    let ghost kids = picked(layer.children@, order@);
    if button_name_hint(layer.name.as_str()) {
        return true;
    }
    if order.len() < 2 || order.len() > 6 {
        return false;
    }
    let mut has_text = false;
    let mut j: usize = 0;
    while j < order.len()
        invariant
            kids == picked(layer.children@, order@),
            forall|k: int| 0 <= k < order@.len() ==> #[trigger] order@[k] < layer.children@.len(),
            j <= order@.len(),
            has_text == exists|k: int| 0 <= k < j && has_character_runs(#[trigger] kids[k]),
        decreases order.len() - j,
    {
        let c = &layer.children[order[j]];
        assert(kids[j as int] == *c);
        let runs = match &c.text {
            Some(t) => t.character_runs.len() > 0,
            None => false,
        };
        if runs {
            has_text = true;
        }
        j = j + 1;
        assert(has_text == exists|k: int| 0 <= k < j && has_character_runs(#[trigger] kids[k])) by {
            if has_character_runs(kids[j - 1]) {
                assert(0 <= j - 1 < j);
            }
        }
    }
    if !has_text {
        return false;
    }
    let mut m: usize = 0;
    while m < order.len()
        invariant
            kids == picked(layer.children@, order@),
            forall|k: int| 0 <= k < order@.len() ==> #[trigger] order@[k] < layer.children@.len(),
            m <= order@.len(),
            forall|k: int| 0 <= k < m ==> !is_button_background(#[trigger] kids[k], *rb),
            2 <= order@.len() <= 6,
            exists|k: int| 0 <= k < order@.len() && has_character_runs(#[trigger] kids[k]),
        decreases order.len() - m,
    {
        let c = &layer.children[order[m]];
        assert(kids[m as int] == *c);
        if button_background(c, rb) {
            assert(is_button_background(kids[m as int], *rb));
            return true;
        }
        m = m + 1;
    }
    false
}

fn is_mask_group_candidate(layer: &ManifestLayer, order: &Vec<usize>, clips: &Vec<String>) -> (r: bool)
    requires
        forall|j: int| 0 <= j < order@.len() ==> #[trigger] order@[j] < layer.children@.len(),
    ensures
        r == spec_is_mask_group(*layer, picked(layer.children@, order@), crate::hierarchy::str_views(clips@)),
{
    let ghost kids = picked(layer.children@, order@);
    if layer.mask.is_some() {
        return true;
    }
    let mut j: usize = 0;
    while j < order.len()
        invariant
            kids == picked(layer.children@, order@),
            forall|k: int| 0 <= k < order@.len() ==> #[trigger] order@[k] < layer.children@.len(),
            j <= order@.len(),
            forall|k: int| 0 <= k < j ==> !((#[trigger] kids[k]).clip_to is Some || crate::hierarchy::str_views(clips@).contains(kids[k].id@)),
        decreases order.len() - j,
    {
        let c = &layer.children[order[j]];
        assert(kids[j as int] == *c);
        if c.clip_to.is_some() || list_contains(clips, c.id.as_str()) {
            return true;
        }
        j = j + 1;
    }
    false
}

/// The component a layer becomes (see `spec_classify`).
fn classify_component(
    layer: &ManifestLayer,
    order: &Vec<usize>,
    rb: &ManifestBounds,
    clips: &Vec<String>,
    is_root: bool,
) -> (r: &'static str)
    requires
        forall|j: int| 0 <= j < order@.len() ==> #[trigger] order@[j] < layer.children@.len(),
    ensures
        r@ == spec_classify(*layer, picked(layer.children@, order@), *rb, crate::hierarchy::str_views(clips@), is_root),
{
    if is_root {
        return COMPONENT_CONTAINER;
    }
    if order.len() > 0 {
        if scroll_name_hint(layer.name.as_str()) || (layer.mask.is_some() && order.len() >= 4) {
            return COMPONENT_SCROLL_VIEW;
        }
        if is_button_candidate(layer, order, rb) {
            return COMPONENT_BUTTON;
        }
        if is_mask_group_candidate(layer, order, clips) {
            return COMPONENT_MASK_GROUP;
        }
        return COMPONENT_CONTAINER;
    }
    let runs = match &layer.text {
        Some(t) => t.character_runs.len() > 0,
        None => false,
    };
    if runs {
        COMPONENT_TMP_TEXT
    } else {
        COMPONENT_IMAGE_PLACEHOLDER
    }
}

} // verus!

verus! {

fn component_confidence(layer: &ManifestLayer, component: &str, text: &Option<RecoveredText>) -> (r: u32)
    ensures
        r == spec_confidence(*layer, component@, otext(*text)),
{
    if crate::photoshop::str_eq(component, COMPONENT_CONTAINER) {
        0x3F80_0000
    } else if crate::photoshop::str_eq(component, COMPONENT_BUTTON) {
        if button_name_hint(layer.name.as_str()) { 0x3F73_3333 } else { 0x3F38_51EC }
    } else if crate::photoshop::str_eq(component, COMPONENT_SCROLL_VIEW) {
        if scroll_name_hint(layer.name.as_str()) { 0x3F6B_851F } else { 0x3F33_3333 }
    } else if crate::photoshop::str_eq(component, COMPONENT_MASK_GROUP) {
        0x3F5C_28F6
    } else if crate::photoshop::str_eq(component, COMPONENT_TMP_TEXT) {
        match text {
            Some(t) => t.confidence,
            None => 0x3EB3_3333,
        }
    } else if crate::photoshop::str_eq(component, COMPONENT_IMAGE_PLACEHOLDER) {
        0x3F7D_70A4
    } else {
        0x3F00_0000
    }
}

fn content_rect(layer: &ManifestLayer, fallback: &ManifestBounds) -> (r: PlanRect)
    ensures
        r == spec_content_rect(*layer, *fallback),
{
    let ghost cs = layer.children@;
    let mut acc: Option<ManifestBounds> = None;
    let mut i: usize = 0;
    while i < layer.children.len()
        invariant
            cs == layer.children@,
            i <= cs.len(),
            acc == union_visible(cs, i as int),
        decreases cs.len() - i,
    {
        let child = &layer.children[i];
        if child.visible {
            let b = resolve_bounds(child);
            acc = match acc {
                None => Some(b),
                Some(a) => Some(union_bounds(&a, &b)),
            };
        }
        i = i + 1;
    }
    let target = match acc {
        Some(u) => u,
        None => *fallback,
    };
    plan_rect(&target, fallback)
}

fn clone_unsupported(s: &Vec<ManifestUnsupported>) -> (r: Vec<ManifestUnsupported>)
    ensures
        unsupported_views(r@) == unsupported_views(s@),
{
    let mut out: Vec<ManifestUnsupported> = Vec::new();
    let mut i: usize = 0;
    while i < s.len()
        invariant
            i <= s@.len(),
            out@.len() == i,
            forall|k: int|
                0 <= k < i ==> (#[trigger] out@[k]).kind@ == s@[k].kind@ && out@[k].reason@ == s@[k].reason@,
        decreases s.len() - i,
    {
        out.push(ManifestUnsupported { kind: s[i].kind.clone(), reason: s[i].reason.clone() });
        i = i + 1;
    }
    assert(unsupported_views(out@) =~= unsupported_views(s@));
    out
}

fn build_metadata(layer: &ManifestLayer, component: &str, rb: &ManifestBounds) -> (m: PlanMetadata)
    ensures
        m@ == spec_metadata(*layer, component@, *rb),
{
    PlanMetadata {
        layer_name: layer.name.clone(),
        layer_type: layer.layer_type.clone(),
        blend_mode: layer.blend_mode.clone(),
        opacity: layer.opacity,
        asset_path: match &layer.asset {
            Some(a) => Some(a.path.clone()),
            None => None,
        },
        mask_path: match &layer.mask {
            Some(m) => Some(m.path.clone()),
            None => None,
        },
        clip_to: clone_opt(&layer.clip_to),
        effects_json: layer.effects.json.clone(),
        unsupported: clone_unsupported(&layer.unsupported),
        visible: layer.visible,
        stack_index: layer.stack_index,
        component_hint: owned(component),
        bounds_source: bounds_source(layer, rb),
        mask_mode: match &layer.mask {
            Some(m) => Some(infer_mask_mode(&m.bounds, rb)),
            None => None,
        },
        resolved_bounds: *rb,
    }
}

fn review_item(kind: &str, severity: &str, layer: &ManifestLayer, message: &str) -> (r: ReviewItem)
    ensures
        r@ == review_of(kind@, severity@, *layer, message@),
{
    ReviewItem { kind: owned(kind), severity: owned(severity), node_id: layer.id.clone(), message: owned(message) }
}

/// Appends the review items that planning `layer` as `component` raises
/// about the layer itself (see `own_reviews`).
fn push_own_reviews(
    layer: &ManifestLayer,
    component: &str,
    candidate: &Option<RecoveredTextCandidate>,
    items: &mut Vec<ReviewItem>,
)
    requires
        component@ == COMPONENT_TMP_TEXT@ ==> match *candidate {
            Some(c) => spec_recover_text(*layer) == Some((c.text@, c.needs_review)),
            None => spec_recover_text(*layer) is None,
        },
    ensures
        review_views(final(items)@) == review_views(old(items)@) + own_reviews(*layer, component@),
{
    let ghost start = review_views(items@);
    if crate::photoshop::str_eq(component, COMPONENT_TMP_TEXT) {
        match candidate {
            Some(c) => {
                if c.needs_review {
                    items.push(review_item("text_review", "warning", layer, TEXT_REVIEW_MESSAGE));
                }
            },
            None => {
                items.push(review_item("text_recovery_failed", "warning", layer, TEXT_RECOVERY_FAILED_MESSAGE));
            },
        }
    }
    assert(review_views(items@) =~= start + text_reviews(*layer, component@));
    let ghost mid = review_views(items@);
    if has_unbaked_effects(&layer.effects) {
        items.push(review_item("effects_preserved", "info", layer, EFFECTS_PRESERVED_MESSAGE));
    }
    let ghost eff = if spec_has_unbaked_effects(layer.effects) {
        seq![review_of("effects_preserved"@, "info"@, *layer, EFFECTS_PRESERVED_MESSAGE@)]
    } else {
        Seq::<ReviewItemView>::empty()
    };
    assert(review_views(items@) =~= mid + eff);
    let ghost after = review_views(items@);
    let mut i: usize = 0;
    while i < layer.unsupported.len()
        invariant
            i <= layer.unsupported@.len(),
            review_views(items@) == after + unsupported_reviews(*layer).subrange(0, i as int),
        decreases layer.unsupported.len() - i,
    {
        let u = &layer.unsupported[i];
        let ghost prev = review_views(items@);
        items.push(
            ReviewItem {
                kind: u.kind.clone(),
                severity: owned("warning"),
                node_id: layer.id.clone(),
                message: u.reason.clone(),
            },
        );
        assert(review_views(items@) =~= prev.push(unsupported_reviews(*layer)[i as int]));
        i = i + 1;
        assert(unsupported_reviews(*layer).subrange(0, i as int) =~= unsupported_reviews(*layer).subrange(
            0,
            i - 1,
        ).push(unsupported_reviews(*layer)[i - 1]));
        assert(review_views(items@) =~= after + unsupported_reviews(*layer).subrange(0, i as int));
    }
    assert(unsupported_reviews(*layer).subrange(0, i as int) =~= unsupported_reviews(*layer));
    assert(review_views(items@) =~= start + own_reviews(*layer, component@));
}

/// Plans a layer and its visible descendants (see `spec_plan_node`),
/// appending to `state` the review items raised and one record per planned
/// layer, in planning order.
pub fn plan_layer(
    layer: &ManifestLayer,
    parent_bounds: &ManifestBounds,
    is_root: bool,
    clips: &Vec<String>,
    state: &mut PlannerState,
) -> (n: PlanNode)
    ensures
        plan_view(n) == spec_plan_node(*layer, *parent_bounds, is_root, crate::hierarchy::str_views(clips@)),
        planned_views(final(state).planned@) == planned_views(old(state).planned@) + records_of(
            *layer,
            is_root,
            crate::hierarchy::str_views(clips@),
        ),
        review_views(final(state).review_items@) == review_views(old(state).review_items@) + reviews_of(
            *layer,
            is_root,
            crate::hierarchy::str_views(clips@),
        ),
    decreases layer,
{
    let ghost cl = crate::hierarchy::str_views(clips@);
    let ghost planned0 = planned_views(state.planned@);
    let ghost reviews0 = review_views(state.review_items@);
    let rb = resolve_bounds(layer);
    let order = visible_children_order(&layer.children);
    proof {
        lemma_kids_picked(*layer, order@);
    }
    let component = classify_component(layer, &order, &rb, clips, is_root);
    let mut needs_review = false;
    let mut text: Option<RecoveredText> = None;
    let mut outcome = TextOutcome::NotText;
    if crate::photoshop::str_eq(component, COMPONENT_TMP_TEXT) {
        let candidate = recover_text(layer);
        push_own_reviews(layer, component, &candidate, &mut state.review_items);
        match candidate {
            Some(c) => {
                needs_review = c.needs_review;
                text = Some(c.text);
                outcome = TextOutcome::Recovered;
            },
            None => {
                outcome = TextOutcome::Fallback;
            },
        }
    } else {
        push_own_reviews(layer, component, &None, &mut state.review_items);
    }
    let ghost own = PlannedLayerView { layer_id: layer.id@, component: component@, text: outcome };
    let ghost before_push = state.planned@;
    state.planned.push(PlannedLayer { layer_id: layer.id.clone(), component: owned(component), text: outcome });
    proof {
        assert(planned_views(state.planned@) =~= planned0 + seq![own]);
    }
    let ghost planned1 = planned_views(state.planned@);
    let ghost reviews1 = review_views(state.review_items@);
    let interaction = if crate::photoshop::str_eq(component, COMPONENT_SCROLL_VIEW) {
        Some(
            InteractionSpec {
                kind: owned("scroll"),
                horizontal: Some(false),
                vertical: Some(true),
                content_rect: Some(content_rect(layer, &rb)),
            },
        )
    } else if crate::photoshop::str_eq(component, COMPONENT_BUTTON) {
        Some(InteractionSpec { kind: owned("button"), horizontal: None, vertical: None, content_rect: None })
    } else {
        None
    };
    let ghost ord = ordered_visible(layer.children@);
    let mut children: Vec<PlanNode> = Vec::new();
    let mut k: usize = 0;
    assert(planned1 =~= planned1 + records_children(layer.children@, ord, 0, cl));
    assert(reviews1 =~= reviews1 + reviews_children(layer.children@, ord, 0, cl));
    while k < order.len()
        invariant
            ord == ordered_visible(layer.children@),
            order@.map_values(|i: usize| i as int) == ord,
            forall|j: int| 0 <= j < order@.len() ==> #[trigger] order@[j] < layer.children@.len(),
            k <= order@.len(),
            plan_views(children@) == plan_children(layer.children@, ord, k as int, rb, cl),
            planned_views(state.planned@) == planned1 + records_children(layer.children@, ord, k as int, cl),
            review_views(state.review_items@) == reviews1 + reviews_children(layer.children@, ord, k as int, cl),
            cl == crate::hierarchy::str_views(clips@),
        decreases order.len() - k,
    {
        let idx = order[k];
        assert(ord[k as int] == idx as int);
        assert(decreases_to!(*layer => layer.children));
        assert(decreases_to!(layer.children => layer.children@));
        assert(decreases_to!(layer.children@ => layer.children@[idx as int]));
        let child = plan_layer(&layer.children[idx], &rb, false, clips, state);
        let ghost before = children@;
        children.push(child);
        proof {
            assert(children@.drop_last() =~= before);
        }
        k = k + 1;
        proof {
            let rc = records_children(layer.children@, ord, k as int, cl);
            assert(rc == records_children(layer.children@, ord, k - 1, cl) + records_of(
                layer.children@[idx as int],
                false,
                cl,
            ));
            let vc = reviews_children(layer.children@, ord, k as int, cl);
            assert(vc == reviews_children(layer.children@, ord, k - 1, cl) + reviews_of(
                layer.children@[idx as int],
                false,
                cl,
            ));
            assert(planned_views(state.planned@) =~= planned1 + rc);
            assert(review_views(state.review_items@) =~= reviews1 + vc);
        }
    }
    proof {
        assert(planned_views(state.planned@) =~= planned0 + records_of(*layer, is_root, cl));
        assert(review_views(state.review_items@) =~= reviews0 + reviews_of(*layer, is_root, cl));
    }
    let confidence = component_confidence(layer, component, &text);
    let metadata = build_metadata(layer, component, &rb);
    let mut ids: Vec<String> = Vec::new();
    ids.push(layer.id.clone());
    let n = PlanNode {
        node_id: layer.id.clone(),
        name: layer.name.clone(),
        source_layer_ids: ids,
        component_type: owned(component),
        rect: plan_rect(&rb, parent_bounds),
        render_order: layer.stack_index,
        children,
        confidence,
        needs_review,
        metadata,
        text,
        interaction,
    };
    assert(n.source_layer_ids@.map_values(|s: String| s@) =~= seq![layer.id@]);
    n
}

} // verus!
