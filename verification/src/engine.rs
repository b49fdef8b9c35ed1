use vstd::prelude::*;

use crate::text::{owned, replace_char, utf16_char, utf16_of};

verus! {

/// White space between tokens of engine data: ASCII white space or NUL.
pub open spec fn spec_is_engine_whitespace(b: u8) -> bool {
    b == 0x20 || b == 0x09 || b == 0x0A || b == 0x0C || b == 0x0D || b == 0
}

/// Whether a byte separates tokens of engine data (see `spec_is_engine_whitespace`).
pub fn is_engine_whitespace(byte: u8) -> (r: bool)
    ensures
        r == spec_is_engine_whitespace(byte),
{
    byte == 0x20 || byte == 0x09 || byte == 0x0A || byte == 0x0C || byte == 0x0D || byte == 0
}

/// `s` without its trailing NUL bytes.
pub open spec fn spec_trim_trailing_nuls(s: Seq<u8>) -> Seq<u8>
    decreases s.len(),
{
    if s.len() > 0 && s.last() == 0 {
        spec_trim_trailing_nuls(s.drop_last())
    } else {
        s
    }
}

/// The bytes without their trailing NULs.
pub fn trim_trailing_nuls(bytes: &[u8]) -> (r: Vec<u8>)
    ensures
        r@ == spec_trim_trailing_nuls(bytes@),
{
    let mut end: usize = bytes.len();
    assert(bytes@.subrange(0, end as int) =~= bytes@);
    while end > 0 && bytes[end - 1] == 0
        invariant
            end <= bytes@.len(),
            spec_trim_trailing_nuls(bytes@) == spec_trim_trailing_nuls(bytes@.subrange(0, end as int)),
        decreases end,
    {
        assert(bytes@.subrange(0, end as int).drop_last() =~= bytes@.subrange(0, end - 1));
        end = end - 1;
    }
    let mut out: Vec<u8> = Vec::new();
    let mut i: usize = 0;
    while i < end
        invariant
            end <= bytes@.len(),
            i <= end,
            out@ == bytes@.subrange(0, i as int),
        decreases end - i,
    {
        out.push(bytes[i]);
        i = i + 1;
        assert(out@ =~= bytes@.subrange(0, i as int));
    }
    out
}

/// A printable ASCII byte.
pub open spec fn printable_ascii(b: u8) -> bool {
    0x20 <= b < 0x7F
}

/// How many of the first `k` byte pairs hold a zero byte and a printable
/// ASCII byte, in big- or little-endian order.
pub open spec fn ascii_pairs(b: Seq<u8>, big_endian: bool, k: int) -> nat
    decreases k,
{
    if k <= 0 {
        0
    } else {
        let zero = if big_endian { b[2 * k - 2] } else { b[2 * k - 1] };
        let ascii = if big_endian { b[2 * k - 1] } else { b[2 * k - 2] };
        ascii_pairs(b, big_endian, k - 1) + if zero == 0 && printable_ascii(ascii) { 1nat } else { 0nat }
    }
}

/// Bytes that look like UTF-16 text of ASCII characters: at least two
/// pairs, an even count, and at least half of the pairs (and one) a zero
/// byte with a printable ASCII byte in the given order.
pub open spec fn spec_looks_like_utf16_ascii(b: Seq<u8>, big_endian: bool) -> bool {
    b.len() >= 4 && b.len() % 2 == 0 && ascii_pairs(b, big_endian, (b.len() / 2) as int) > 0 && ascii_pairs(
        b,
        big_endian,
        (b.len() / 2) as int,
    ) * 2 >= b.len() / 2
}

/// Whether bytes look like UTF-16 ASCII text (see `spec_looks_like_utf16_ascii`).
pub fn looks_like_utf16_ascii(bytes: &[u8], big_endian: bool) -> (r: bool)
    ensures
        r == spec_looks_like_utf16_ascii(bytes@, big_endian),
{
    let n = bytes.len();
    if n < 4 || n % 2 != 0 {
        return false;
    }
    let pairs = n / 2;
    let mut ascii: usize = 0;
    let mut k: usize = 0;
    while k < pairs
        invariant
            n == bytes@.len(),
            pairs * 2 == n,
            k <= pairs,
            ascii <= k,
            ascii == ascii_pairs(bytes@, big_endian, k as int),
        decreases pairs - k,
    {
        let a = bytes[2 * k];
        let b = bytes[2 * k + 1];
        let (zero, ch) = if big_endian { (a, b) } else { (b, a) };
        if zero == 0 && 0x20 <= ch && ch < 0x7F {
            ascii = ascii + 1;
        }
        k = k + 1;
    }
    ascii > 0 && ascii * 2 >= pairs
}

/// Whether bytes look like big-endian UTF-16 ASCII text.
pub fn looks_like_utf16_be(bytes: &[u8]) -> (r: bool)
    ensures
        r == spec_looks_like_utf16_ascii(bytes@, true),
{
    looks_like_utf16_ascii(bytes, true)
}

/// Whether bytes look like little-endian UTF-16 ASCII text.
pub fn looks_like_utf16_le(bytes: &[u8]) -> (r: bool)
    ensures
        r == spec_looks_like_utf16_ascii(bytes@, false),
{
    looks_like_utf16_ascii(bytes, false)
}

/// Run lengths from `ls[i..]` fitted to the `remaining` characters: each
/// cut to what remains, empty ones dropped, and nothing once all is covered.
pub open spec fn fit_runs(ls: Seq<usize>, i: int, remaining: int) -> Seq<usize>
    decreases ls.len() - i,
{
    if i >= ls.len() || i < 0 || remaining <= 0 {
        seq![]
    } else {
        let c = if ls[i] < remaining { ls[i] as int } else { remaining };
        if c > 0 {
            seq![c as usize] + fit_runs(ls, i + 1, remaining - c)
        } else {
            fit_runs(ls, i + 1, remaining)
        }
    }
}

/// The non-zero lengths of `ls`, in order.
pub open spec fn positive_runs(ls: Seq<usize>) -> Seq<usize>
    decreases ls.len(),
{
    if ls.len() == 0 {
        seq![]
    } else if ls.last() > 0 {
        positive_runs(ls.drop_last()).push(ls.last())
    } else {
        positive_runs(ls.drop_last())
    }
}

/// Run lengths fitted to a text of `content_len` characters (see
/// `fit_runs`); with no text, the non-zero lengths.
pub open spec fn spec_normalize_run_lengths(ls: Seq<usize>, content_len: usize) -> Seq<usize> {
    if content_len == 0 {
        positive_runs(ls)
    } else {
        fit_runs(ls, 0, content_len as int)
    }
}

/// Fits run lengths to a text (see `spec_normalize_run_lengths`).
pub fn normalize_run_lengths(lengths: Vec<usize>, content_len: usize) -> (r: Vec<usize>)
    ensures
        r@ == spec_normalize_run_lengths(lengths@, content_len),
{
    let ghost ls = lengths@;
    if content_len == 0 {
        let mut out: Vec<usize> = Vec::new();
        let mut i: usize = 0;
        while i < lengths.len()
            invariant
                ls == lengths@,
                i <= ls.len(),
                out@ == positive_runs(ls.subrange(0, i as int)),
            decreases lengths.len() - i,
        {
            proof {
                assert(ls.subrange(0, i + 1).drop_last() =~= ls.subrange(0, i as int));
                assert(ls.subrange(0, i + 1).last() == ls[i as int]);
            }
            if lengths[i] > 0 {
                out.push(lengths[i]);
            }
            i = i + 1;
        }
        assert(ls.subrange(0, i as int) =~= ls);
        return out;
    }
    let mut remaining = content_len;
    let mut out: Vec<usize> = Vec::new();
    let mut i: usize = 0;
    while i < lengths.len() && remaining > 0
        invariant
            ls == lengths@,
            i <= ls.len(),
            remaining <= content_len,
            out@ + fit_runs(ls, i as int, remaining as int) == fit_runs(ls, 0, content_len as int),
        decreases lengths.len() - i,
    {
        let ghost before = out@;
        let clamped = if lengths[i] < remaining { lengths[i] } else { remaining };
        if clamped > 0 {
            out.push(clamped);
            remaining = remaining - clamped;
            assert(before + fit_runs(ls, i as int, (remaining + clamped) as int) =~= out@ + fit_runs(
                ls,
                i + 1,
                remaining as int,
            ));
        }
        i = i + 1;
    }
    assert(fit_runs(ls, i as int, remaining as int) =~= Seq::<usize>::empty());
    assert(out@ =~= out@ + fit_runs(ls, i as int, remaining as int));
    out
}

/// The sum of run lengths.
pub open spec fn runs_total(s: Seq<usize>) -> int
    decreases s.len(),
{
    if s.len() == 0 {
        0
    } else {
        s[0] + runs_total(s.drop_first())
    }
}

proof fn lemma_fit_runs(ls: Seq<usize>, i: int, remaining: int)
    requires
        0 <= i <= ls.len(),
        remaining >= 0,
    ensures
        runs_total(fit_runs(ls, i, remaining)) == if runs_total(ls.subrange(i, ls.len() as int)) < remaining {
            runs_total(ls.subrange(i, ls.len() as int))
        } else {
            remaining
        },
        forall|k: int| 0 <= k < fit_runs(ls, i, remaining).len() ==> #[trigger] fit_runs(ls, i, remaining)[k] > 0,
    decreases ls.len() - i,
{
    let rest = ls.subrange(i, ls.len() as int);
    if i >= ls.len() {
        assert(rest.len() == 0);
    } else {
        assert(rest.drop_first() =~= ls.subrange(i + 1, ls.len() as int));
        assert(rest[0] == ls[i]);
        if remaining > 0 {
            let c = if ls[i] < remaining { ls[i] as int } else { remaining };
            lemma_fit_runs(ls, i + 1, remaining - c);
            lemma_runs_total_nonneg(ls.subrange(i + 1, ls.len() as int));
            if c > 0 {
                let f = fit_runs(ls, i, remaining);
                let g = fit_runs(ls, i + 1, remaining - c);
                assert(f == seq![c as usize] + g);
                assert(f.drop_first() =~= g);
                assert forall|k: int| 0 <= k < f.len() implies #[trigger] f[k] > 0 by {
                    if k > 0 {
                        assert(f[k] == g[k - 1]);
                    }
                }
            }
        } else {
            lemma_runs_total_nonneg(rest);
        }
    }
}

proof fn lemma_runs_total_nonneg(s: Seq<usize>)
    ensures
        runs_total(s) >= 0,
    decreases s.len(),
{
    if s.len() > 0 {
        lemma_runs_total_nonneg(s.drop_first());
    }
}

/// Fitting run lengths to a text covers exactly the text, or all the runs
/// when they are shorter, with runs that are never empty.
pub proof fn law_fitted_runs_cover_text(ls: Seq<usize>, content_len: usize)
    requires
        content_len > 0,
    ensures
        runs_total(spec_normalize_run_lengths(ls, content_len)) == if runs_total(ls) < content_len {
            runs_total(ls)
        } else {
            content_len as int
        },
        forall|k: int|
            0 <= k < spec_normalize_run_lengths(ls, content_len).len() ==> #[trigger] spec_normalize_run_lengths(
                ls,
                content_len,
            )[k] > 0,
{
    lemma_fit_runs(ls, 0, content_len as int);
    assert(ls.subrange(0, ls.len() as int) =~= ls);
}

proof fn lemma_runs_total_push(s: Seq<usize>, x: usize)
    ensures
        runs_total(s.push(x)) == runs_total(s) + x,
    decreases s.len(),
{
    if s.len() > 0 {
        assert(s.push(x).drop_first() =~= s.drop_first().push(x));
        assert(s.push(x)[0] == s[0]);
        lemma_runs_total_push(s.drop_first(), x);
    } else {
        assert(s.push(x).drop_first() =~= Seq::<usize>::empty());
        assert(runs_total(Seq::<usize>::empty()) == 0);
        assert(s.push(x)[0] == x);
    }
}

proof fn lemma_runs_total_prefix(s: Seq<usize>, k: int)
    requires
        0 <= k <= s.len(),
    ensures
        0 <= runs_total(s.subrange(0, k)) <= runs_total(s),
    decreases s.len() - k,
{
    if k < s.len() {
        lemma_runs_total_prefix(s, k + 1);
        assert(s.subrange(0, k + 1) =~= s.subrange(0, k).push(s[k]));
        lemma_runs_total_push(s.subrange(0, k), s[k]);
        lemma_runs_total_nonneg(s.subrange(0, k));
    } else {
        assert(s.subrange(0, k) =~= s);
        lemma_runs_total_nonneg(s);
    }
}

/// The run lengths of a text: those the engine data gave, fitted to the
/// text (see `spec_normalize_run_lengths`); without any, one run over the
/// whole text when there is one run and the text is not empty, else none.
pub open spec fn spec_run_lengths(lengths: Option<Seq<usize>>, run_count: usize, content_len: usize) -> Seq<usize> {
    match lengths {
        Some(ls) => spec_normalize_run_lengths(ls, content_len),
        None => if run_count == 1 && content_len > 0 {
            seq![content_len]
        } else {
            seq![]
        },
    }
}

/// Each run as its start and length, the runs following one another from 0.
pub open spec fn run_spans(ls: Seq<usize>) -> Seq<(int, usize)> {
    Seq::new(ls.len(), |k: int| (runs_total(ls.subrange(0, k)), ls[k]))
}

/// The runs of a text as (start, length) pairs (see `spec_run_lengths` and
/// `run_spans`); `run_count` is how many style runs the engine data has.
pub fn engine_run_spans(lengths: Option<Vec<usize>>, run_count: usize, content_len: usize) -> (r: Vec<(usize, usize)>)
    requires
        lengths matches Some(ls) ==> runs_total(spec_normalize_run_lengths(ls@, content_len)) <= usize::MAX,
    ensures
        r@.len() == spec_run_lengths(
            match lengths {
                Some(ls) => Some(ls@),
                None => None,
            },
            run_count,
            content_len,
        ).len(),
        forall|k: int|
            0 <= k < r@.len() ==> (#[trigger] r@[k]).0 as int == run_spans(
                spec_run_lengths(
                    match lengths {
                        Some(ls) => Some(ls@),
                        None => None,
                    },
                    run_count,
                    content_len,
                ),
            )[k].0 && r@[k].1 == run_spans(
                spec_run_lengths(
                    match lengths {
                        Some(ls) => Some(ls@),
                        None => None,
                    },
                    run_count,
                    content_len,
                ),
            )[k].1,
{
    let ghost lv = match &lengths {
        Some(ls) => Some(ls@),
        None => None,
    };
    let ls: Vec<usize> = match lengths {
        Some(v) => normalize_run_lengths(v, content_len),
        None => {
            let mut one: Vec<usize> = Vec::new();
            if run_count == 1 && content_len > 0 {
                one.push(content_len);
            }
            assert(one@ =~= spec_run_lengths(lv, run_count, content_len));
            one
        },
    };
    let ghost sv = ls@;
    assert(sv == spec_run_lengths(lv, run_count, content_len));
    proof {
        if lv is None {
            if sv.len() == 1 {
                assert(sv.drop_first() =~= Seq::<usize>::empty());
                assert(runs_total(sv.drop_first()) == 0);
                assert(runs_total(sv) == content_len);
            } else {
                assert(sv.len() == 0);
                assert(runs_total(sv) == 0);
            }
        }
    }
    assert(runs_total(sv) <= usize::MAX);
    let mut out: Vec<(usize, usize)> = Vec::new();
    let mut start: usize = 0;
    let mut i: usize = 0;
    assert(sv.subrange(0, 0) =~= Seq::<usize>::empty());
    while i < ls.len()
        invariant
            sv == ls@,
            runs_total(sv) <= usize::MAX,
            i <= sv.len(),
            start as int == runs_total(sv.subrange(0, i as int)),
            out@.len() == i,
            forall|k: int|
                0 <= k < i ==> (#[trigger] out@[k]).0 as int == run_spans(sv)[k].0 && out@[k].1 == run_spans(sv)[k].1,
        decreases ls.len() - i,
    {
        proof {
            assert(sv.subrange(0, i + 1) =~= sv.subrange(0, i as int).push(sv[i as int]));
            lemma_runs_total_push(sv.subrange(0, i as int), sv[i as int]);
            lemma_runs_total_prefix(sv, i + 1);
        }
        out.push((start, ls[i]));
        start = start + ls[i];
        i = i + 1;
    }
    out
}

/// Which font of the font set a run uses: the one its style names when the
/// set has it, else the set's first; none without a font set or with an
/// empty one. `font_count` is the size of the font set, if there is one.
pub fn run_font_index(font_index: Option<usize>, font_count: Option<usize>) -> (r: Option<usize>)
    ensures
        r == match font_count {
            None => None,
            Some(n) => match font_index {
                Some(i) => if i < n {
                    Some(i)
                } else if n > 0 {
                    Some(0usize)
                } else {
                    None
                },
                None => if n > 0 {
                    Some(0usize)
                } else {
                    None
                },
            },
        },
{
    match font_count {
        None => None,
        Some(n) => match font_index {
            Some(i) if i < n => Some(i),
            _ => if n > 0 {
                Some(0)
            } else {
                None
            },
        },
    }
}

/// Engine text with its ETX characters and carriage returns turned into
/// line feeds.
pub open spec fn spec_normalize_text_content(s: Seq<char>) -> Seq<char> {
    replace_char(replace_char(s, '\u{3}', "\n"@), '\r', "\n"@)
}

/// Turns ETX characters and carriage returns into line feeds.
pub fn normalize_text_content(content: &str) -> (r: String)
    ensures
        r@ == spec_normalize_text_content(content@),
{
    let first = crate::report::replace_all_char(content, '\u{3}', "\n");
    crate::report::replace_all_char(first.as_str(), '\r', "\n")
}

/// The text of a type tool layer: the text descriptor's own text when it
/// has one, else the engine data's editor text, else nothing; line breaks
/// normalized (see `spec_normalize_text_content`).
pub fn type_tool_content(descriptor_text: Option<String>, editor_text: Option<String>) -> (r: String)
    ensures
        r@ == match descriptor_text {
            Some(d) => spec_normalize_text_content(d@),
            None => match editor_text {
                Some(e) => spec_normalize_text_content(e@),
                None => Seq::<char>::empty(),
            },
        },
{
    match descriptor_text {
        Some(d) => normalize_text_content(d.as_str()),
        None => match editor_text {
            Some(e) => normalize_text_content(e.as_str()),
            None => String::new(),
        },
    }
}

/// Refuses a type tool layer that gave neither text nor runs.
pub fn require_type_tool_text(content: &str, character_runs: usize, paragraph_runs: usize) -> (r: Result<(), String>)
    ensures
        r is Ok <==> (content@.len() > 0 || character_runs > 0 || paragraph_runs > 0),
        r matches Err(m) ==> m@ == "type tool descriptor did not expose text content or runs"@,
{
    if crate::text::chars_of(content).len() == 0 && character_runs == 0 && paragraph_runs == 0 {
        Err(owned("type tool descriptor did not expose text content or runs"))
    } else {
        Ok(())
    }
}

/// The stroke position a descriptor names: `outside`, `inside` or `center`.
pub open spec fn spec_map_stroke_position(v: Seq<char>) -> Seq<char> {
    if v == "OutF"@ || v == "outside"@ {
        "outside"@
    } else if v == "InsF"@ || v == "inside"@ {
        "inside"@
    } else {
        "center"@
    }
}

/// The stroke position a descriptor names (see `spec_map_stroke_position`).
pub fn map_stroke_position(value: String) -> (r: String)
    ensures
        r@ == spec_map_stroke_position(value@),
{
    let v = value.as_str();
    if crate::photoshop::str_eq(v, "OutF") || crate::photoshop::str_eq(v, "outside") {
        owned("outside")
    } else if crate::photoshop::str_eq(v, "InsF") || crate::photoshop::str_eq(v, "inside") {
        owned("inside")
    } else {
        owned("center")
    }
}

} // verus!

verus! {

/// The text whose UTF-16 encoding `units` are, if there is one (there is
/// at most one: see `lemma_utf16_of_injective`).
pub open spec fn utf16_decoded(units: Seq<u16>) -> Option<Seq<char>> {
    if exists|t: Seq<char>| #[trigger] utf16_of(t) == units {
        Some(choose|t: Seq<char>| #[trigger] utf16_of(t) == units)
    } else {
        None
    }
}

proof fn lemma_utf16_char_shape(c: char)
    ensures
        utf16_char(c).len() == 1 ==> !(0xD800 <= utf16_char(c)[0] <= 0xDFFF),
        utf16_char(c).len() == 2 ==> 0xDC00 <= utf16_char(c)[1] <= 0xDFFF,
        utf16_char(c).len() == 1 || utf16_char(c).len() == 2,
{
    let v = c as u32 as int;
    assert(v <= 0xD7FF || 0xE000 <= v <= 0x10FFFF);
    if v < 0x10000 {
        assert(utf16_char(c)[0] == v);
    } else {
        assert(0 <= (v - 0x10000) % 1024 < 1024);
        assert(0 <= (v - 0x10000) / 1024 < 1024);
    }
}

proof fn lemma_utf16_char_injective(a: char, b: char)
    requires
        utf16_char(a) == utf16_char(b),
    ensures
        a == b,
{
    let va = a as u32 as int;
    let vb = b as u32 as int;
    assert(va <= 0xD7FF || 0xE000 <= va <= 0x10FFFF);
    assert(vb <= 0xD7FF || 0xE000 <= vb <= 0x10FFFF);
    if va < 0x10000 && vb < 0x10000 {
        assert(utf16_char(a)[0] == va);
        assert(utf16_char(b)[0] == vb);
    } else if va >= 0x10000 && vb >= 0x10000 {
        let qa = (va - 0x10000) / 1024;
        let qb = (vb - 0x10000) / 1024;
        let ra = (va - 0x10000) % 1024;
        let rb = (vb - 0x10000) % 1024;
        assert(0 <= qa < 1024 && 0 <= ra < 1024 && 0 <= qb < 1024 && 0 <= rb < 1024);
        assert(utf16_char(a)[0] == 0xD800 + qa);
        assert(utf16_char(b)[0] == 0xD800 + qb);
        assert(utf16_char(a)[1] == 0xDC00 + ra);
        assert(utf16_char(b)[1] == 0xDC00 + rb);
        assert(va - 0x10000 == 1024 * qa + ra);
        assert(vb - 0x10000 == 1024 * qb + rb);
    } else {
        assert(utf16_char(a).len() != utf16_char(b).len());
    }
    assert(va == vb);
}

proof fn lemma_utf16_of_len(s: Seq<char>)
    ensures
        utf16_of(s).len() >= s.len(),
    decreases s.len(),
{
    if s.len() > 0 {
        lemma_utf16_of_len(s.drop_last());
        lemma_utf16_char_shape(s.last());
    }
}

/// No two texts have the same UTF-16 encoding.
proof fn lemma_utf16_of_injective(a: Seq<char>, b: Seq<char>)
    requires
        utf16_of(a) == utf16_of(b),
    ensures
        a == b,
    decreases a.len(),
{
    lemma_utf16_of_len(a);
    lemma_utf16_of_len(b);
    if a.len() == 0 || b.len() == 0 {
        assert(a.len() == 0 && b.len() == 0);
        assert(a =~= b);
    } else {
        let u = utf16_of(a);
        let pa = utf16_of(a.drop_last());
        let pb = utf16_of(b.drop_last());
        let ea = utf16_char(a.last());
        let eb = utf16_char(b.last());
        lemma_utf16_char_shape(a.last());
        lemma_utf16_char_shape(b.last());
        assert(u == pa + ea);
        assert(u == pb + eb);
        assert(u.last() == ea.last());
        assert(u.last() == eb.last());
        assert(ea.len() == eb.len()) by {
            if ea.len() == 1 {
                assert(ea.last() == ea[0]);
            }
            if eb.len() == 1 {
                assert(eb.last() == eb[0]);
            }
            if ea.len() == 2 {
                assert(ea.last() == ea[1]);
            }
            if eb.len() == 2 {
                assert(eb.last() == eb[1]);
            }
        }
        let l = u.len() as int;
        let k = ea.len() as int;
        assert(ea =~= u.subrange(l - k, l));
        assert(eb =~= u.subrange(l - k, l));
        assert(pa =~= u.subrange(0, l - k));
        assert(pb =~= u.subrange(0, l - k));
        lemma_utf16_char_injective(a.last(), b.last());
        lemma_utf16_of_injective(a.drop_last(), b.drop_last());
        assert(a =~= a.drop_last().push(a.last()));
        assert(b =~= b.drop_last().push(b.last()));
    }
}

/// Calls `String::from_utf16`, which decodes valid UTF-16 and fails on an
/// unpaired surrogate: it gives the text whose UTF-16 encoding the units
/// are, or nothing when no text has them as its encoding. An empty input
/// decodes to the empty text.
#[verifier::external_body]
fn decode_utf16_strict(units: &[u16]) -> (r: Option<String>)
    ensures
        r matches Some(s) ==> utf16_of(s@) == units@,
        r is None ==> forall|t: Seq<char>| #[trigger] utf16_of(t) != units@,
        r is None ==> units@.len() > 0,
        r matches Some(s) ==> (s@.len() == 0 <==> units@.len() == 0),
{
    String::from_utf16(units).ok()
}

/// `s` without its trailing NUL characters.
pub open spec fn trim_nul_chars(s: Seq<char>) -> Seq<char>
    decreases s.len(),
{
    if s.len() > 0 && s.last() == '\0' {
        trim_nul_chars(s.drop_last())
    } else {
        s
    }
}

pub(crate) fn trim_trailing_nul_chars(s: &str) -> (r: String)
    ensures
        r@ == trim_nul_chars(s@),
{
    let cs = crate::text::chars_of(s);
    let mut end: usize = cs.len();
    assert(cs@.subrange(0, end as int) =~= s@);
    while end > 0 && cs[end - 1] == '\0'
        invariant
            cs@ == s@,
            end <= cs@.len(),
            trim_nul_chars(s@) == trim_nul_chars(cs@.subrange(0, end as int)),
        decreases end,
    {
        assert(cs@.subrange(0, end as int).drop_last() =~= cs@.subrange(0, end - 1));
        end = end - 1;
    }
    let mut out: Vec<char> = Vec::new();
    let mut i: usize = 0;
    while i < end
        invariant
            cs@ == s@,
            end <= cs@.len(),
            i <= end,
            out@ == cs@.subrange(0, i as int),
        decreases end - i,
    {
        out.push(cs[i]);
        i = i + 1;
        assert(out@ =~= cs@.subrange(0, i as int));
    }
    crate::text::string_of_chars(&out)
}

/// The 16-bit units of byte pairs, big- or little-endian.
pub open spec fn utf16_units(b: Seq<u8>, big_endian: bool) -> Seq<u16> {
    Seq::new(
        b.len() / 2,
        |k: int|
            if big_endian {
                (b[2 * k] as int * 256 + b[2 * k + 1] as int) as u16
            } else {
                (b[2 * k + 1] as int * 256 + b[2 * k] as int) as u16
            },
    )
}

/// How engine text bytes are read as UTF-16: with a byte order mark, or
/// when they look like ASCII in UTF-16 (big-endian first); the endianness
/// and the bytes past the mark.
pub open spec fn utf16_layout(b: Seq<u8>) -> Option<(bool, Seq<u8>)> {
    if b.len() >= 2 && b[0] == 0xFE && b[1] == 0xFF {
        Some((true, b.subrange(2, b.len() as int)))
    } else if b.len() >= 2 && b[0] == 0xFF && b[1] == 0xFE {
        Some((false, b.subrange(2, b.len() as int)))
    } else if spec_looks_like_utf16_ascii(b, true) {
        Some((true, b))
    } else if spec_looks_like_utf16_ascii(b, false) {
        Some((false, b))
    } else {
        None
    }
}

/// Engine text bytes read as UTF-16 (see `utf16_layout`): an odd count of
/// bytes or invalid UTF-16 gives none; trailing NULs are dropped.
pub open spec fn spec_decode_utf16_engine_string(b: Seq<u8>) -> Option<Seq<char>> {
    match utf16_layout(b) {
        None => None,
        Some((big, raw)) => if raw.len() % 2 != 0 {
            None
        } else {
            match utf16_decoded(utf16_units(raw, big)) {
                Some(s) => Some(trim_nul_chars(s)),
                None => None,
            }
        },
    }
}

/// Reads engine text bytes as UTF-16 (see `spec_decode_utf16_engine_string`).
pub fn decode_utf16_engine_string(bytes: &[u8]) -> (r: Option<String>)
    ensures
        match r {
            Some(s) => spec_decode_utf16_engine_string(bytes@) == Some(s@),
            None => spec_decode_utf16_engine_string(bytes@) is None,
        },
{
    let n = bytes.len();
    let (big, from) = if n >= 2 && bytes[0] == 0xFE && bytes[1] == 0xFF {
        (true, 2usize)
    } else if n >= 2 && bytes[0] == 0xFF && bytes[1] == 0xFE {
        (false, 2usize)
    } else if looks_like_utf16_be(bytes) {
        (true, 0usize)
    } else if looks_like_utf16_le(bytes) {
        (false, 0usize)
    } else {
        return None;
    };
    let ghost raw = bytes@.subrange(from as int, n as int);
    proof {
        if from == 0 {
            assert(raw =~= bytes@);
        }
        assert(utf16_layout(bytes@) == Some((big, raw)));
    }
    if (n - from) % 2 != 0 {
        return None;
    }
    let count = (n - from) / 2;
    let mut units: Vec<u16> = Vec::new();
    let mut k: usize = 0;
    while k < count
        invariant
            n == bytes@.len(),
            from <= n,
            count * 2 == n - from,
            raw == bytes@.subrange(from as int, n as int),
            k <= count,
            units@.len() == k,
            forall|j: int| 0 <= j < k ==> #[trigger] units@[j] == utf16_units(raw, big)[j],
        decreases count - k,
    {
        let a = bytes[from + 2 * k] as u16;
        let b = bytes[from + 2 * k + 1] as u16;
        let u = if big { a * 256 + b } else { b * 256 + a };
        units.push(u);
        k = k + 1;
    }
    assert(units@ =~= utf16_units(raw, big));
    match decode_utf16_strict(units.as_slice()) {
        Some(s) => {
            proof {
                let c = choose|t: Seq<char>| #[trigger] utf16_of(t) == units@;
                assert(utf16_of(s@) == units@);
                lemma_utf16_of_injective(c, s@);
                assert(utf16_decoded(units@) == Some(s@));
            }
            Some(trim_trailing_nul_chars(s.as_str()))
        },
        None => {
            assert(utf16_decoded(units@) is None);
            None
        },
    }
}

/// Engine text bytes as text: UTF-16 when they read as such, else UTF-8
/// with invalid sequences replaced.
pub open spec fn spec_decode_engine_string_bytes(b: Seq<u8>) -> Seq<char> {
    match spec_decode_utf16_engine_string(b) {
        Some(s) => s,
        None => crate::psd::utf8_lossy(b),
    }
}

/// Engine text bytes as text (see `spec_decode_engine_string_bytes`).
pub fn decode_engine_string_bytes(bytes: &[u8]) -> (r: String)
    ensures
        r@ == spec_decode_engine_string_bytes(bytes@),
{
    match decode_utf16_engine_string(bytes) {
        Some(s) => s,
        None => crate::psd::decode_utf8_lossy(bytes),
    }
}

} // verus!

verus! {

/// The first position from `p` that is not engine white space.
pub open spec fn spec_skip_ws(d: Seq<u8>, p: int) -> int
    decreases d.len() - p,
{
    if 0 <= p < d.len() && spec_is_engine_whitespace(d[p]) {
        spec_skip_ws(d, p + 1)
    } else {
        p
    }
}

/// Whether `v` occurs in `d` at `p`.
pub open spec fn bytes_at(d: Seq<u8>, p: int, v: Seq<u8>) -> bool {
    0 <= p && p + v.len() <= d.len() && d.subrange(p, p + v.len()) == v
}

/// A byte that ends a name or a bare token of engine data.
pub open spec fn is_engine_delimiter(b: u8) -> bool {
    spec_is_engine_whitespace(b) || b == 0x5B || b == 0x5D || b == 0x3C || b == 0x3E || b == 0x28 || b == 0x29
}

/// The end of the token that starts at `p`.
pub open spec fn token_end(d: Seq<u8>, p: int) -> int
    decreases d.len() - p,
{
    if 0 <= p < d.len() && !is_engine_delimiter(d[p]) {
        token_end(d, p + 1)
    } else {
        p
    }
}

/// What an escaped byte of an engine string stands for.
pub open spec fn unescaped(b: u8) -> u8 {
    if b == 0x6E {
        0x0A
    } else if b == 0x72 {
        0x0D
    } else if b == 0x74 {
        0x09
    } else {
        b
    }
}

/// The bytes of an engine string body from `p` at nesting `depth`, after
/// `out`: a backslash escapes the next byte, parentheses nest, and the
/// closing parenthesis of depth one ends the string (so does the end of
/// the data). Gives the bytes and the position after the string.
pub open spec fn spec_string_body(d: Seq<u8>, p: int, depth: int, out: Seq<u8>) -> Result<(Seq<u8>, int), Seq<char>>
    decreases d.len() - p,
{
    if p < 0 || p >= d.len() {
        Ok((out, p))
    } else {
        let b = d[p];
        if b == 0x5C {
            if p + 1 >= d.len() {
                Err("unterminated engine escape"@)
            } else {
                spec_string_body(d, p + 2, depth, out.push(unescaped(d[p + 1])))
            }
        } else if b == 0x28 {
            spec_string_body(d, p + 1, depth + 1, out.push(b))
        } else if b == 0x29 {
            if depth - 1 == 0 {
                Ok((out, p + 1))
            } else {
                spec_string_body(d, p + 1, depth - 1, out.push(b))
            }
        } else {
            spec_string_body(d, p + 1, depth, out.push(b))
        }
    }
}

/// The message for a missing byte.
pub open spec fn expected_message(what: Seq<char>) -> Seq<char> {
    "expected '"@ + what + "'"@
}

/// A reader of Photoshop engine data (the PostScript-like text that holds
/// text styling).
pub struct EngineParser<'a> {
    bytes: &'a [u8],
    pos: usize,
}

impl<'a> EngineParser<'a> {
    /// The bytes being read.
    pub closed spec fn data(&self) -> Seq<u8> {
        self.bytes@
    }

    /// The read position.
    pub closed spec fn at(&self) -> int {
        self.pos as int
    }

    /// The position never passes the end of the bytes.
    pub closed spec fn wf(&self) -> bool {
        self.pos <= self.bytes@.len() <= isize::MAX
    }

    /// A reader at the start of `input`.
    pub fn new(input: &'a [u8]) -> (p: Self)
        requires
            input@.len() <= isize::MAX,
        ensures
            p.wf(),
            p.data() == input@,
            p.at() == 0,
    {
        EngineParser { bytes: input, pos: 0 }
    }

    /// The byte at the read position, if any.
    pub fn peek_byte(&self) -> (r: Option<u8>)
        requires
            self.wf(),
        ensures
            match r {
                Some(b) => self.at() < self.data().len() && b == self.data()[self.at()],
                None => self.at() >= self.data().len(),
            },
    {
        if self.pos < self.bytes.len() {
            Some(self.bytes[self.pos])
        } else {
            None
        }
    }

    /// The byte at the read position, moving past it.
    pub fn next_byte(&mut self) -> (r: Option<u8>)
        requires
            old(self).wf(),
        ensures
            final(self).wf(),
            final(self).data() == old(self).data(),
            match r {
                Some(b) => old(self).at() < old(self).data().len() && b == old(self).data()[old(self).at()]
                    && final(self).at() == old(self).at() + 1,
                None => old(self).at() >= old(self).data().len() && final(self).at() == old(self).at(),
            },
    {
        if self.pos < self.bytes.len() {
            let b = self.bytes[self.pos];
            self.pos = self.pos + 1;
            Some(b)
        } else {
            None
        }
    }

    /// Whether `value` comes next.
    pub fn starts_with(&self, value: &[u8]) -> (r: bool)
        requires
            self.wf(),
        ensures
            r == bytes_at(self.data(), self.at(), value@),
    {
        if value.len() > self.bytes.len() - self.pos {
            return false;
        }
        let mut i: usize = 0;
        while i < value.len()
            invariant
                self.wf(),
                self.pos + value@.len() <= self.bytes@.len(),
                i <= value@.len(),
                forall|k: int| 0 <= k < i ==> self.bytes@[self.pos + k] == value@[k],
            decreases value.len() - i,
        {
            if self.bytes[self.pos + i] != value[i] {
                assert(self.data().subrange(self.at(), self.at() + value@.len())[i as int] != value@[i as int]);
                return false;
            }
            i = i + 1;
        }
        assert(self.data().subrange(self.at(), self.at() + value@.len()) =~= value@);
        true
    }

    /// Moves past engine white space.
    pub fn skip_ws(&mut self)
        requires
            old(self).wf(),
        ensures
            final(self).wf(),
            final(self).data() == old(self).data(),
            final(self).at() == spec_skip_ws(old(self).data(), old(self).at()),
    {
        let ghost p0 = self.pos as int;
        while self.pos < self.bytes.len() && is_engine_whitespace(self.bytes[self.pos])
            invariant
                self.wf(),
                self.data() == old(self).data(),
                p0 == old(self).at(),
                spec_skip_ws(self.data(), p0) == spec_skip_ws(self.data(), self.pos as int),
            decreases self.bytes.len() - self.pos,
        {
            self.pos = self.pos + 1;
        }
    }

    /// Moves past `value`, which must come next.
    pub fn consume(&mut self, value: &[u8]) -> (r: Result<(), String>)
        requires
            old(self).wf(),
        ensures
            final(self).wf(),
            final(self).data() == old(self).data(),
            bytes_at(old(self).data(), old(self).at(), value@) ==> r is Ok && final(self).at() == old(self).at()
                + value@.len(),
            !bytes_at(old(self).data(), old(self).at(), value@) ==> (r matches Err(m) && m@ == expected_message(
                crate::psd::utf8_lossy(value@),
            ) && final(self).at() == old(self).at()),
    {
        if self.starts_with(value) {
            self.pos = self.pos + value.len();
            Ok(())
        } else {
            let mut m = owned("expected '");
            let what = crate::psd::decode_utf8_lossy(value);
            crate::text::push_str(&mut m, what.as_str());
            crate::text::push_str(&mut m, "'");
            Err(m)
        }
    }

    /// Moves past the next byte, which must be `byte`.
    pub fn expect_byte(&mut self, byte: u8) -> (r: Result<(), String>)
        requires
            old(self).wf(),
        ensures
            final(self).wf(),
            final(self).data() == old(self).data(),
            final(self).at() == if old(self).at() < old(self).data().len() {
                old(self).at() + 1
            } else {
                old(self).at()
            },
            (old(self).at() < old(self).data().len() && old(self).data()[old(self).at()] == byte) <==> r is Ok,
            r matches Err(m) ==> m@ == expected_message(seq![byte as char]),
    {
        match self.next_byte() {
            Some(current) => {
                if current == byte {
                    return Ok(());
                }
            },
            None => {},
        }
        let mut m = owned("expected '");
        crate::text::push_char(&mut m, byte as char);
        crate::text::push_str(&mut m, "'");
        Err(m)
    }

    /// Reads a name: `/` and the bytes up to white space or a delimiter,
    /// decoded as UTF-8 with invalid sequences replaced.
    pub fn parse_name(&mut self) -> (r: Result<String, String>)
        requires
            old(self).wf(),
        ensures
            final(self).wf(),
            final(self).data() == old(self).data(),
            ({
                let d = old(self).data();
                let p = old(self).at();
                if p < d.len() && d[p] == 0x2F {
                    &&& r matches Ok(s) && s@ == crate::psd::utf8_lossy(d.subrange(p + 1, token_end(d, p + 1)))
                    &&& final(self).at() == token_end(d, p + 1)
                } else {
                    r matches Err(m) && m@ == expected_message(seq!['/'])
                }
            }),
    {
        let ghost d = self.data();
        let ghost p = self.at();
        self.expect_byte(0x2F)?;
        let start = self.pos;
        while self.pos < self.bytes.len() && !(is_engine_whitespace(self.bytes[self.pos]) || self.bytes[self.pos] == 0x5B
            || self.bytes[self.pos] == 0x5D || self.bytes[self.pos] == 0x3C || self.bytes[self.pos] == 0x3E
            || self.bytes[self.pos] == 0x28 || self.bytes[self.pos] == 0x29)
            invariant
                self.wf(),
                self.data() == d,
                start == p + 1,
                start <= self.pos,
                token_end(d, start as int) == token_end(d, self.pos as int),
            decreases self.bytes.len() - self.pos,
        {
            self.pos = self.pos + 1;
        }
        let mut token: Vec<u8> = Vec::new();
        let mut i: usize = start;
        while i < self.pos
            invariant
                self.wf(),
                self.data() == d,
                start <= i <= self.pos,
                token@ == d.subrange(start as int, i as int),
            decreases self.pos - i,
        {
            token.push(self.bytes[i]);
            i = i + 1;
            assert(token@ =~= d.subrange(start as int, i as int));
        }
        Ok(crate::psd::decode_utf8_lossy(token.as_slice()))
    }

    /// Reads a string: `(`, then bytes up to the matching `)` (see
    /// `spec_string_body`), decoded as engine text.
    pub fn parse_string(&mut self) -> (r: Result<String, String>)
        requires
            old(self).wf(),
        ensures
            final(self).wf(),
            final(self).data() == old(self).data(),
            ({
                let d = old(self).data();
                let p = old(self).at();
                if p < d.len() && d[p] == 0x28 {
                    match spec_string_body(d, p + 1, 1, seq![]) {
                        Ok((bytes, end)) => r matches Ok(s) && s@ == spec_decode_engine_string_bytes(bytes)
                            && final(self).at() == end,
                        Err(m) => r matches Err(x) && x@ == m,
                    }
                } else {
                    r matches Err(m) && m@ == expected_message(seq!['('])
                }
            }),
    {
        let ghost d = self.data();
        let ghost p = self.at();
        self.expect_byte(0x28)?;
        let mut depth: usize = 1;
        let mut done = false;
        let mut output: Vec<u8> = Vec::new();
        while self.pos < self.bytes.len() && !done
            invariant
                self.wf(),
                self.data() == d,
                d == old(self).data(),
                p == old(self).at(),
                p < d.len() && d[p] == 0x28,
                p + 1 <= self.pos,
                depth <= self.pos,
                done ==> spec_string_body(d, p + 1, 1, seq![]) == Ok::<(Seq<u8>, int), Seq<char>>(
                    (output@, self.pos as int),
                ),
                !done ==> 1 <= depth && spec_string_body(d, p + 1, 1, seq![]) == spec_string_body(
                    d,
                    self.pos as int,
                    depth as int,
                    output@,
                ),
            decreases self.bytes.len() - self.pos,
        {
            let byte = self.bytes[self.pos];
            let ghost here = self.pos as int;
            self.pos = self.pos + 1;
            if byte == 0x5C {
                if self.pos >= self.bytes.len() {
                    assert(spec_string_body(d, here, depth as int, output@) == Err::<(Seq<u8>, int), Seq<char>>(
                        "unterminated engine escape"@,
                    ));
                    return Err(owned("unterminated engine escape"));
                }
                let escaped = self.bytes[self.pos];
                self.pos = self.pos + 1;
                let b = if escaped == 0x6E {
                    0x0A
                } else if escaped == 0x72 {
                    0x0D
                } else if escaped == 0x74 {
                    0x09
                } else {
                    escaped
                };
                output.push(b);
            } else if byte == 0x28 {
                depth = depth + 1;
                output.push(byte);
            } else if byte == 0x29 {
                depth = depth - 1;
                if depth == 0 {
                    done = true;
                } else {
                    output.push(byte);
                }
            } else {
                output.push(byte);
            }
        }
        Ok(decode_engine_string_bytes(output.as_slice()))
    }
}

} // verus!

verus! {

/// A value of engine data. A bare token other than `true`, `false` and
/// `null` is kept as written (`Atom`): it is a number when it reads as
/// one, else a name.
#[derive(Debug)]
pub enum EngineValue {
    Dict(Vec<(String, EngineValue)>),
    Array(Vec<EngineValue>),
    String(String),
    Name(String),
    Bool(bool),
    Null,
    Atom(String),
}

/// An engine value seen as plain values.
pub enum EngineView {
    Dict(Seq<(Seq<char>, EngineView)>),
    Array(Seq<EngineView>),
    String(Seq<char>),
    Name(Seq<char>),
    Bool(bool),
    Null,
    Atom(Seq<char>),
}

/// The view of an engine value.
pub open spec fn engine_view(v: EngineValue) -> EngineView
    decreases v, 1nat,
{
    match v {
        EngineValue::Dict(es) => EngineView::Dict(entries_view(es@)),
        EngineValue::Array(vs) => EngineView::Array(elems_view(vs@)),
        EngineValue::String(s) => EngineView::String(s@),
        EngineValue::Name(s) => EngineView::Name(s@),
        EngineValue::Bool(b) => EngineView::Bool(b),
        EngineValue::Null => EngineView::Null,
        EngineValue::Atom(s) => EngineView::Atom(s@),
    }
}

/// The views of dictionary entries.
pub open spec fn entries_view(s: Seq<(String, EngineValue)>) -> Seq<(Seq<char>, EngineView)>
    decreases s, 0nat,
{
    if s.len() == 0 {
        seq![]
    } else {
        entries_view(s.drop_last()).push((s.last().0@, engine_view(s.last().1)))
    }
}

/// The views of array elements.
pub open spec fn elems_view(s: Seq<EngineValue>) -> Seq<EngineView>
    decreases s, 0nat,
{
    if s.len() == 0 {
        seq![]
    } else {
        elems_view(s.drop_last()).push(engine_view(s.last()))
    }
}

/// Where the entry for `k` lies among `es`, from `i` on.
pub open spec fn key_pos(es: Seq<(Seq<char>, EngineView)>, k: Seq<char>, i: int) -> Option<int>
    decreases es.len() - i,
{
    if i < 0 || i >= es.len() {
        None
    } else if es[i].0 == k {
        Some(i)
    } else {
        key_pos(es, k, i + 1)
    }
}

/// Entries with `k` set to `v`: its entry replaced where there is one,
/// else a new entry at the end.
pub open spec fn dict_insert(es: Seq<(Seq<char>, EngineView)>, k: Seq<char>, v: EngineView) -> Seq<
    (Seq<char>, EngineView),
> {
    match key_pos(es, k, 0) {
        Some(i) => es.update(i, (k, v)),
        None => es.push((k, v)),
    }
}

/// How many bytes lie from `p` to the end.
pub open spec fn left(d: Seq<u8>, p: int) -> nat {
    if 0 <= p < d.len() {
        (d.len() - p) as nat
    } else {
        0
    }
}

pub proof fn lemma_skip_ws(d: Seq<u8>, p: int)
    requires
        0 <= p,
    ensures
        p <= spec_skip_ws(d, p),
        p <= d.len() ==> spec_skip_ws(d, p) <= d.len(),
        p > d.len() ==> spec_skip_ws(d, p) == p,
        spec_skip_ws(d, p) < d.len() ==> !spec_is_engine_whitespace(d[spec_skip_ws(d, p)]),
    decreases d.len() - p,
{
    if 0 <= p < d.len() && spec_is_engine_whitespace(d[p]) {
        lemma_skip_ws(d, p + 1);
    }
}

pub proof fn lemma_string_body(d: Seq<u8>, p: int, depth: int, out: Seq<u8>)
    requires
        0 <= p,
    ensures
        spec_string_body(d, p, depth, out) matches Ok((_, end)) ==> p <= end,
    decreases d.len() - p,
{
    if 0 <= p < d.len() {
        let b = d[p];
        if b == 0x5C {
            if p + 1 < d.len() {
                lemma_string_body(d, p + 2, depth, out.push(unescaped(d[p + 1])));
            }
        } else if b == 0x28 {
            lemma_string_body(d, p + 1, depth + 1, out.push(b));
        } else if b == 0x29 {
            if depth - 1 != 0 {
                lemma_string_body(d, p + 1, depth - 1, out.push(b));
            }
        } else {
            lemma_string_body(d, p + 1, depth, out.push(b));
        }
    }
}

pub proof fn lemma_token_end(d: Seq<u8>, p: int)
    requires
        0 <= p,
    ensures
        p <= token_end(d, p),
        p <= d.len() ==> token_end(d, p) <= d.len(),
        p > d.len() ==> token_end(d, p) == p,
    decreases d.len() - p,
{
    if 0 <= p < d.len() && !is_engine_delimiter(d[p]) {
        lemma_token_end(d, p + 1);
    }
}

/// The message when an array of engine data runs to the end of the data.
pub open spec fn unterminated_array() -> Seq<char> {
    "unterminated engine array"@
}

/// The message when an array holds a byte that no value starts with.
pub open spec fn stray_in_array() -> Seq<char> {
    "unexpected delimiter in engine array"@
}

/// A value of engine data at `p`, after white space: `<<` a dictionary,
/// `[` an array, `(` a string, `/` a name, else a bare token (`true`,
/// `false`, `null` or an atom). Gives the value and how many bytes it took.
pub open spec fn spec_engine_value(d: Seq<u8>, p: int) -> Result<(EngineView, nat), Seq<char>>
    decreases left(d, p), 1int,
{
    if p < 0 {
        Err(unterminated_array())
    } else {
        let q = spec_skip_ws(d, p);
        proof {
            lemma_skip_ws(d, p);
        }
        if bytes_at(d, q, seq![0x3Cu8, 0x3Cu8]) {
            match spec_engine_dict(d, q + 2, seq![]) {
                Err(m) => Err(m),
                Ok((es, c)) => Ok((EngineView::Dict(es), (q + 2 + c - p) as nat)),
            }
        } else if q < d.len() && d[q] == 0x5B {
            match spec_engine_array(d, q + 1, seq![]) {
                Err(m) => Err(m),
                Ok((vs, c)) => Ok((EngineView::Array(vs), (q + 1 + c - p) as nat)),
            }
        } else if q < d.len() && d[q] == 0x28 {
            match spec_string_body(d, q + 1, 1, seq![]) {
                Err(m) => Err(m),
                Ok((bytes, end)) => Ok((EngineView::String(spec_decode_engine_string_bytes(bytes)), (end - p) as nat)),
            }
        } else if q < d.len() && d[q] == 0x2F {
            let e = token_end(d, q + 1);
            Ok((EngineView::Name(crate::psd::utf8_lossy(d.subrange(q + 1, e))), (e - p) as nat))
        } else {
            let e = token_end(d, q);
            let token = crate::psd::utf8_lossy(d.subrange(q, e));
            let v = if token == "true"@ {
                EngineView::Bool(true)
            } else if token == "false"@ {
                EngineView::Bool(false)
            } else if token == "null"@ {
                EngineView::Null
            } else {
                EngineView::Atom(token)
            };
            Ok((v, (e - p) as nat))
        }
    }
}

/// The entries of a dictionary from `p` after the entries `acc`: names and
/// values up to `>>`; a later entry for a name replaces an earlier one.
pub open spec fn spec_engine_dict(d: Seq<u8>, p: int, acc: Seq<(Seq<char>, EngineView)>) -> Result<
    (Seq<(Seq<char>, EngineView)>, nat),
    Seq<char>,
>
    decreases left(d, p), 2int,
{
    if p < 0 {
        Err(unterminated_array())
    } else {
        let q = spec_skip_ws(d, p);
        proof {
            lemma_skip_ws(d, p);
        }
        if bytes_at(d, q, seq![0x3Eu8, 0x3Eu8]) {
            Ok((acc, (q + 2 - p) as nat))
        } else if !(q < d.len() && d[q] == 0x2F) {
            Err(expected_message(seq!['/']))
        } else {
            let e = token_end(d, q + 1);
            proof {
                lemma_token_end(d, q + 1);
            }
            let key = crate::psd::utf8_lossy(d.subrange(q + 1, e));
            match spec_engine_value(d, e) {
                Err(m) => Err(m),
                Ok((v, c)) => match spec_engine_dict(d, e + c, dict_insert(acc, key, v)) {
                    Err(m) => Err(m),
                    Ok((es, c2)) => Ok((es, (e + c + c2 - p) as nat)),
                },
            }
        }
    }
}

/// The elements of an array from `p` after the elements `acc`, up to `]`.
/// The data must not end first, and each element must take at least one
/// byte.
pub open spec fn spec_engine_array(d: Seq<u8>, p: int, acc: Seq<EngineView>) -> Result<(Seq<EngineView>, nat), Seq<char>>
    decreases left(d, p), 2int,
{
    if p < 0 {
        Err(unterminated_array())
    } else {
        let q = spec_skip_ws(d, p);
        proof {
            lemma_skip_ws(d, p);
        }
        if q >= d.len() {
            Err(unterminated_array())
        } else if d[q] == 0x5D {
            Ok((acc, (q + 1 - p) as nat))
        } else {
            match spec_engine_value(d, q) {
                Err(m) => Err(m),
                Ok((v, c)) => if c == 0 {
                    Err(stray_in_array())
                } else {
                    match spec_engine_array(d, q + c, acc.push(v)) {
                        Err(m) => Err(m),
                        Ok((vs, c2)) => Ok((vs, (q + c + c2 - p) as nat)),
                    }
                },
            }
        }
    }
}

} // verus!

verus! {

/// A result with its byte count moved on by `k`.
pub open spec fn moved<T>(r: Result<(T, nat), Seq<char>>, k: int) -> Result<(T, nat), Seq<char>> {
    match r {
        Ok((v, c)) => Ok((v, (c + k) as nat)),
        Err(m) => Err(m),
    }
}

/// `entries_view` maps each entry to its view.
pub proof fn lemma_entries_view(s: Seq<(String, EngineValue)>)
    ensures
        entries_view(s).len() == s.len(),
        forall|i: int| 0 <= i < s.len() ==> #[trigger] entries_view(s)[i] == (s[i].0@, engine_view(s[i].1)),
    decreases s.len(),
{
    if s.len() > 0 {
        lemma_entries_view(s.drop_last());
    }
}

/// `elems_view` maps each element to its view.
pub proof fn lemma_elems_view(s: Seq<EngineValue>)
    ensures
        elems_view(s).len() == s.len(),
        forall|i: int| 0 <= i < s.len() ==> #[trigger] elems_view(s)[i] == engine_view(s[i]),
    decreases s.len(),
{
    if s.len() > 0 {
        lemma_elems_view(s.drop_last());
    }
}

proof fn lemma_key_pos(es: Seq<(Seq<char>, EngineView)>, k: Seq<char>, i: int)
    requires
        0 <= i,
    ensures
        key_pos(es, k, i) matches Some(j) ==> i <= j < es.len() && es[j].0 == k,
        key_pos(es, k, i) is None ==> forall|j: int| i <= j < es.len() ==> es[j].0 != k,
    decreases es.len() - i,
{
    if i < es.len() && es[i].0 != k {
        lemma_key_pos(es, k, i + 1);
    }
}

/// Sets `key` to `value` among the entries (see `dict_insert`).
fn insert_entry(entries: &mut Vec<(String, EngineValue)>, key: String, value: EngineValue)
    ensures
        entries_view(final(entries)@) == dict_insert(entries_view(old(entries)@), key@, engine_view(value)),
{
    let ghost ev = entries_view(entries@);
    proof {
        lemma_entries_view(entries@);
        lemma_key_pos(ev, key@, 0);
    }
    let mut i: usize = 0;
    while i < entries.len()
        invariant
            i <= entries@.len(),
            entries@ == old(entries)@,
            ev == entries_view(entries@),
            ev.len() == entries@.len(),
            forall|k: int| 0 <= k < entries@.len() ==> #[trigger] ev[k] == (entries@[k].0@, engine_view(entries@[k].1)),
            key_pos(ev, key@, 0) == key_pos(ev, key@, i as int),
        decreases entries.len() - i,
    {
        if str_eq_entry(&entries[i].0, &key) {
            let ghost before = entries@;
            entries.set(i, (key, value));
            proof {
                lemma_entries_view(entries@);
                assert(entries_view(entries@) =~= ev.update(i as int, (key@, engine_view(value))));
            }
            return;
        }
        i = i + 1;
    }
    let ghost before = entries@;
    entries.push((key, value));
    proof {
        lemma_entries_view(entries@);
        assert(entries_view(entries@) =~= ev.push((key@, engine_view(value))));
    }
}

fn str_eq_entry(a: &String, b: &String) -> (r: bool)
    ensures
        r == (a@ == b@),
{
    crate::photoshop::str_eq(a.as_str(), b.as_str())
}

impl<'a> EngineParser<'a> {
    /// Reads a value (see `spec_engine_value`).
    pub fn parse_value(&mut self) -> (r: Result<EngineValue, String>)
        requires
            old(self).wf(),
        ensures
            final(self).wf(),
            final(self).data() == old(self).data(),
            match spec_engine_value(old(self).data(), old(self).at()) {
                Ok((v, c)) => r matches Ok(x) && engine_view(x) == v && final(self).at() == old(self).at() + c,
                Err(m) => r matches Err(x) && x@ == m,
            },
        decreases left(old(self).data(), old(self).at()), 1int,
    {
        let ghost d = self.data();
        let ghost p = self.at();
        proof {
            lemma_skip_ws(d, p);
        }
        self.skip_ws();
        let open_dict: [u8; 2] = [0x3C, 0x3C];
        assert(open_dict@ =~= seq![0x3Cu8, 0x3Cu8]);
        if self.starts_with(&open_dict) {
            self.pos = self.pos + 2;
            let entries = self.parse_dict_entries()?;
            return Ok(EngineValue::Dict(entries));
        }
        match self.peek_byte() {
            Some(b) => {
                if b == 0x5B {
                    self.pos = self.pos + 1;
                    let items = self.parse_array_items()?;
                    return Ok(EngineValue::Array(items));
                }
                if b == 0x28 {
                    proof {
                        lemma_string_body(d, spec_skip_ws(d, p) + 1, 1, seq![]);
                    }
                    let s = self.parse_string()?;
                    return Ok(EngineValue::String(s));
                }
                if b == 0x2F {
                    proof {
                        lemma_token_end(d, spec_skip_ws(d, p) + 1);
                    }
                    let s = self.parse_name()?;
                    return Ok(EngineValue::Name(s));
                }
            },
            None => {},
        }
        proof {
            lemma_token_end(d, spec_skip_ws(d, p));
        }
        self.parse_atom()
    }

    /// Reads a bare token at the read position: `true`, `false`, `null`,
    /// else an atom.
    fn parse_atom(&mut self) -> (r: Result<EngineValue, String>)
        requires
            old(self).wf(),
        ensures
            final(self).wf(),
            final(self).data() == old(self).data(),
            ({
                let d = old(self).data();
                let q = old(self).at();
                let e = token_end(d, q);
                let token = crate::psd::utf8_lossy(d.subrange(q, e));
                &&& final(self).at() == e
                &&& r matches Ok(x) && engine_view(x) == if token == "true"@ {
                    EngineView::Bool(true)
                } else if token == "false"@ {
                    EngineView::Bool(false)
                } else if token == "null"@ {
                    EngineView::Null
                } else {
                    EngineView::Atom(token)
                }
            }),
    {
        let ghost d = self.data();
        let start = self.pos;
        while self.pos < self.bytes.len() && !(is_engine_whitespace(self.bytes[self.pos]) || self.bytes[self.pos] == 0x5B
            || self.bytes[self.pos] == 0x5D || self.bytes[self.pos] == 0x3C || self.bytes[self.pos] == 0x3E
            || self.bytes[self.pos] == 0x28 || self.bytes[self.pos] == 0x29)
            invariant
                self.wf(),
                self.data() == d,
                start == old(self).at(),
                start <= self.pos,
                token_end(d, start as int) == token_end(d, self.pos as int),
            decreases self.bytes.len() - self.pos,
        {
            self.pos = self.pos + 1;
        }
        let mut token: Vec<u8> = Vec::new();
        let mut i: usize = start;
        while i < self.pos
            invariant
                self.wf(),
                self.data() == d,
                start <= i <= self.pos,
                token@ == d.subrange(start as int, i as int),
            decreases self.pos - i,
        {
            token.push(self.bytes[i]);
            i = i + 1;
            assert(token@ =~= d.subrange(start as int, i as int));
        }
        let text = crate::psd::decode_utf8_lossy(token.as_slice());
        if crate::photoshop::str_eq(text.as_str(), "true") {
            Ok(EngineValue::Bool(true))
        } else if crate::photoshop::str_eq(text.as_str(), "false") {
            Ok(EngineValue::Bool(false))
        } else if crate::photoshop::str_eq(text.as_str(), "null") {
            Ok(EngineValue::Null)
        } else {
            Ok(EngineValue::Atom(text))
        }
    }

    /// Reads dictionary entries up to and past `>>` (see `spec_engine_dict`).
    fn parse_dict_entries(&mut self) -> (r: Result<Vec<(String, EngineValue)>, String>)
        requires
            old(self).wf(),
        ensures
            final(self).wf(),
            final(self).data() == old(self).data(),
            match spec_engine_dict(old(self).data(), old(self).at(), seq![]) {
                Ok((es, c)) => r matches Ok(x) && entries_view(x@) == es && final(self).at() == old(self).at() + c,
                Err(m) => r matches Err(x) && x@ == m,
            },
        decreases left(old(self).data(), old(self).at()), 2int,
    {
        let ghost d = self.data();
        let ghost p0 = self.at();
        let mut entries: Vec<(String, EngineValue)> = Vec::new();
        let close: [u8; 2] = [0x3E, 0x3E];
        assert(close@ =~= seq![0x3Eu8, 0x3Eu8]);
        loop
            invariant
                self.wf(),
                self.data() == d,
                d == old(self).data(),
                p0 == old(self).at(),
                p0 <= self.at(),
                close@ == seq![0x3Eu8, 0x3Eu8],
                spec_engine_dict(d, p0, seq![]) == moved(
                    spec_engine_dict(d, self.at(), entries_view(entries@)),
                    self.at() - p0,
                ),
            decreases d.len() - self.at(),
        {
            let ghost here = self.at();
            proof {
                lemma_skip_ws(d, here);
            }
            self.skip_ws();
            if self.starts_with(&close) {
                self.pos = self.pos + 2;
                return Ok(entries);
            }
            let key = self.parse_name()?;
            let ghost e = self.at();
            proof {
                lemma_token_end(d, spec_skip_ws(d, here) + 1);
            }
            let value = self.parse_value()?;
            insert_entry(&mut entries, key, value);
        }
    }

    /// Reads array elements up to and past `]` (see `spec_engine_array`).
    fn parse_array_items(&mut self) -> (r: Result<Vec<EngineValue>, String>)
        requires
            old(self).wf(),
        ensures
            final(self).wf(),
            final(self).data() == old(self).data(),
            match spec_engine_array(old(self).data(), old(self).at(), seq![]) {
                Ok((vs, c)) => r matches Ok(x) && elems_view(x@) == vs && final(self).at() == old(self).at() + c,
                Err(m) => r matches Err(x) && x@ == m,
            },
        decreases left(old(self).data(), old(self).at()), 2int,
    {
        let ghost d = self.data();
        let ghost p0 = self.at();
        let mut items: Vec<EngineValue> = Vec::new();
        loop
            invariant
                self.wf(),
                self.data() == d,
                d == old(self).data(),
                p0 == old(self).at(),
                p0 <= self.at(),
                spec_engine_array(d, p0, seq![]) == moved(
                    spec_engine_array(d, self.at(), elems_view(items@)),
                    self.at() - p0,
                ),
            decreases d.len() - self.at(),
        {
            let ghost here = self.at();
            proof {
                lemma_skip_ws(d, here);
            }
            self.skip_ws();
            match self.peek_byte() {
                None => {
                    return Err(crate::text::owned("unterminated engine array"));
                },
                Some(b) => {
                    if b == 0x5D {
                        self.pos = self.pos + 1;
                        return Ok(items);
                    }
                },
            }
            let before = self.pos;
            let value = self.parse_value()?;
            if self.pos == before {
                return Err(crate::text::owned("unexpected delimiter in engine array"));
            }
            let ghost acc = elems_view(items@);
            proof {
                lemma_elems_view(items@);
            }
            items.push(value);
            proof {
                lemma_elems_view(items@);
                assert(elems_view(items@) =~= acc.push(engine_view(value)));
            }
        }
    }
}

/// Reads engine data: one value, then white space (see `spec_engine_value`).
pub fn parse_engine_data(input: &[u8]) -> (r: Result<EngineValue, String>)
    requires
        input@.len() <= isize::MAX,
    ensures
        match spec_engine_value(input@, 0) {
            Ok((v, _)) => r matches Ok(x) && engine_view(x) == v,
            Err(m) => r matches Err(x) && x@ == m,
        },
{
    let mut parser = EngineParser::new(input);
    let value = parser.parse_value()?;
    parser.skip_ws();
    Ok(value)
}

} // verus!

verus! {

/// The value of a decimal digit.
pub open spec fn digit_value(c: char) -> int {
    (c as u32 - '0' as u32) as int
}

/// The number written by decimal digits.
pub open spec fn digits_value(s: Seq<char>) -> int
    decreases s.len(),
{
    if s.len() == 0 {
        0
    } else {
        digits_value(s.drop_last()) * 10 + digit_value(s.last())
    }
}

/// Whether every character of `t` is an ASCII decimal digit.
pub open spec fn all_digits(t: Seq<char>) -> bool {
    forall|i: int| 0 <= i < t.len() ==> '0' <= #[trigger] t[i] <= '9'
}

/// `s` without a leading `+`.
pub open spec fn without_plus(s: Seq<char>) -> Seq<char> {
    if s.len() > 0 && s[0] == '+' {
        s.drop_first()
    } else {
        s
    }
}

/// What `str::parse::<usize>` gives: the value of one or more decimal
/// digits, after an optional `+`, when it fits in `usize`.
pub open spec fn spec_parse_usize(s: Seq<char>) -> Option<usize> {
    let t = without_plus(s);
    if t.len() > 0 && all_digits(t) && digits_value(t) <= usize::MAX {
        Some(digits_value(t) as usize)
    } else {
        None
    }
}

proof fn lemma_digits_value_prefix(s: Seq<char>, k: int)
    requires
        0 <= k <= s.len(),
        forall|i: int| 0 <= i < s.len() ==> '0' <= #[trigger] s[i] <= '9',
    ensures
        digits_value(s.subrange(0, k)) <= digits_value(s),
        0 <= digits_value(s.subrange(0, k)),
    decreases s.len() - k,
{
    if k < s.len() {
        lemma_digits_value_prefix(s, k + 1);
        assert(s.subrange(0, k + 1).drop_last() =~= s.subrange(0, k));
        assert(s.subrange(0, k + 1).last() == s[k]);
    } else {
        assert(s.subrange(0, k) =~= s);
        lemma_digits_value_nonneg(s);
    }
}

proof fn lemma_digits_value_nonneg(s: Seq<char>)
    requires
        forall|i: int| 0 <= i < s.len() ==> '0' <= #[trigger] s[i] <= '9',
    ensures
        0 <= digits_value(s),
    decreases s.len(),
{
    if s.len() > 0 {
        assert forall|i: int| 0 <= i < s.drop_last().len() implies '0' <= #[trigger] s.drop_last()[i] <= '9' by {
            assert(s.drop_last()[i] == s[i]);
        }
        lemma_digits_value_nonneg(s.drop_last());
        assert('0' <= s[s.len() - 1] <= '9');
    }
}

/// Reads a decimal index as `str::parse::<usize>` does (see
/// `spec_parse_usize`).
fn parse_index(s: &str) -> (r: Option<usize>)
    ensures
        r == spec_parse_usize(s@),
{
    let cs = crate::text::chars_of(s);
    let start: usize = if cs.len() > 0 && cs[0] == '+' { 1 } else { 0 };
    let ghost t = without_plus(s@);
    assert(t =~= cs@.subrange(start as int, cs@.len() as int));
    if start >= cs.len() {
        return None;
    }
    let mut value: usize = 0;
    let mut i: usize = start;
    while i < cs.len()
        invariant
            cs@ == s@,
            start <= i <= cs@.len(),
            t == cs@.subrange(start as int, cs@.len() as int),
            t == without_plus(s@),
            t.len() > 0,
            forall|j: int| start <= j < i ==> '0' <= #[trigger] cs@[j] <= '9',
            value as int == digits_value(cs@.subrange(start as int, i as int)),
        decreases cs.len() - i,
    {
        let c = cs[i];
        if !('0' <= c && c <= '9') {
            assert(t[i - start] == c);
            assert(!all_digits(t));
            assert(spec_parse_usize(s@) is None);
            return None;
        }
        let d = (c as u32 - '0' as u32) as usize;
        let ghost pre = cs@.subrange(start as int, i as int);
        let ghost next = cs@.subrange(start as int, i + 1);
        assert(next.drop_last() =~= pre);
        assert(next.last() == c);
        assert(digits_value(next) == digits_value(pre) * 10 + d);
        if value > (usize::MAX - d) / 10 {
            proof {
                assert(digits_value(next) > usize::MAX) by (nonlinear_arith)
                    requires
                        value > (usize::MAX - d) / 10,
                        digits_value(next) == value * 10 + d,
                        d <= 9,
                ;
                if all_digits(t) {
                    lemma_digits_value_prefix(t, i + 1 - start);
                    assert(t.subrange(0, i + 1 - start) =~= next);
                    assert(digits_value(t) > usize::MAX);
                }
                assert(spec_parse_usize(s@) is None);
            }
            return None;
        }
        proof {
            assert(value * 10 + d <= usize::MAX) by (nonlinear_arith)
                requires
                    value <= (usize::MAX - d) / 10,
                    d <= 9,
            ;
        }
        value = value * 10 + d;
        i = i + 1;
    }
    assert(cs@.subrange(start as int, i as int) =~= t);
    assert forall|j: int| 0 <= j < t.len() implies '0' <= #[trigger] t[j] <= '9' by {
        assert(t[j] == cs@[start + j]);
    }
    assert(all_digits(t));
    Some(value)
}

/// The value of the entry for `k`, if any.
pub open spec fn dict_get(es: Seq<(Seq<char>, EngineView)>, k: Seq<char>) -> Option<EngineView> {
    match key_pos(es, k, 0) {
        Some(i) => Some(es[i].1),
        None => None,
    }
}

/// The value reached from `v` by the path: a dictionary is entered by a
/// name, an array by a decimal index.
pub open spec fn spec_engine_lookup(v: EngineView, path: Seq<Seq<char>>) -> Option<EngineView>
    decreases path.len(),
{
    if path.len() == 0 {
        Some(v)
    } else {
        let next = match v {
            EngineView::Dict(es) => dict_get(es, path[0]),
            EngineView::Array(vs) => match spec_parse_usize(path[0]) {
                Some(i) => if i < vs.len() {
                    Some(vs[i as int])
                } else {
                    None
                },
                None => None,
            },
            _ => None,
        };
        match next {
            Some(x) => spec_engine_lookup(x, path.drop_first()),
            None => None,
        }
    }
}

/// The views of the names of a path.
pub open spec fn path_views(path: Seq<&str>) -> Seq<Seq<char>> {
    path.map_values(|s: &str| s@)
}

fn find_entry<'b>(es: &'b Vec<(String, EngineValue)>, key: &str) -> (r: Option<&'b EngineValue>)
    ensures
        match dict_get(entries_view(es@), key@) {
            Some(x) => r matches Some(v) && engine_view(*v) == x,
            None => r is None,
        },
{
    let ghost ev = entries_view(es@);
    proof {
        lemma_entries_view(es@);
        lemma_key_pos(ev, key@, 0);
    }
    let mut i: usize = 0;
    while i < es.len()
        invariant
            i <= es@.len(),
            ev == entries_view(es@),
            ev.len() == es@.len(),
            forall|k: int| 0 <= k < es@.len() ==> #[trigger] ev[k] == (es@[k].0@, engine_view(es@[k].1)),
            key_pos(ev, key@, 0) == key_pos(ev, key@, i as int),
        decreases es.len() - i,
    {
        if crate::photoshop::str_eq(es[i].0.as_str(), key) {
            return Some(&es[i].1);
        }
        i = i + 1;
    }
    None
}

/// The value reached from `value` by `path` (see `spec_engine_lookup`).
pub fn engine_lookup<'b>(value: &'b EngineValue, path: &[&str]) -> (r: Option<&'b EngineValue>)
    ensures
        match spec_engine_lookup(engine_view(*value), path_views(path@)) {
            Some(x) => r matches Some(v) && engine_view(*v) == x,
            None => r is None,
        },
{
    let ghost pv = path_views(path@);
    let mut current: &EngineValue = value;
    let mut i: usize = 0;
    assert(pv.subrange(0, pv.len() as int) =~= pv);
    while i < path.len()
        invariant
            i <= path@.len(),
            pv == path_views(path@),
            pv.len() == path@.len(),
            spec_engine_lookup(engine_view(*value), pv) == spec_engine_lookup(
                engine_view(*current),
                pv.subrange(i as int, pv.len() as int),
            ),
        decreases path.len() - i,
    {
        let ghost rest = pv.subrange(i as int, pv.len() as int);
        assert(rest[0] == path@[i as int]@);
        assert(rest.drop_first() =~= pv.subrange(i + 1, pv.len() as int));
        let next = match current {
            EngineValue::Dict(es) => find_entry(es, path[i]),
            EngineValue::Array(vs) => {
                proof {
                    lemma_elems_view(vs@);
                }
                match parse_index(path[i]) {
                    Some(k) => if k < vs.len() {
                        Some(&vs[k])
                    } else {
                        None
                    },
                    None => None,
                }
            },
            _ => None,
        };
        match next {
            Some(n) => {
                current = n;
            },
            None => {
                return None;
            },
        }
        i = i + 1;
    }
    assert(pv.subrange(i as int, pv.len() as int) =~= Seq::<Seq<char>>::empty());
    Some(current)
}

/// The text of a string or name value.
pub open spec fn spec_engine_string_value(v: EngineView) -> Option<Seq<char>> {
    match v {
        EngineView::String(s) => Some(s),
        EngineView::Name(s) => Some(s),
        _ => None,
    }
}

/// The text of a string or name value (see `spec_engine_string_value`).
pub fn engine_string_value(value: &EngineValue) -> (r: Option<String>)
    ensures
        match spec_engine_string_value(engine_view(*value)) {
            Some(s) => r matches Some(x) && x@ == s,
            None => r is None,
        },
{
    match value {
        EngineValue::String(s) => Some(owned(s.as_str())),
        EngineValue::Name(s) => Some(owned(s.as_str())),
        _ => None,
    }
}

/// The views of several paths.
pub open spec fn paths_views(paths: Seq<&[&str]>) -> Seq<Seq<Seq<char>>> {
    paths.map_values(|p: &[&str]| path_views(p@))
}

/// The text at the first of the paths that leads to a string or a name.
pub open spec fn spec_first_engine_string(root: EngineView, paths: Seq<Seq<Seq<char>>>, i: int) -> Option<Seq<char>>
    decreases paths.len() - i,
{
    if i < 0 || i >= paths.len() {
        None
    } else {
        match spec_engine_lookup(root, paths[i]) {
            Some(v) => match spec_engine_string_value(v) {
                Some(s) => Some(s),
                None => spec_first_engine_string(root, paths, i + 1),
            },
            None => spec_first_engine_string(root, paths, i + 1),
        }
    }
}

/// The text at the first of the paths that leads to a string or a name
/// (see `spec_first_engine_string`).
pub fn first_engine_string(root: &EngineValue, paths: &[&[&str]]) -> (r: Option<String>)
    ensures
        match spec_first_engine_string(engine_view(*root), paths_views(paths@), 0) {
            Some(s) => r matches Some(x) && x@ == s,
            None => r is None,
        },
{
    let ghost ps = paths_views(paths@);
    let mut i: usize = 0;
    while i < paths.len()
        invariant
            i <= paths@.len(),
            ps == paths_views(paths@),
            ps.len() == paths@.len(),
            spec_first_engine_string(engine_view(*root), ps, 0) == spec_first_engine_string(
                engine_view(*root),
                ps,
                i as int,
            ),
        decreases paths.len() - i,
    {
        assert(ps[i as int] == path_views(paths@[i as int]@));
        match engine_lookup(root, paths[i]) {
            Some(v) => match engine_string_value(v) {
                Some(s) => {
                    return Some(s);
                },
                None => {},
            },
            None => {},
        }
        i = i + 1;
    }
    None
}

/// The elements at the first of the paths that leads to an array.
pub open spec fn spec_first_engine_array(root: EngineView, paths: Seq<Seq<Seq<char>>>, i: int) -> Option<Seq<EngineView>>
    decreases paths.len() - i,
{
    if i < 0 || i >= paths.len() {
        None
    } else {
        match spec_engine_lookup(root, paths[i]) {
            Some(EngineView::Array(vs)) => Some(vs),
            _ => spec_first_engine_array(root, paths, i + 1),
        }
    }
}

/// The elements at the first of the paths that leads to an array (see
/// `spec_first_engine_array`).
pub fn first_engine_array<'b>(root: &'b EngineValue, paths: &[&[&str]]) -> (r: Option<&'b Vec<EngineValue>>)
    ensures
        match spec_first_engine_array(engine_view(*root), paths_views(paths@), 0) {
            Some(vs) => r matches Some(x) && elems_view(x@) == vs,
            None => r is None,
        },
{
    let ghost ps = paths_views(paths@);
    let mut i: usize = 0;
    while i < paths.len()
        invariant
            i <= paths@.len(),
            ps == paths_views(paths@),
            ps.len() == paths@.len(),
            spec_first_engine_array(engine_view(*root), ps, 0) == spec_first_engine_array(
                engine_view(*root),
                ps,
                i as int,
            ),
        decreases paths.len() - i,
    {
        assert(ps[i as int] == path_views(paths@[i as int]@));
        match engine_lookup(root, paths[i]) {
            Some(v) => match v {
                EngineValue::Array(vs) => {
                    return Some(vs);
                },
                _ => {},
            },
            None => {},
        }
        i = i + 1;
    }
    None
}

} // verus!
