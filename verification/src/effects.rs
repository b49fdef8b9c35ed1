use vstd::prelude::*;

use crate::export_model::{export_warning_views, ColorRgba, ExportWarning};

verus! {

/// The color of a shadow or stroke that states none: opaque black.
pub fn default_shadow_color() -> (c: ColorRgba)
    ensures
        c == (ColorRgba { r: 0, g: 0, b: 0, a: 255 }),
{
    ColorRgba { r: 0, g: 0, b: 0, a: 255 }
}

/// A blend mode that bakes as normal: none, empty, `norm` or `normal`.
pub open spec fn spec_is_normal_blend_mode(mode: Option<Seq<char>>) -> bool {
    match mode {
        None => true,
        Some(m) => m == ""@ || m == "norm"@ || m == "normal"@,
    }
}

/// Whether a blend mode bakes as normal (see `spec_is_normal_blend_mode`).
pub fn is_normal_blend_mode(mode: Option<&str>) -> (r: bool)
    ensures
        r == spec_is_normal_blend_mode(
            match mode {
                Some(m) => Some(m@),
                None => None,
            },
        ),
{
    match mode {
        None => true,
        Some(m) => crate::photoshop::str_eq(m, "") || crate::photoshop::str_eq(m, "norm") || crate::photoshop::str_eq(
            m,
            "normal",
        ),
    }
}

/// How far baked effects reach past a layer's image on each side.
#[derive(Debug, Clone, Copy, PartialEq, Eq, Structural)]
pub struct EffectPadding {
    pub left: i32,
    pub top: i32,
    pub right: i32,
    pub bottom: i32,
}

pub open spec fn max_i32(a: i32, b: i32) -> i32 {
    if a >= b { a } else { b }
}

/// A shadow as the padding sees it: blur radius and offset in pixels.
#[derive(Debug, Clone, Copy)]
pub struct ShadowReach {
    pub blur_radius: usize,
    pub offset_x: i32,
    pub offset_y: i32,
}

/// The padding of an outside stroke of `stroke` pixels and a shadow: each
/// side reaches as far as the stroke, and as far as the blurred shadow
/// extends past the image on that side. Radii are taken as `i32`, as the
/// casts do.
pub open spec fn spec_compute_padding(stroke: Option<usize>, shadow: Option<ShadowReach>) -> EffectPadding {
    let s = match stroke {
        Some(r) => r as i32,
        None => 0,
    };
    let p = EffectPadding { left: max_i32(0, s), top: max_i32(0, s), right: max_i32(0, s), bottom: max_i32(0, s) };
    match shadow {
        None => p,
        Some(sh) => {
            let blur = sh.blur_radius as i32;
            EffectPadding {
                left: max_i32(p.left, max_i32((blur - sh.offset_x) as i32, 0)),
                top: max_i32(p.top, max_i32((blur - sh.offset_y) as i32, 0)),
                right: max_i32(p.right, max_i32((blur + sh.offset_x) as i32, 0)),
                bottom: max_i32(p.bottom, max_i32((blur + sh.offset_y) as i32, 0)),
            }
        },
    }
}

/// The room baked effects need around a layer (see `spec_compute_padding`).
pub fn compute_padding(stroke: Option<usize>, shadow: Option<ShadowReach>) -> (p: EffectPadding)
    requires
        shadow matches Some(sh) ==> {
            let blur = sh.blur_radius as i32;
            &&& i32::MIN <= blur - sh.offset_x <= i32::MAX
            &&& i32::MIN <= blur + sh.offset_x <= i32::MAX
            &&& i32::MIN <= blur - sh.offset_y <= i32::MAX
            &&& i32::MIN <= blur + sh.offset_y <= i32::MAX
        },
    ensures
        p == spec_compute_padding(stroke, shadow),
{
    let mut padding = EffectPadding { left: 0, top: 0, right: 0, bottom: 0 };
    match stroke {
        Some(r) => {
            let radius = r as i32;
            if radius > padding.left {
                padding.left = radius;
            }
            if radius > padding.top {
                padding.top = radius;
            }
            if radius > padding.right {
                padding.right = radius;
            }
            if radius > padding.bottom {
                padding.bottom = radius;
            }
        },
        None => {},
    }
    match shadow {
        Some(sh) => {
            let blur = sh.blur_radius as i32;
            let l = if blur - sh.offset_x > 0 { blur - sh.offset_x } else { 0 };
            let t = if blur - sh.offset_y > 0 { blur - sh.offset_y } else { 0 };
            let r = if blur + sh.offset_x > 0 { blur + sh.offset_x } else { 0 };
            let b = if blur + sh.offset_y > 0 { blur + sh.offset_y } else { 0 };
            if l > padding.left {
                padding.left = l;
            }
            if t > padding.top {
                padding.top = t;
            }
            if r > padding.right {
                padding.right = r;
            }
            if b > padding.bottom {
                padding.bottom = b;
            }
        },
        None => {},
    }
    padding
}

/// The first index of the window of radius `r` around `i`.
pub open spec fn win_lo(i: int, r: int) -> int {
    if i >= r { i - r } else { 0 }
}

/// The last index of the window of radius `r` around `i` in a line of `n`.
pub open spec fn win_hi(i: int, r: int, n: int) -> int {
    if i + r < n - 1 { i + r } else { n - 1 }
}

/// The sum of `s[lo..hi]`.
pub open spec fn range_sum(s: Seq<u8>, lo: int, hi: int) -> int
    decreases hi - lo,
{
    if hi <= lo {
        0
    } else {
        range_sum(s, lo, hi - 1) + s[hi - 1]
    }
}

/// The mean of the window around `i`, rounded down.
pub open spec fn blur_value(s: Seq<u8>, r: int, i: int) -> u8 {
    let lo = win_lo(i, r);
    let hi = win_hi(i, r, s.len() as int);
    (range_sum(s, lo, hi + 1) / (hi - lo + 1)) as u8
}

/// A line blurred by a box of radius `r`: each value the mean of the
/// values within `r` of it (the window cut at the ends), rounded down.
pub open spec fn blur_line(s: Seq<u8>, r: int) -> Seq<u8> {
    Seq::new(s.len(), |i: int| blur_value(s, r, i))
}

/// The largest of `s[lo..hi]`, for `lo < hi`.
pub open spec fn range_max(s: Seq<u8>, lo: int, hi: int) -> u8
    decreases hi - lo,
{
    if hi <= lo + 1 {
        s[lo]
    } else {
        let m = range_max(s, lo, hi - 1);
        if s[hi - 1] >= m { s[hi - 1] } else { m }
    }
}

/// A line dilated with radius `r`: each value the largest within `r` of it.
pub open spec fn max_line(s: Seq<u8>, r: int) -> Seq<u8> {
    Seq::new(s.len(), |i: int| range_max(s, win_lo(i, r), win_hi(i, r, s.len() as int) + 1))
}

proof fn lemma_range_sum_split(s: Seq<u8>, a: int, b: int, c: int)
    requires
        a <= b <= c,
    ensures
        range_sum(s, a, c) == range_sum(s, a, b) + range_sum(s, b, c),
    decreases c - b,
{
    if c > b {
        lemma_range_sum_split(s, a, b, c - 1);
    }
}

proof fn lemma_range_sum_bound(s: Seq<u8>, a: int, b: int)
    requires
        a <= b,
    ensures
        0 <= range_sum(s, a, b) <= 255 * (b - a),
    decreases b - a,
{
    if b > a {
        lemma_range_sum_bound(s, a, b - 1);
    }
}

/// Blurs a line by a box of radius `radius` (see `blur_line`).
pub fn box_blur_line(line: &[u8], radius: usize) -> (out: Vec<u8>)
    requires
        line@.len() + radius <= usize::MAX,
    ensures
        out@ == blur_line(line@, radius as int),
{
    let n = line.len();
    let mut prefix: Vec<u128> = Vec::new();
    prefix.push(0);
    let mut k: usize = 0;
    while k < n
        invariant
            n == line@.len(),
            k <= n,
            prefix@.len() == k + 1,
            forall|j: int| 0 <= j <= k ==> #[trigger] prefix@[j] == range_sum(line@, 0, j),
        decreases n - k,
    {
        proof {
            lemma_range_sum_bound(line@, 0, k + 1);
        }
        let next = prefix[k] + line[k] as u128;
        prefix.push(next);
        k = k + 1;
    }
    let mut out: Vec<u8> = Vec::new();
    let mut index: usize = 0;
    while index < n
        invariant
            n == line@.len(),
            n + radius <= usize::MAX,
            index <= n,
            prefix@.len() == n + 1,
            forall|j: int| 0 <= j <= n ==> #[trigger] prefix@[j] == range_sum(line@, 0, j),
            out@.len() == index,
            forall|j: int| 0 <= j < index ==> #[trigger] out@[j] == blur_value(line@, radius as int, j),
        decreases n - index,
    {
        let start = if index >= radius { index - radius } else { 0 };
        let end = if index + radius < n - 1 { index + radius } else { n - 1 };
        proof {
            lemma_range_sum_split(line@, 0, start as int, end + 1);
            lemma_range_sum_bound(line@, 0, start as int);
            lemma_range_sum_bound(line@, start as int, end + 1);
        }
        let total = prefix[end + 1] - prefix[start];
        let samples = (end - start + 1) as u128;
        assert(samples as int == end - start + 1);
        assert(total as int == range_sum(line@, start as int, end + 1));
        out.push((total / samples) as u8);
        index = index + 1;
    }
    assert(out@ =~= blur_line(line@, radius as int));
    out
}


proof fn lemma_range_max(s: Seq<u8>, lo: int, hi: int)
    requires
        0 <= lo < hi <= s.len(),
    ensures
        forall|j: int| lo <= j < hi ==> s[j] <= range_max(s, lo, hi),
        exists|j: int| lo <= j < hi && s[j] == range_max(s, lo, hi),
    decreases hi - lo,
{
    if hi > lo + 1 {
        lemma_range_max(s, lo, hi - 1);
        let m = range_max(s, lo, hi - 1);
        if s[hi - 1] < m {
            let j = choose|j: int| lo <= j < hi - 1 && s[j] == m;
            assert(lo <= j < hi && s[j] == range_max(s, lo, hi));
        } else {
            assert(s[hi - 1] == range_max(s, lo, hi));
        }
    } else {
        assert(s[lo] == range_max(s, lo, hi));
    }
}

/// The queue of candidates while dilating `s`: positions `dq[head..]`
/// before `next`, increasing, with decreasing values, the last one `next - 1`;
/// the front's value is the largest after `lb`, and each other one's the
/// largest after the candidate before it.
#[verifier::opaque]
pub open spec fn deque_ok(s: Seq<u8>, dq: Seq<usize>, head: int, next: int, lb: int) -> bool {
    &&& 0 <= head <= dq.len()
    &&& next <= s.len()
    &&& forall|a: int, b: int|
        #![trigger dq[a], dq[b]]
        head <= a < b < dq.len() ==> dq[a] < dq[b] && s[dq[a] as int] > s[dq[b] as int]
    &&& forall|a: int| head <= a < dq.len() ==> #[trigger] dq[a] < next
    &&& next > 0 ==> dq.len() > head && dq[dq.len() - 1] == next - 1
    &&& next == 0 ==> dq.len() == head
    &&& -1 <= lb
    &&& dq.len() > head ==> lb < dq[head]
    &&& forall|j: int| lb < j < next && dq.len() > head ==> #[trigger] s[j] <= s[dq[head] as int]
    &&& forall|a: int, j: int|
        #![trigger dq[a], s[j]]
        head < a < dq.len() && dq[a - 1] < j < next ==> s[j] <= s[dq[a] as int]
}

/// The queue after `next` joins it behind the first `m` candidates, those
/// after them having values that do not exceed its value.
proof fn lemma_push_candidate(s: Seq<u8>, d0: Seq<usize>, head: int, next: int, lb: int, m: int)
    requires
        deque_ok(s, d0, head, next, lb),
        0 <= next < s.len(),
        next <= usize::MAX,
        lb < next,
        head <= m <= d0.len(),
        m < d0.len() ==> s[d0[m] as int] <= s[next],
        m > head ==> s[d0[m - 1] as int] > s[next],
    ensures
        deque_ok(s, d0.subrange(0, m).push(next as usize), head, next + 1, lb),
{
    reveal(deque_ok);
    let n = d0.subrange(0, m).push(next as usize);
    assert(n.len() == m + 1);
    assert forall|a: int| 0 <= a < m implies #[trigger] n[a] == d0[a] by {}
    assert(n[m] == next);
    assert forall|a: int, b: int|
        #![trigger n[a], n[b]]
        head <= a < b < n.len() implies n[a] < n[b] && s[n[a] as int] > s[n[b] as int] by {
        if b == m {
            assert(n[a] == d0[a]);
            if a < m - 1 {
                assert(d0[a] < d0[m - 1] && s[d0[a] as int] > s[d0[m - 1] as int]);
            }
        } else {
            assert(n[a] == d0[a] && n[b] == d0[b]);
        }
    }
    assert forall|a: int| head <= a < n.len() implies #[trigger] n[a] < next + 1 by {
        if a < m {
            assert(n[a] == d0[a]);
        }
    }
    assert forall|j: int| lb < j < next + 1 && n.len() > head implies #[trigger] s[j] <= s[n[head] as int] by {
        if m == head {
            if j < next && d0.len() > head {
                assert(s[j] <= s[d0[head] as int]);
            }
        } else {
            assert(n[head] == d0[head]);
            if j == next && m - 1 > head {
                assert(s[d0[head] as int] > s[d0[m - 1] as int]);
            }
        }
    }
    assert forall|a: int, j: int|
        #![trigger n[a], s[j]]
        head < a < n.len() && n[a - 1] < j < next + 1 implies s[j] <= s[n[a] as int] by {
        if a == m {
            assert(n[a - 1] == d0[a - 1]);
            if j < next && m < d0.len() {
                assert(s[j] <= s[d0[m] as int]);
            }
        } else {
            assert(n[a] == d0[a] && n[a - 1] == d0[a - 1]);
            if j == next && a < m - 1 {
                assert(s[d0[a] as int] > s[d0[m - 1] as int]);
            }
        }
    }
}

/// Adds the position `next` to the back of the queue, first dropping the
/// candidates whose values do not exceed its value.
fn push_candidate(line: &[u8], dq: &mut Vec<usize>, head: usize, next: usize, Ghost(lb): Ghost<int>)
    requires
        deque_ok(line@, old(dq)@, head as int, next as int, lb),
        next < line@.len(),
        lb < next,
    ensures
        deque_ok(line@, final(dq)@, head as int, next + 1, lb),
{
    let ghost s = line@;
    let ghost d0 = dq@;
    proof {
        reveal(deque_ok);
    }
    while dq.len() > head && line[dq[dq.len() - 1]] <= line[next]
        invariant
            s == line@,
            next < s.len(),
            head <= dq@.len() <= d0.len(),
            dq@ == d0.subrange(0, dq@.len() as int),
            forall|a: int| head <= a < d0.len() ==> #[trigger] d0[a] < next,
            dq@.len() < d0.len() ==> s[d0[dq@.len() as int] as int] <= s[next as int],
        decreases dq.len(),
    {
        dq.pop();
    }
    let ghost m = dq@.len() as int;
    proof {
        if m > head {
            assert(dq@[m - 1] == d0[m - 1]);
        }
        lemma_push_candidate(s, d0, head as int, next as int, lb, m);
    }
    dq.push(next);
    assert(dq@ =~= d0.subrange(0, m).push(next));
}

proof fn lemma_deque_nonempty(s: Seq<u8>, dq: Seq<usize>, head: int, next: int, lb: int)
    requires
        deque_ok(s, dq, head, next, lb),
        next > 0,
    ensures
        dq.len() > head,
        dq[dq.len() - 1] == next - 1,
        0 <= head,
{
    reveal(deque_ok);
}

proof fn lemma_pop_front(s: Seq<u8>, dq: Seq<usize>, head: int, next: int, lb: int, start: int)
    requires
        deque_ok(s, dq, head, next, lb),
        head < dq.len(),
        dq[head] < start,
        dq[dq.len() - 1] >= start,
    ensures
        deque_ok(s, dq, head + 1, next, dq[head] as int),
        dq.len() > head + 1,
{
    reveal(deque_ok);
    assert forall|j: int| dq[head] < j < next && dq.len() > head + 1 implies #[trigger] s[j] <= s[dq[head + 1] as int] by {
        assert(dq[head + 1 - 1] < j);
    }
}

proof fn lemma_front_is_max(s: Seq<u8>, dq: Seq<usize>, head: int, next: int, lb: int, start: int)
    requires
        deque_ok(s, dq, head, next, lb),
        head < dq.len(),
        dq[head] >= start,
        lb < start,
        0 <= start < next,
    ensures
        s[dq[head] as int] == range_max(s, start, next),
        start <= dq[head] < next,
{
    reveal(deque_ok);
    lemma_range_max(s, start, next);
    let jm = choose|j: int| start <= j < next && s[j] == range_max(s, start, next);
    assert(s[jm] <= s[dq[head] as int]);
}

/// Dilates a line with radius `radius` (see `max_line`), keeping a queue of
/// candidate positions whose values decrease from front to back.
pub fn max_filter_line(line: &[u8], radius: usize) -> (out: Vec<u8>)
    requires
        line@.len() + radius <= usize::MAX,
    ensures
        out@ == max_line(line@, radius as int),
{
    let n = line.len();
    if n == 0 {
        assert(max_line(line@, radius as int) =~= Seq::<u8>::empty());
        return Vec::new();
    }
    let ghost s = line@;
    let ghost r = radius as int;
    let mut out: Vec<u8> = Vec::new();
    let mut dq: Vec<usize> = Vec::new();
    let mut head: usize = 0;
    let mut next: usize = 0;
    let ghost mut lb: int = -1;
    let mut center: usize = 0;
    assert(deque_ok(s, dq@, head as int, next as int, lb)) by {
        reveal(deque_ok);
    }
    while center < n
        invariant
            s == line@,
            n == s.len(),
            n > 0,
            r == radius as int,
            n + radius <= usize::MAX,
            center <= n,
            next >= center,
            center == 0 ==> next == 0,
            center > 0 ==> next as int == win_hi(center - 1, r, n as int) + 1,
            deque_ok(s, dq@, head as int, next as int, lb),
            lb < win_lo(center as int, r),
            out@.len() == center,
            forall|c: int| 0 <= c < center ==> #[trigger] out@[c] == max_line(s, r)[c],
        decreases n - center,
    {
        let end = if center + radius < n - 1 { center + radius } else { n - 1 };
        while next <= end
            invariant
                s == line@,
                n == s.len(),
                center < n,
                end < n,
                next >= center,
                next <= end + 1,
                deque_ok(s, dq@, head as int, next as int, lb),
                lb < win_lo(center as int, r),
                win_lo(center as int, r) <= center,
            decreases end + 1 - next,
        {
            push_candidate(line, &mut dq, head, next, Ghost(lb));
            next = next + 1;
        }
        let start = if center >= radius { center - radius } else { 0 };
        proof {
            lemma_deque_nonempty(s, dq@, head as int, next as int, lb);
        }
        while dq.len() > head && dq[head] < start
            invariant
                s == line@,
                start <= center <= end < n,
                next == end + 1,
                deque_ok(s, dq@, head as int, next as int, lb),
                dq@.len() > head,
                dq@[dq@.len() - 1] == next - 1,
                lb < start,
            decreases dq.len() - head,
        {
            proof {
                lemma_pop_front(s, dq@, head as int, next as int, lb, start as int);
                lb = dq@[head as int] as int;
            }
            head = head + 1;
        }
        proof {
            lemma_front_is_max(s, dq@, head as int, next as int, lb, start as int);
            assert(max_line(s, r)[center as int] == range_max(s, start as int, end + 1));
        }
        out.push(line[dq[head]]);
        center = center + 1;
    }
    assert(out@ =~= max_line(s, r));
    out
}


/// The position of pixel (`x`, `y`) in a row-major image `w` pixels wide.
pub open spec fn cell(w: int, y: int, x: int) -> int {
    y * w + x
}

proof fn lemma_cell_bounds(w: int, h: int, y: int, x: int)
    requires
        0 <= y < h,
        0 <= x < w,
    ensures
        0 <= cell(w, y, x) < w * h,
        cell(w, y, x) < h * w,
        cell(w, y, x) + w - x <= w * h,
        y * w + w <= w * h,
{
    assert(y * w + w <= h * w) by (nonlinear_arith)
        requires
            0 <= y < h,
            0 <= w,
    ;
    assert(0 <= y * w) by (nonlinear_arith)
        requires
            0 <= y,
            0 <= w,
    ;
    assert(w * h == h * w) by (nonlinear_arith);
}

proof fn lemma_row_bounds(w: int, h: int, y: int)
    requires
        0 <= y < h,
        0 <= w,
    ensures
        0 <= y * w,
        y * w + w <= w * h,
        (y + 1) * w == y * w + w,
{
    assert(y * w + w <= h * w) by (nonlinear_arith)
        requires
            0 <= y < h,
            0 <= w,
    ;
    assert(0 <= y * w) by (nonlinear_arith)
        requires
            0 <= y,
            0 <= w,
    ;
    assert(w * h == h * w) by (nonlinear_arith);
    assert((y + 1) * w == y * w + w) by (nonlinear_arith);
}

proof fn lemma_cell_distinct(w: int, y: int, x: int, y2: int, x2: int)
    requires
        0 <= x < w,
        0 <= x2 < w,
        0 <= y,
        0 <= y2,
        y != y2 || x != x2,
    ensures
        cell(w, y, x) != cell(w, y2, x2),
{
    if y < y2 {
        assert(y * w + w <= y2 * w) by (nonlinear_arith)
            requires
                y < y2,
                0 <= w,
        ;
    } else if y2 < y {
        assert(y2 * w + w <= y * w) by (nonlinear_arith)
            requires
                y2 < y,
                0 <= w,
        ;
    }
}

/// A line filtered: dilated, or blurred by a box.
pub open spec fn line_filter(l: Seq<u8>, r: int, dilate: bool) -> Seq<u8> {
    if dilate {
        max_line(l, r)
    } else {
        blur_line(l, r)
    }
}

/// Row `y` of a row-major image `w` pixels wide.
pub open spec fn row_of(s: Seq<u8>, w: int, y: int) -> Seq<u8> {
    s.subrange(y * w, y * w + w)
}

/// Column `x` of an image after each of its rows was filtered.
pub open spec fn filtered_column(s: Seq<u8>, w: int, h: int, r: int, dilate: bool, x: int) -> Seq<u8> {
    Seq::new(h as nat, |y: int| line_filter(row_of(s, w, y), r, dilate)[x])
}

/// Pixel (`x`, `y`) of an image whose rows, then columns, were filtered.
pub open spec fn filtered_at(s: Seq<u8>, w: int, h: int, r: int, dilate: bool, y: int, x: int) -> u8 {
    line_filter(filtered_column(s, w, h, r, dilate, x), r, dilate)[y]
}

fn filter_line(line: &Vec<u8>, radius: usize, dilate: bool) -> (out: Vec<u8>)
    requires
        line@.len() + radius <= usize::MAX,
    ensures
        out@ == line_filter(line@, radius as int, dilate),
{
    if dilate {
        max_filter_line(line.as_slice(), radius)
    } else {
        box_blur_line(line.as_slice(), radius)
    }
}

fn zeros(n: usize) -> (v: Vec<u8>)
    ensures
        v@.len() == n,
        forall|k: int| 0 <= k < n ==> #[trigger] v@[k] == 0,
{
    let mut v: Vec<u8> = Vec::new();
    let mut i: usize = 0;
    while i < n
        invariant
            i <= n,
            v@.len() == i,
            forall|k: int| 0 <= k < i ==> #[trigger] v@[k] == 0,
        decreases n - i,
    {
        v.push(0);
        i = i + 1;
    }
    v
}

/// Filters every row of an image, then every column (see `filtered_at`);
/// what lies past `width * height` becomes 0.
fn filter_image(input: &[u8], width: usize, height: usize, radius: usize, dilate: bool) -> (out: Vec<u8>)
    requires
        width * height <= input@.len(),
        width + radius <= usize::MAX,
        height + radius <= usize::MAX,
    ensures
        out@.len() == input@.len(),
        forall|y: int, x: int|
            0 <= y < height && 0 <= x < width ==> #[trigger] out@[cell(width as int, y, x)] == filtered_at(
                input@,
                width as int,
                height as int,
                radius as int,
                dilate,
                y,
                x,
            ),
        forall|k: int| width * height <= k < input@.len() ==> #[trigger] out@[k] == 0,
{
    let ghost s = input@;
    let ghost w = width as int;
    let ghost h = height as int;
    let ghost r = radius as int;
    let len = input.len();
    let mut horizontal = zeros(len);
    let mut row: usize = 0;
    while row < height
        invariant
            s == input@,
            len == s.len(),
            width * height <= len,
            w == width,
            h == height,
            r == radius,
            width + radius <= usize::MAX,
            row <= height,
            horizontal@.len() == len,
            forall|y: int, x: int|
                0 <= y < row && 0 <= x < width ==> #[trigger] horizontal@[cell(w, y, x)] == line_filter(
                    row_of(s, w, y),
                    r,
                    dilate,
                )[x],
            forall|k: int| row * width <= k < len ==> #[trigger] horizontal@[k] == 0,
        decreases height - row,
    {
        proof {
            lemma_row_bounds(w, h, row as int);
        }
        let base = row * width;
        let mut line: Vec<u8> = Vec::new();
        let mut x: usize = 0;
        while x < width
            invariant
                s == input@,
                len == s.len(),
                base + width <= len,
                base == row * width,
                x <= width,
                line@ == s.subrange(base as int, base + x),
            decreases width - x,
        {
            line.push(input[base + x]);
            x = x + 1;
            assert(line@ =~= s.subrange(base as int, base + x));
        }
        let filtered = filter_line(&line, radius, dilate);
        let ghost before = horizontal@;
        let mut x2: usize = 0;
        while x2 < width
            invariant
                base + width <= len,
                base == row * width,
                x2 <= width,
                filtered@.len() == width,
                horizontal@.len() == len,
                forall|k: int| 0 <= k < len && !(base <= k < base + x2) ==> #[trigger] horizontal@[k] == before[k],
                forall|xx: int| 0 <= xx < x2 ==> #[trigger] horizontal@[base + xx] == filtered@[xx],
            decreases width - x2,
        {
            horizontal.set(base + x2, filtered[x2]);
            x2 = x2 + 1;
        }
        proof {
            assert forall|y: int, x: int|
                0 <= y < row + 1 && 0 <= x < width implies #[trigger] horizontal@[cell(w, y, x)] == line_filter(
                row_of(s, w, y),
                r,
                dilate,
            )[x] by {
                lemma_cell_bounds(w, h, y, x);
                if y < row {
                    lemma_cell_bounds(w, row as int, y, x);
                    assert(cell(w, y, x) < row * w);
                } else {
                    assert(cell(w, y, x) == base + x);
                }
            }
            assert forall|k: int| (row + 1) * width <= k < len implies #[trigger] horizontal@[k] == 0 by {
                assert((row + 1) * width == base + width);
            }
        }
        row = row + 1;
    }
    let mut output = zeros(len);
    let mut col: usize = 0;
    proof {
        assert forall|y: int, x: int| 0 <= y < height && 0 <= x < width implies #[trigger] output@[cell(w, y, x)] == 0 by {
            lemma_cell_bounds(w, h, y, x);
        }
    }
    while col < width
        invariant
            s == input@,
            len == s.len(),
            width * height <= len,
            w == width,
            h == height,
            r == radius,
            height + radius <= usize::MAX,
            col <= width,
            horizontal@.len() == len,
            output@.len() == len,
            forall|y: int, x: int|
                0 <= y < height && 0 <= x < width ==> #[trigger] horizontal@[cell(w, y, x)] == line_filter(
                    row_of(s, w, y),
                    r,
                    dilate,
                )[x],
            forall|y: int, x: int|
                0 <= y < height && 0 <= x < col ==> #[trigger] output@[cell(w, y, x)] == filtered_at(
                    s,
                    w,
                    h,
                    r,
                    dilate,
                    y,
                    x,
                ),
            forall|y: int, x: int| 0 <= y < height && col <= x < width ==> #[trigger] output@[cell(w, y, x)] == 0,
            forall|k: int| width * height <= k < len ==> #[trigger] output@[k] == 0,
        decreases width - col,
    {
        let mut column: Vec<u8> = Vec::new();
        let mut y: usize = 0;
        while y < height
            invariant
                w == width,
                h == height,
                col < width,
                width * height <= len,
                horizontal@.len() == len,
                y <= height,
                column@.len() == y,
                forall|yy: int| 0 <= yy < y ==> #[trigger] column@[yy] == horizontal@[cell(w, yy, col as int)],
            decreases height - y,
        {
            proof {
                lemma_cell_bounds(w, h, y as int, col as int);
            }
            column.push(horizontal[y * width + col]);
            y = y + 1;
        }
        proof {
            assert(column@ =~= filtered_column(s, w, h, r, dilate, col as int));
        }
        let filtered = filter_line(&column, radius, dilate);
        let ghost before = output@;
        let mut y2: usize = 0;
        while y2 < height
            invariant
                w == width,
                h == height,
                col < width,
                width * height <= len,
                output@.len() == len,
                y2 <= height,
                filtered@.len() == height,
                forall|yy: int| 0 <= yy < y2 ==> #[trigger] output@[cell(w, yy, col as int)] == filtered@[yy],
                forall|yy: int, xx: int|
                    0 <= yy < height && 0 <= xx < width && (xx != col || yy >= y2) ==> #[trigger] output@[cell(
                        w,
                        yy,
                        xx,
                    )] == before[cell(w, yy, xx)],
                forall|k: int| width * height <= k < len ==> #[trigger] output@[k] == before[k],
            decreases height - y2,
        {
            proof {
                lemma_cell_bounds(w, h, y2 as int, col as int);
                assert(y2 * width + col == cell(w, y2 as int, col as int));
            }
            let ghost prev = output@;
            output.set(y2 * width + col, filtered[y2]);
            proof {
                assert forall|yy: int, xx: int|
                    0 <= yy < height && 0 <= xx < width && (xx != col || yy >= y2 + 1) implies #[trigger] output@[cell(
                    w,
                    yy,
                    xx,
                )] == before[cell(w, yy, xx)] by {
                    lemma_cell_distinct(w, yy, xx, y2 as int, col as int);
                    lemma_cell_bounds(w, h, yy, xx);
                    assert(output@[cell(w, yy, xx)] == prev[cell(w, yy, xx)]);
                }
                assert forall|yy: int| 0 <= yy < y2 + 1 implies #[trigger] output@[cell(w, yy, col as int)] == filtered@[yy] by {
                    if yy < y2 {
                        lemma_cell_distinct(w, yy, col as int, y2 as int, col as int);
                        lemma_cell_bounds(w, h, yy, col as int);
                        assert(output@[cell(w, yy, col as int)] == prev[cell(w, yy, col as int)]);
                    }
                }
            }
            y2 = y2 + 1;
        }
        proof {
            assert forall|y: int, x: int|
                0 <= y < height && 0 <= x < col + 1 implies #[trigger] output@[cell(w, y, x)] == filtered_at(
                s,
                w,
                h,
                r,
                dilate,
                y,
                x,
            ) by {
                if x < col {
                    assert(output@[cell(w, y, x)] == before[cell(w, y, x)]);
                }
            }
        }
        col = col + 1;
    }
    output
}

/// An image blurred by a box of radius `radius`, rows then columns (see
/// `filtered_at`); with radius 0, or no pixels, the image itself.
pub fn box_blur_u8(input: &[u8], width: usize, height: usize, radius: usize) -> (out: Vec<u8>)
    requires
        width * height <= input@.len(),
        width + radius <= usize::MAX,
        height + radius <= usize::MAX,
    ensures
        radius == 0 || input@.len() == 0 ==> out@ == input@,
        radius > 0 && input@.len() > 0 ==> {
            &&& out@.len() == input@.len()
            &&& forall|y: int, x: int|
                0 <= y < height && 0 <= x < width ==> #[trigger] out@[cell(width as int, y, x)] == filtered_at(
                    input@,
                    width as int,
                    height as int,
                    radius as int,
                    false,
                    y,
                    x,
                )
            &&& forall|k: int| width * height <= k < input@.len() ==> #[trigger] out@[k] == 0
        },
{
    if radius == 0 || input.len() == 0 {
        return copy_bytes(input);
    }
    filter_image(input, width, height, radius, false)
}

/// An image dilated with radius `radius`, rows then columns (see
/// `filtered_at`); with radius 0, or no pixels, the image itself.
pub fn max_filter_u8(input: &[u8], width: usize, height: usize, radius: usize) -> (out: Vec<u8>)
    requires
        width * height <= input@.len(),
        width + radius <= usize::MAX,
        height + radius <= usize::MAX,
    ensures
        radius == 0 || input@.len() == 0 ==> out@ == input@,
        radius > 0 && input@.len() > 0 ==> {
            &&& out@.len() == input@.len()
            &&& forall|y: int, x: int|
                0 <= y < height && 0 <= x < width ==> #[trigger] out@[cell(width as int, y, x)] == filtered_at(
                    input@,
                    width as int,
                    height as int,
                    radius as int,
                    true,
                    y,
                    x,
                )
            &&& forall|k: int| width * height <= k < input@.len() ==> #[trigger] out@[k] == 0
        },
{
    if radius == 0 || input.len() == 0 {
        return copy_bytes(input);
    }
    filter_image(input, width, height, radius, true)
}

fn copy_bytes(input: &[u8]) -> (out: Vec<u8>)
    ensures
        out@ == input@,
{
    let mut out: Vec<u8> = Vec::new();
    let mut i: usize = 0;
    while i < input.len()
        invariant
            i <= input@.len(),
            out@ == input@.subrange(0, i as int),
        decreases input.len() - i,
    {
        out.push(input[i]);
        i = i + 1;
        assert(out@ =~= input@.subrange(0, i as int));
    }
    assert(input@.subrange(0, i as int) =~= input@);
    out
}


/// An RGBA image, four bytes per pixel, row-major.
#[derive(Debug, Clone)]
pub struct RgbaBitmap {
    pub width: u32,
    pub height: u32,
    pub pixels: Vec<u8>,
}

/// The alpha of pixel (`x`, `y`) of a canvas on which `bitmap` lies with
/// its top-left corner at (`ox`, `oy`): the bitmap's alpha there, else 0.
pub open spec fn canvas_alpha(bitmap: RgbaBitmap, ox: int, oy: int, y: int, x: int) -> u8 {
    if oy <= y < oy + bitmap.height && ox <= x < ox + bitmap.width {
        bitmap.pixels@[cell(bitmap.width as int, y - oy, x - ox) * 4 + 3]
    } else {
        0
    }
}

/// The alpha channel of `bitmap` placed on a transparent canvas (see
/// `canvas_alpha`); the bitmap must fit on the canvas.
pub fn alpha_canvas(
    bitmap: &RgbaBitmap,
    canvas_width: u32,
    canvas_height: u32,
    origin_x: usize,
    origin_y: usize,
) -> (out: Vec<u8>)
    requires
        canvas_width * canvas_height <= usize::MAX,
        bitmap.width * bitmap.height * 4 <= bitmap.pixels@.len(),
        origin_x + bitmap.width <= canvas_width,
        origin_y + bitmap.height <= canvas_height,
    ensures
        out@.len() == canvas_width * canvas_height,
        forall|y: int, x: int|
            0 <= y < canvas_height && 0 <= x < canvas_width ==> #[trigger] out@[cell(canvas_width as int, y, x)]
                == canvas_alpha(*bitmap, origin_x as int, origin_y as int, y, x),
{
    let cw = canvas_width as usize;
    let ch = canvas_height as usize;
    let bw = bitmap.width as usize;
    let bh = bitmap.height as usize;
    let ghost w = cw as int;
    let ghost h = ch as int;
    let ghost ox = origin_x as int;
    let ghost oy = origin_y as int;
    let ghost bmp = *bitmap;
    let len = cw * ch;
    let plen = bitmap.pixels.len();
    let mut alpha = zeros(len);
    proof {
        assert forall|y: int, x: int| 0 <= y < h && 0 <= x < w implies #[trigger] alpha@[cell(w, y, x)] == 0u8 by {
            lemma_cell_bounds(w, h, y, x);
        }
    }
    let mut row: usize = 0;
    while row < bh
        invariant
            plen == bitmap.pixels@.len(),
            bmp == *bitmap,
            len == cw * ch,
            w == cw,
            h == ch,
            ox == origin_x,
            oy == origin_y,
            bw == bitmap.width,
            bh == bitmap.height,
            cw == canvas_width,
            ch == canvas_height,
            origin_x + bw <= cw,
            origin_y + bh <= ch,
            bw * bh * 4 <= bitmap.pixels@.len(),
            row <= bh,
            alpha@.len() == len,
            forall|y: int, x: int|
                0 <= y < h && 0 <= x < w ==> #[trigger] alpha@[cell(w, y, x)] == if y < oy + row {
                    canvas_alpha(bmp, ox, oy, y, x)
                } else {
                    0u8
                },
        decreases bh - row,
    {
        let mut col: usize = 0;
        while col < bw
            invariant
                plen == bitmap.pixels@.len(),
                bmp == *bitmap,
                len == cw * ch,
                w == cw,
                h == ch,
                ox == origin_x,
                oy == origin_y,
                bw == bitmap.width,
                bh == bitmap.height,
                origin_x + bw <= cw,
                origin_y + bh <= ch,
                bw * bh * 4 <= bitmap.pixels@.len(),
                row < bh,
                col <= bw,
                alpha@.len() == len,
                forall|y: int, x: int|
                    0 <= y < h && 0 <= x < w ==> #[trigger] alpha@[cell(w, y, x)] == if y < oy + row || (y == oy
                        + row && ox <= x < ox + col) {
                        canvas_alpha(bmp, ox, oy, y, x)
                    } else {
                        0u8
                    },
            decreases bw - col,
        {
            proof {
                lemma_cell_bounds(bw as int, bh as int, row as int, col as int);
                lemma_cell_bounds(w, h, oy + row, ox + col);
                assert(cell(bw as int, row as int, col as int) * 4 + 3 < bw * bh * 4) by (nonlinear_arith)
                    requires
                        cell(bw as int, row as int, col as int) < bw * bh,
                ;
            }
            let source_index = (row * bw + col) * 4 + 3;
            let destination_index = (origin_y + row) * cw + origin_x + col;
            let ghost prev = alpha@;
            alpha.set(destination_index, bitmap.pixels[source_index]);
            proof {
                assert forall|y: int, x: int|
                    0 <= y < h && 0 <= x < w implies #[trigger] alpha@[cell(w, y, x)] == if y < oy + row || (y
                    == oy + row && ox <= x < ox + col + 1) {
                    canvas_alpha(bmp, ox, oy, y, x)
                } else {
                    0u8
                } by {
                    lemma_cell_bounds(w, h, y, x);
                    if y != oy + row || x != ox + col {
                        lemma_cell_distinct(w, y, x, oy + row, ox + col);
                        assert(alpha@[cell(w, y, x)] == prev[cell(w, y, x)]);
                    }
                }
            }
            col = col + 1;
        }
        proof {
            assert forall|y: int, x: int|
                0 <= y < h && 0 <= x < w implies #[trigger] alpha@[cell(w, y, x)] == if y < oy + row + 1 {
                canvas_alpha(bmp, ox, oy, y, x)
            } else {
                0u8
            } by {
                if y == oy + row && !(ox <= x < ox + bw) {
                    assert(canvas_alpha(bmp, ox, oy, y, x) == 0);
                }
            }
        }
        row = row + 1;
    }
    proof {
        assert forall|y: int, x: int|
            0 <= y < h && 0 <= x < w implies #[trigger] alpha@[cell(w, y, x)] == canvas_alpha(bmp, ox, oy, y, x) by {
            if y >= oy + bh {
                assert(canvas_alpha(bmp, ox, oy, y, x) == 0);
            }
        }
    }
    alpha
}

/// The alpha of pixel (`x`, `y`) of a mask moved by (`dx`, `dy`): the
/// value that lands there, else 0.
pub open spec fn shifted_alpha(mask: Seq<u8>, w: int, h: int, dx: int, dy: int, y: int, x: int) -> u8 {
    let sx = x - dx;
    let sy = y - dy;
    if 0 <= sx < w && 0 <= sy < h {
        mask[cell(w, sy, sx)]
    } else {
        0
    }
}

/// A mask moved by (`offset_x`, `offset_y`), what leaves the image dropped
/// (see `shifted_alpha`); what lies past `width * height` becomes 0.
pub fn shift_alpha_mask(mask: &[u8], width: u32, height: u32, offset_x: i32, offset_y: i32) -> (out: Vec<u8>)
    requires
        width * height <= mask@.len(),
        width <= i32::MAX,
        height <= i32::MAX,
        width + offset_x <= i32::MAX + 1,
        height + offset_y <= i32::MAX + 1,
    ensures
        out@.len() == mask@.len(),
        forall|y: int, x: int|
            0 <= y < height && 0 <= x < width ==> #[trigger] out@[cell(width as int, y, x)] == shifted_alpha(
                mask@,
                width as int,
                height as int,
                offset_x as int,
                offset_y as int,
                y,
                x,
            ),
        forall|k: int| width * height <= k < mask@.len() ==> #[trigger] out@[k] == 0,
{
    let len = mask.len();
    let w = width as usize;
    let h = height as usize;
    let ghost m = mask@;
    let ghost wi = w as int;
    let ghost hi = h as int;
    let ghost dx = offset_x as int;
    let ghost dy = offset_y as int;
    let mut shifted = zeros(len);
    proof {
        assert forall|y: int, x: int| 0 <= y < hi && 0 <= x < wi implies #[trigger] shifted@[cell(wi, y, x)] == 0u8 by {
            lemma_cell_bounds(wi, hi, y, x);
        }
    }
    let mut row: usize = 0;
    while row < h
        invariant
            m == mask@,
            len == m.len(),
            w * h <= len,
            wi == w,
            hi == h,
            w == width,
            h == height,
            dx == offset_x,
            dy == offset_y,
            width <= i32::MAX,
            height <= i32::MAX,
            width + offset_x <= i32::MAX + 1,
            height + offset_y <= i32::MAX + 1,
            row <= h,
            shifted@.len() == len,
            forall|y: int, x: int|
                0 <= y < hi && 0 <= x < wi ==> #[trigger] shifted@[cell(wi, y, x)] == if y - dy < row {
                    shifted_alpha(m, wi, hi, dx, dy, y, x)
                } else {
                    0u8
                },
            forall|k: int| w * h <= k < len ==> #[trigger] shifted@[k] == 0,
        decreases h - row,
    {
        let mut column: usize = 0;
        while column < w
            invariant
                m == mask@,
                len == m.len(),
                w * h <= len,
                wi == w,
                hi == h,
                w == width,
                h == height,
                dx == offset_x,
                dy == offset_y,
                width <= i32::MAX,
                height <= i32::MAX,
                width + offset_x <= i32::MAX + 1,
                height + offset_y <= i32::MAX + 1,
                row < h,
                column <= w,
                shifted@.len() == len,
                forall|y: int, x: int|
                    0 <= y < hi && 0 <= x < wi ==> #[trigger] shifted@[cell(wi, y, x)] == if y - dy < row || (y
                        - dy == row && x - dx < column) {
                        shifted_alpha(m, wi, hi, dx, dy, y, x)
                    } else {
                        0u8
                    },
                forall|k: int| w * h <= k < len ==> #[trigger] shifted@[k] == 0,
            decreases w - column,
        {
            proof {
                lemma_cell_bounds(wi, hi, row as int, column as int);
            }
            let alpha = mask[row * w + column];
            let destination_x = column as i32 + offset_x;
            let destination_y = row as i32 + offset_y;
            if alpha != 0 && !(destination_x < 0 || destination_y < 0 || destination_x >= width as i32
                || destination_y >= height as i32) {
                let ghost tx = destination_x as int;
                let ghost ty = destination_y as int;
                proof {
                    lemma_cell_bounds(wi, hi, ty, tx);
                }
                let destination_index = destination_y as usize * w + destination_x as usize;
                let ghost prev = shifted@;
                assert(prev[cell(wi, ty, tx)] == 0);
                let old_value = shifted[destination_index];
                let new_value = if old_value >= alpha { old_value } else { alpha };
                shifted.set(destination_index, new_value);
                proof {
                    assert forall|y: int, x: int|
                        0 <= y < hi && 0 <= x < wi implies #[trigger] shifted@[cell(wi, y, x)] == if y - dy
                        < row || (y - dy == row && x - dx < column + 1) {
                        shifted_alpha(m, wi, hi, dx, dy, y, x)
                    } else {
                        0u8
                    } by {
                        lemma_cell_bounds(wi, hi, y, x);
                        if y != ty || x != tx {
                            lemma_cell_distinct(wi, y, x, ty, tx);
                            assert(shifted@[cell(wi, y, x)] == prev[cell(wi, y, x)]);
                        }
                    }
                    assert forall|k: int| w * h <= k < len implies #[trigger] shifted@[k] == 0 by {
                        assert(k != cell(wi, ty, tx));
                    }
                }
            } else {
                proof {
                    assert forall|y: int, x: int|
                        0 <= y < hi && 0 <= x < wi implies #[trigger] shifted@[cell(wi, y, x)] == if y - dy
                        < row || (y - dy == row && x - dx < column + 1) {
                        shifted_alpha(m, wi, hi, dx, dy, y, x)
                    } else {
                        0u8
                    } by {
                        if y - dy == row && x - dx == column {
                            assert(shifted_alpha(m, wi, hi, dx, dy, y, x) == alpha);
                        }
                    }
                }
            }
            column = column + 1;
        }
        row = row + 1;
    }
    proof {
        assert forall|y: int, x: int|
            0 <= y < hi && 0 <= x < wi implies #[trigger] shifted@[cell(wi, y, x)] == shifted_alpha(
            m,
            wi,
            hi,
            dx,
            dy,
            y,
            x,
        ) by {
            if y - dy >= hi {
                assert(shifted_alpha(m, wi, hi, dx, dy, y, x) == 0);
            }
        }
    }
    shifted
}

} // verus!

verus! {

/// Dilating a line never lowers a value: each becomes the largest of a
/// window that holds it.
pub proof fn law_dilation_never_darkens(s: Seq<u8>, r: int)
    requires
        r >= 0,
    ensures
        forall|i: int| 0 <= i < s.len() ==> #[trigger] max_line(s, r)[i] >= s[i],
{
    assert forall|i: int| 0 <= i < s.len() implies #[trigger] max_line(s, r)[i] >= s[i] by {
        let lo = win_lo(i, r);
        let hi = win_hi(i, r, s.len() as int) + 1;
        lemma_range_max(s, lo, hi);
    }
}

proof fn lemma_range_sum_uniform(s: Seq<u8>, c: u8, lo: int, hi: int)
    requires
        0 <= lo <= hi <= s.len(),
        forall|k: int| 0 <= k < s.len() ==> s[k] == c,
    ensures
        range_sum(s, lo, hi) == c * (hi - lo),
    decreases hi - lo,
{
    if hi > lo {
        lemma_range_sum_uniform(s, c, lo, hi - 1);
        assert(s[hi - 1] == c);
        assert(c * (hi - lo) == c * (hi - 1 - lo) + c) by (nonlinear_arith);
    } else {
        assert(c * (hi - lo) == 0) by (nonlinear_arith)
            requires
                hi == lo,
        ;
    }
}

/// Blurring a line of one value leaves it as it is.
pub proof fn law_blur_keeps_uniform_lines(s: Seq<u8>, c: u8, r: int)
    requires
        r >= 0,
        forall|k: int| 0 <= k < s.len() ==> s[k] == c,
    ensures
        blur_line(s, r) == s,
{
    assert forall|i: int| 0 <= i < s.len() implies #[trigger] blur_line(s, r)[i] == s[i] by {
        let lo = win_lo(i, r);
        let hi = win_hi(i, r, s.len() as int);
        lemma_range_sum_uniform(s, c, lo, hi + 1);
        let n = hi - lo + 1;
        assert(n >= 1);
        assert((c * n) / n == c as int) by (nonlinear_arith)
            requires
                n >= 1,
        ;
    }
    assert(blur_line(s, r) =~= s);
}

} // verus!

verus! {

/// A stroke ready to bake: its radius in pixels, and whether its position
/// or blend mode had to be approximated.
#[derive(Debug, Clone, Copy)]
pub struct StrokePlan {
    pub radius: usize,
    pub position_approximated: bool,
    pub blend_mode_approximated: bool,
}

/// A drop shadow ready to bake: how far it reaches, and whether its blend
/// mode had to be approximated.
#[derive(Debug, Clone, Copy)]
pub struct ShadowPlan {
    pub reach: ShadowReach,
    pub blend_mode_approximated: bool,
}

/// Where the baked image lies: the padding around the layer's image, the
/// baked image's size, where the layer's image starts in it, its bounds in
/// the document, and the effects baked, in the order they are drawn.
#[derive(Debug)]
pub struct BakeLayout {
    pub padding: EffectPadding,
    pub width: u32,
    pub height: u32,
    pub origin_x: usize,
    pub origin_y: usize,
    pub bounds: crate::psd::Bounds,
    pub baked: Vec<String>,
}

/// Whether a layer's effects are baked.
#[derive(Debug)]
pub enum BakeStart {
    /// There is no effect to bake.
    Nothing,
    /// The layer is masked or clipped, so nothing is baked.
    Skipped,
    /// The effects are baked into an image laid out so.
    Bake(BakeLayout),
}

/// A warning about a layer's effects.
pub open spec fn effect_warning(code: Seq<char>, message: Seq<char>, name: Seq<char>) -> Seq<crate::export_model::WarningView> {
    seq![crate::export_model::WarningView { code, message, layer_name: Some(name) }]
}

pub open spec fn stroke_radius(stroke: Option<StrokePlan>) -> Option<usize> {
    match stroke {
        Some(s) => Some(s.radius),
        None => None,
    }
}

pub open spec fn shadow_reach(shadow: Option<ShadowPlan>) -> Option<ShadowReach> {
    match shadow {
        Some(s) => Some(s.reach),
        None => None,
    }
}

/// What baking a layer's effects warns about: that a masked or clipped
/// layer is not baked, else each approximation made (stroke position,
/// stroke blend mode, shadow blend mode); nothing without effects.
pub open spec fn bake_warnings(
    name: Seq<char>,
    has_mask: bool,
    has_clip: bool,
    stroke: Option<StrokePlan>,
    shadow: Option<ShadowPlan>,
) -> Seq<crate::export_model::WarningView> {
    if stroke is None && shadow is None {
        seq![]
    } else if has_mask {
        effect_warning(
            "effects-bake-skipped-mask"@,
            "skipped effect baking because masked layers are not baked in phase one"@,
            name,
        )
    } else if has_clip {
        effect_warning(
            "effects-bake-skipped-clipping"@,
            "skipped effect baking because clipped layers are not baked in phase one"@,
            name,
        )
    } else {
        (if stroke matches Some(s) && s.position_approximated {
            effect_warning(
                "effects-bake-stroke-position-approx"@,
                "stroke position was approximated as an outside stroke during PNG baking"@,
                name,
            )
        } else {
            seq![]
        }) + (if stroke matches Some(s) && s.blend_mode_approximated {
            effect_warning(
                "effects-bake-stroke-blend-mode-approx"@,
                "stroke blend mode was approximated as normal during PNG baking"@,
                name,
            )
        } else {
            seq![]
        }) + (if shadow matches Some(s) && s.blend_mode_approximated {
            effect_warning(
                "effects-bake-shadow-blend-mode-approx"@,
                "drop shadow blend mode was approximated as normal during PNG baking"@,
                name,
            )
        } else {
            seq![]
        })
    }
}

/// The effects baked, in the order they are drawn: the shadow, then the
/// stroke.
pub open spec fn baked_names(stroke: Option<StrokePlan>, shadow: Option<ShadowPlan>) -> Seq<Seq<char>> {
    (if shadow is Some {
        seq!["drop_shadow"@]
    } else {
        seq![]
    }) + (if stroke is Some {
        seq!["stroke"@]
    } else {
        seq![]
    })
}

/// Whether the padded image and its bounds fit their integer types.
pub open spec fn bake_fits(
    bitmap_width: u32,
    bitmap_height: u32,
    bounds: crate::psd::Bounds,
    stroke: Option<StrokePlan>,
    shadow: Option<ShadowPlan>,
) -> bool {
    let p = spec_compute_padding(stroke_radius(stroke), shadow_reach(shadow));
    &&& bitmap_width + p.left + p.right <= u32::MAX
    &&& bitmap_height + p.top + p.bottom <= u32::MAX
    &&& bounds.x - p.left >= i32::MIN
    &&& bounds.y - p.top >= i32::MIN
}

/// The shadow's reach stays within `i32` on every side.
pub open spec fn shadow_fits(shadow: Option<ShadowPlan>) -> bool {
    shadow matches Some(sh) ==> {
        let blur = sh.reach.blur_radius as i32;
        &&& i32::MIN <= blur - sh.reach.offset_x <= i32::MAX
        &&& i32::MIN <= blur + sh.reach.offset_x <= i32::MAX
        &&& i32::MIN <= blur - sh.reach.offset_y <= i32::MAX
        &&& i32::MIN <= blur + sh.reach.offset_y <= i32::MAX
    }
}

proof fn lemma_padding_nonnegative(stroke: Option<usize>, shadow: Option<ShadowReach>)
    ensures
        spec_compute_padding(stroke, shadow).left >= 0,
        spec_compute_padding(stroke, shadow).top >= 0,
        spec_compute_padding(stroke, shadow).right >= 0,
        spec_compute_padding(stroke, shadow).bottom >= 0,
{
}

fn push_effect_warning(warnings: &mut Vec<ExportWarning>, code: &str, message: &str, name: &str)
    ensures
        export_warning_views(final(warnings)@) == export_warning_views(old(warnings)@) + effect_warning(
            code@,
            message@,
            name@,
        ),
{
    let ghost w0 = export_warning_views(warnings@);
    warnings.push(ExportWarning::for_layer(code, message, name));
    assert(export_warning_views(warnings@) =~= w0 + effect_warning(code@, message@, name@));
}

/// Decides whether a layer's effects are baked and, when they are, lays
/// out the baked image (see `bake_warnings`, `spec_compute_padding` and
/// `baked_names`): it is the layer's image padded on each side, and its
/// bounds move up and left by the padding.
pub fn plan_effect_bake(
    layer_name: &str,
    bitmap_width: u32,
    bitmap_height: u32,
    bounds: &crate::psd::Bounds,
    has_mask: bool,
    has_clip: bool,
    stroke: Option<StrokePlan>,
    shadow: Option<ShadowPlan>,
    warnings: &mut Vec<ExportWarning>,
) -> (r: BakeStart)
    requires
        shadow_fits(shadow),
        bake_fits(bitmap_width, bitmap_height, *bounds, stroke, shadow),
    ensures
        export_warning_views(final(warnings)@) == export_warning_views(old(warnings)@) + bake_warnings(
            layer_name@,
            has_mask,
            has_clip,
            stroke,
            shadow,
        ),
        (stroke is None && shadow is None) ==> r is Nothing,
        (stroke is Some || shadow is Some) && (has_mask || has_clip) ==> r is Skipped,
        (stroke is Some || shadow is Some) && !has_mask && !has_clip ==> (r matches BakeStart::Bake(l) && {
            let p = spec_compute_padding(stroke_radius(stroke), shadow_reach(shadow));
            &&& l.padding == p
            &&& l.width == bitmap_width + p.left + p.right
            &&& l.height == bitmap_height + p.top + p.bottom
            &&& l.origin_x == p.left
            &&& l.origin_y == p.top
            &&& l.bounds == (crate::psd::Bounds {
                x: (bounds.x - p.left) as i32,
                y: (bounds.y - p.top) as i32,
                width: l.width,
                height: l.height,
            })
            &&& crate::hierarchy::str_views(l.baked@) == baked_names(stroke, shadow)
        }),
{
    let ghost w0 = export_warning_views(warnings@);
    if stroke.is_none() && shadow.is_none() {
        assert(export_warning_views(warnings@) =~= w0 + Seq::<crate::export_model::WarningView>::empty());
        return BakeStart::Nothing;
    }
    if has_mask {
        push_effect_warning(
            warnings,
            "effects-bake-skipped-mask",
            "skipped effect baking because masked layers are not baked in phase one",
            layer_name,
        );
        return BakeStart::Skipped;
    }
    if has_clip {
        push_effect_warning(
            warnings,
            "effects-bake-skipped-clipping",
            "skipped effect baking because clipped layers are not baked in phase one",
            layer_name,
        );
        return BakeStart::Skipped;
    }
    let ghost wa = export_warning_views(warnings@);
    let mut stroke_radius_value: Option<usize> = None;
    match stroke {
        Some(s) => {
            if s.position_approximated {
                push_effect_warning(
                    warnings,
                    "effects-bake-stroke-position-approx",
                    "stroke position was approximated as an outside stroke during PNG baking",
                    layer_name,
                );
            }
            let ghost wb = export_warning_views(warnings@);
            if s.blend_mode_approximated {
                push_effect_warning(
                    warnings,
                    "effects-bake-stroke-blend-mode-approx",
                    "stroke blend mode was approximated as normal during PNG baking",
                    layer_name,
                );
            }
            stroke_radius_value = Some(s.radius);
        },
        None => {},
    }
    let ghost wc = export_warning_views(warnings@);
    let mut shadow_reach_value: Option<ShadowReach> = None;
    match shadow {
        Some(s) => {
            if s.blend_mode_approximated {
                push_effect_warning(
                    warnings,
                    "effects-bake-shadow-blend-mode-approx",
                    "drop shadow blend mode was approximated as normal during PNG baking",
                    layer_name,
                );
            }
            shadow_reach_value = Some(s.reach);
        },
        None => {},
    }
    assert(export_warning_views(warnings@) =~= w0 + bake_warnings(layer_name@, has_mask, has_clip, stroke, shadow));
    let padding = compute_padding(stroke_radius_value, shadow_reach_value);
    proof {
        lemma_padding_nonnegative(stroke_radius_value, shadow_reach_value);
    }
    let width = bitmap_width + padding.left as u32 + padding.right as u32;
    let height = bitmap_height + padding.top as u32 + padding.bottom as u32;
    let mut baked: Vec<String> = Vec::new();
    if shadow.is_some() {
        baked.push(crate::text::owned("drop_shadow"));
    }
    if stroke.is_some() {
        baked.push(crate::text::owned("stroke"));
    }
    assert(crate::hierarchy::str_views(baked@) =~= baked_names(stroke, shadow));
    BakeStart::Bake(
        BakeLayout {
            padding,
            width,
            height,
            origin_x: padding.left as usize,
            origin_y: padding.top as usize,
            bounds: crate::psd::Bounds { x: bounds.x - padding.left, y: bounds.y - padding.top, width, height },
            baked,
        },
    )
}

/// The outer stroke's alpha: how far dilation raised each pixel, over the
/// pixels both masks have.
pub fn outer_stroke_alpha(dilated: &[u8], original: &[u8]) -> (out: Vec<u8>)
    ensures
        out@.len() == if dilated@.len() <= original@.len() {
            dilated@.len()
        } else {
            original@.len()
        },
        forall|i: int|
            0 <= i < out@.len() ==> #[trigger] out@[i] == if dilated@[i] >= original@[i] {
                (dilated@[i] - original@[i]) as u8
            } else {
                0
            },
{
    let n = if dilated.len() <= original.len() {
        dilated.len()
    } else {
        original.len()
    };
    let mut out: Vec<u8> = Vec::new();
    let mut i: usize = 0;
    while i < n
        invariant
            n <= dilated@.len(),
            n <= original@.len(),
            i <= n,
            out@.len() == i,
            forall|k: int|
                0 <= k < i ==> #[trigger] out@[k] == if dilated@[k] >= original@[k] {
                    (dilated@[k] - original@[k]) as u8
                } else {
                    0
                },
        decreases n - i,
    {
        let v = if dilated[i] >= original[i] {
            dilated[i] - original[i]
        } else {
            0
        };
        out.push(v);
        i = i + 1;
    }
    out
}

} // verus!
