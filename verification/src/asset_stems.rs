use vstd::prelude::*;

use crate::hierarchy::{lemma_trees_of, tree_of, trees_of, BuildNode, NodeView};
use crate::text::{
    chars_of, decimal, eq_ignore_ascii_case, owned, push_decimal, push_str, str_eq_ignore_ascii_case,
    string_of_chars, to_unicode_lowercase, unicode_lowercase,
};

verus! {

/// A control character (`char::is_control`): U+0000 to U+001F and U+007F
/// to U+009F.
pub open spec fn is_control_char(c: char) -> bool {
    c <= '\u{1F}' || ('\u{7F}' <= c && c <= '\u{9F}')
}

/// A character that file names cannot hold on Windows.
pub open spec fn is_forbidden_file_char(c: char) -> bool {
    c == '<' || c == '>' || c == ':' || c == '"' || c == '/' || c == '\\' || c == '|' || c == '?' || c == '*'
}

/// A character of a file stem: control and forbidden characters become `_`.
pub open spec fn stem_char(c: char) -> char {
    if is_control_char(c) || is_forbidden_file_char(c) {
        '_'
    } else {
        c
    }
}

/// Trimmed from both ends of a file stem.
pub open spec fn is_stem_edge(c: char) -> bool {
    c == ' ' || c == '.'
}

pub open spec fn trim_stem_start(s: Seq<char>) -> Seq<char>
    decreases s.len(),
{
    if s.len() > 0 && is_stem_edge(s[0]) {
        trim_stem_start(s.drop_first())
    } else {
        s
    }
}

pub open spec fn trim_stem_end(s: Seq<char>) -> Seq<char>
    decreases s.len(),
{
    if s.len() > 0 && is_stem_edge(s.last()) {
        trim_stem_end(s.drop_last())
    } else {
        s
    }
}

/// A device name that Windows reserves, in any ASCII case.
pub open spec fn spec_is_windows_reserved_name(s: Seq<char>) -> bool {
    eq_ignore_ascii_case(s, "CON"@) || eq_ignore_ascii_case(s, "PRN"@) || eq_ignore_ascii_case(s, "AUX"@)
        || eq_ignore_ascii_case(s, "NUL"@) || exists|d: char|
        '1' <= d <= '9' && (eq_ignore_ascii_case(s, "COM"@.push(d)) || eq_ignore_ascii_case(
            s,
            "LPT"@.push(d),
        ))
}

/// A file stem for a layer name: control and forbidden characters become
/// `_`, spaces and dots are trimmed from both ends, an empty result becomes
/// `layer`, and a reserved device name gets a trailing `_`.
pub open spec fn spec_sanitize_file_stem(name: Seq<char>) -> Seq<char> {
    let t = trim_stem_end(trim_stem_start(name.map_values(|c: char| stem_char(c))));
    let s = if t.len() == 0 { "layer"@ } else { t };
    if spec_is_windows_reserved_name(s) {
        s.push('_')
    } else {
        s
    }
}

/// Whether a name is one that Windows reserves for a device.
pub fn is_windows_reserved_name(name: &str) -> (r: bool)
    ensures
        r == spec_is_windows_reserved_name(name@),
{
    if str_eq_ignore_ascii_case(name, "CON") || str_eq_ignore_ascii_case(name, "PRN") || str_eq_ignore_ascii_case(
        name,
        "AUX",
    ) || str_eq_ignore_ascii_case(name, "NUL") {
        return true;
    }
    let cs = chars_of(name);
    if cs.len() != 4 {
        proof {
            assert forall|d: char| '1' <= d <= '9' implies !(eq_ignore_ascii_case(name@, "COM"@.push(d))
                || eq_ignore_ascii_case(name@, "LPT"@.push(d))) by {
                reveal_strlit("COM");
                reveal_strlit("LPT");
                assert(crate::text::ascii_lowercase(name@).len() == name@.len());
                assert(crate::text::ascii_lowercase("COM"@.push(d)).len() == 4);
                assert(crate::text::ascii_lowercase("LPT"@.push(d)).len() == 4);
            }
        }
        return false;
    }
    let d = cs[3];
    if !('1' <= d && d <= '9') {
        proof {
            assert forall|e: char| '1' <= e <= '9' implies !(eq_ignore_ascii_case(name@, "COM"@.push(e))
                || eq_ignore_ascii_case(name@, "LPT"@.push(e))) by {
                reveal_strlit("COM");
                reveal_strlit("LPT");
                assert(crate::text::ascii_lowercase(name@)[3] == crate::text::ascii_lower(d));
                assert(crate::text::ascii_lowercase("COM"@.push(e))[3] == e);
                assert(crate::text::ascii_lowercase("LPT"@.push(e))[3] == e);
            }
        }
        return false;
    }
    let mut com = owned("COM");
    crate::text::push_char(&mut com, d);
    let mut lpt = owned("LPT");
    crate::text::push_char(&mut lpt, d);
    let r = str_eq_ignore_ascii_case(name, com.as_str()) || str_eq_ignore_ascii_case(name, lpt.as_str());
    proof {
        if !r {
            assert forall|e: char| '1' <= e <= '9' implies !(eq_ignore_ascii_case(name@, "COM"@.push(e))
                || eq_ignore_ascii_case(name@, "LPT"@.push(e))) by {
                reveal_strlit("COM");
                reveal_strlit("LPT");
                if e != d {
                    assert(crate::text::ascii_lowercase(name@)[3] == crate::text::ascii_lower(d));
                    assert(crate::text::ascii_lowercase("COM"@.push(e))[3] == e);
                    assert(crate::text::ascii_lowercase("LPT"@.push(e))[3] == e);
                }
            }
        }
    }
    r
}

/// The file stem of a layer name (see `spec_sanitize_file_stem`).
pub fn sanitize_file_stem(name: &str) -> (r: String)
    ensures
        r@ == spec_sanitize_file_stem(name@),
{
    let cs = chars_of(name);
    let mut mapped: Vec<char> = Vec::new();
    let mut i: usize = 0;
    while i < cs.len()
        invariant
            cs@ == name@,
            i <= cs@.len(),
            mapped@ == name@.subrange(0, i as int).map_values(|c: char| stem_char(c)),
        decreases cs.len() - i,
    {
        let c = cs[i];
        let is_control = c <= '\u{1F}' || ('\u{7F}' <= c && c <= '\u{9F}');
        let forbidden = c == '<' || c == '>' || c == ':' || c == '"' || c == '/' || c == '\\' || c == '|' || c
            == '?' || c == '*';
        if is_control || forbidden {
            mapped.push('_');
        } else {
            mapped.push(c);
        }
        i = i + 1;
        assert(mapped@ =~= name@.subrange(0, i as int).map_values(|c: char| stem_char(c)));
    }
    let ghost m = name@.map_values(|c: char| stem_char(c));
    assert(name@.subrange(0, cs@.len() as int) =~= name@);
    let mut lo: usize = 0;
    assert(m.subrange(0, m.len() as int) =~= m);
    while lo < mapped.len() && (mapped[lo] == ' ' || mapped[lo] == '.')
        invariant
            mapped@ == m,
            lo <= m.len(),
            trim_stem_start(m) == trim_stem_start(m.subrange(lo as int, m.len() as int)),
        decreases mapped.len() - lo,
    {
        assert(m.subrange(lo as int, m.len() as int).drop_first() =~= m.subrange(lo + 1, m.len() as int));
        lo = lo + 1;
    }
    let ghost mid = m.subrange(lo as int, m.len() as int);
    assert(trim_stem_start(mid) == mid);
    let mut hi: usize = mapped.len();
    while hi > lo && (mapped[hi - 1] == ' ' || mapped[hi - 1] == '.')
        invariant
            mapped@ == m,
            lo <= hi <= m.len(),
            mid == m.subrange(lo as int, m.len() as int),
            trim_stem_end(mid) == trim_stem_end(m.subrange(lo as int, hi as int)),
        decreases hi,
    {
        assert(m.subrange(lo as int, hi as int).drop_last() =~= m.subrange(lo as int, hi - 1));
        hi = hi - 1;
    }
    let ghost t = m.subrange(lo as int, hi as int);
    assert(trim_stem_end(t) == t);
    let mut kept: Vec<char> = Vec::new();
    let mut k: usize = lo;
    while k < hi
        invariant
            mapped@ == m,
            lo <= k <= hi <= m.len(),
            kept@ == m.subrange(lo as int, k as int),
        decreases hi - k,
    {
        kept.push(mapped[k]);
        k = k + 1;
        assert(kept@ =~= m.subrange(lo as int, k as int));
    }
    let trimmed = string_of_chars(&kept);
    let s = if kept.len() == 0 {
        owned("layer")
    } else {
        trimmed
    };
    if is_windows_reserved_name(s.as_str()) {
        let mut r = s;
        crate::text::push_char(&mut r, '_');
        r
    } else {
        s
    }
}

/// How many times a collision key has been used so far.
pub struct StemCount {
    pub key: String,
    pub count: usize,
}

/// The views of stem counts.
pub open spec fn used_views(s: Seq<StemCount>) -> Seq<(Seq<char>, usize)> {
    s.map_values(|u: StemCount| (u.key@, u.count))
}

/// Where `key` stands among the counts (its last place), or -1.
pub open spec fn key_index(u: Seq<(Seq<char>, usize)>, key: Seq<char>) -> int
    decreases u.len(),
{
    if u.len() == 0 {
        -1
    } else if u.last().0 == key {
        u.len() - 1
    } else {
        key_index(u.drop_last(), key)
    }
}

/// The count of `key`, 0 when unused.
pub open spec fn used_count(u: Seq<(Seq<char>, usize)>, key: Seq<char>) -> usize {
    if key_index(u, key) >= 0 {
        u[key_index(u, key)].1
    } else {
        0
    }
}

/// One more, staying at `usize::MAX` (which a count of layers never reaches).
pub open spec fn count_up(c: usize) -> usize {
    if c < usize::MAX {
        (c + 1) as usize
    } else {
        c
    }
}

/// The counts with `key`'s count raised by one, a new key counting 1.
pub open spec fn bump(u: Seq<(Seq<char>, usize)>, key: Seq<char>) -> Seq<(Seq<char>, usize)> {
    if key_index(u, key) >= 0 {
        u.update(key_index(u, key), (key, count_up(u[key_index(u, key)].1)))
    } else {
        u.push((key, 1usize))
    }
}

proof fn lemma_key_index_bounds(u: Seq<(Seq<char>, usize)>, key: Seq<char>)
    ensures
        -1 <= key_index(u, key) < u.len(),
        key_index(u, key) >= 0 ==> u[key_index(u, key)].0 == key,
    decreases u.len(),
{
    if u.len() > 0 && u.last().0 != key {
        lemma_key_index_bounds(u.drop_last(), key);
    }
}

/// The stem given to the next layer named `name`, and the counts
/// afterwards: its sanitized name, with ` (n)` added when `n` layers before
/// it had the same stem up to letter case.
pub open spec fn next_stem(name: Seq<char>, u: Seq<(Seq<char>, usize)>) -> (Seq<char>, Seq<(Seq<char>, usize)>) {
    let sanitized = spec_sanitize_file_stem(name);
    let key = unicode_lowercase(sanitized);
    let n = count_up(used_count(u, key));
    (
        if n == 1 {
            sanitized
        } else {
            sanitized + " ("@ + decimal(n as nat) + ")"@
        },
        bump(u, key),
    )
}

/// Looks `key` up and raises its count (see `bump`), giving the new count.
fn bump_count(used: &mut Vec<StemCount>, key: &str) -> (n: usize)
    ensures
        n == count_up(used_count(used_views(old(used)@), key@)),
        used_views(final(used)@) == bump(used_views(old(used)@), key@),
{
    let ghost u0 = used_views(used@);
    proof {
        lemma_key_index_bounds(u0, key@);
    }
    let mut i: usize = used.len();
    assert(u0.subrange(0, u0.len() as int) =~= u0);
    while i > 0
        invariant
            i <= used@.len(),
            u0 == used_views(old(used)@),
            used_views(used@) == u0,
            key_index(u0, key@) == key_index(u0.subrange(0, i as int), key@),
        decreases i,
    {
        let j = i - 1;
        let ghost pre = u0.subrange(0, i as int);
        assert(pre.drop_last() =~= u0.subrange(0, j as int));
        assert(pre.last() == u0[j as int]);
        assert(u0[j as int] == (used@[j as int].key@, used@[j as int].count));
        if crate::photoshop::str_eq(used[j].key.as_str(), key) {
            let c = used[j].count;
            let n = if c < usize::MAX { c + 1 } else { c };
            let k = used[j].key.clone();
            used.set(j, StemCount { key: k, count: n });
            proof {
                assert(key_index(u0, key@) == j);
                assert(used_views(used@) =~= u0.update(j as int, (key@, n)));
            }
            return n;
        }
        i = j;
    }
    assert(u0.subrange(0, 0) =~= Seq::<(Seq<char>, usize)>::empty());
    used.push(StemCount { key: owned(key), count: 1 });
    assert(used_views(used@) =~= u0.push((key@, 1usize)));
    1
}

/// The file stem of the next layer named `name` (see `next_stem`).
pub fn next_asset_file_stem(name: &str, used: &mut Vec<StemCount>) -> (r: String)
    ensures
        r@ == next_stem(name@, used_views(old(used)@)).0,
        used_views(final(used)@) == next_stem(name@, used_views(old(used)@)).1,
{
    let sanitized = sanitize_file_stem(name);
    let key = to_unicode_lowercase(sanitized.as_str());
    let n = bump_count(used, key.as_str());
    if n == 1 {
        sanitized
    } else {
        let mut s = sanitized;
        push_str(&mut s, " (");
        push_decimal(&mut s, n as u64);
        push_str(&mut s, ")");
        s
    }
}

/// File stems for the siblings `ns[..k]` and their descendants, a node
/// before its children, with the counts `u` so far; gives the nodes and the
/// counts afterwards.
pub open spec fn stems_seq(ns: Seq<NodeView>, k: int, u: Seq<(Seq<char>, usize)>) -> (Seq<NodeView>, Seq<(Seq<char>, usize)>)
    decreases ns, k,
{
    if k <= 0 || k > ns.len() {
        (seq![], u)
    } else {
        let (front, u1) = stems_seq(ns, k - 1, u);
        let n = ns[k - 1];
        let (stem, u2) = next_stem(n.name, u1);
        let (kids, u3) = stems_seq(n.children, n.children.len() as int, u2);
        (front.push(NodeView { asset_file_stem: stem, children: kids, ..n }), u3)
    }
}

/// Gives every node a file stem for its exported image (see `stems_seq`): a
/// name seen again, in any letter case, gets the number of times it was seen.
pub fn assign_asset_file_stems(nodes: &mut Vec<BuildNode>, used: &mut Vec<StemCount>)
    ensures
        trees_of(final(nodes)@) == stems_seq(trees_of(old(nodes)@), old(nodes)@.len() as int, used_views(old(used)@)).0,
        used_views(final(used)@) == stems_seq(trees_of(old(nodes)@), old(nodes)@.len() as int, used_views(old(used)@)).1,
    decreases *old(nodes),
{
    let ghost orig = nodes@;
    let ghost tv = trees_of(orig);
    let ghost u0 = used_views(used@);
    let count = nodes.len();
    proof {
        lemma_trees_of(orig);
        lemma_trees_of(nodes@);
        assert(trees_of(nodes@).subrange(0, 0) =~= Seq::<NodeView>::empty());
    }
    let mut i: usize = 0;
    while i < count
        invariant
            count == orig.len(),
            orig == old(nodes)@,
            tv == trees_of(orig),
            tv.len() == orig.len(),
            forall|j: int| 0 <= j < orig.len() ==> #[trigger] tv[j] == tree_of(orig[j]),
            nodes@.len() == count,
            i <= count,
            forall|k: int| i <= k < count ==> #[trigger] nodes@[k] == orig[k],
            stems_seq(tv, i as int, u0) == (trees_of(nodes@).subrange(0, i as int), used_views(used@)),
        decreases count - i,
    {
        let ghost before = nodes@;
        proof {
            lemma_trees_of(before);
        }
        let stem = next_asset_file_stem(nodes[i].name.as_str(), used);
        nodes[i].asset_file_stem = stem;
        assert(nodes@[i as int].children == orig[i as int].children);
        assert(decreases_to!(*old(nodes) => orig));
        assert(decreases_to!(orig => orig[i as int]));
        assert(decreases_to!(orig[i as int] => orig[i as int].children));
        assign_asset_file_stems(&mut nodes[i].children, used);
        proof {
            lemma_trees_of(orig[i as int].children@);
            lemma_trees_of(nodes@);
            assert(forall|k: int| 0 <= k < i ==> #[trigger] nodes@[k] == before[k]);
            assert(trees_of(nodes@).subrange(0, i + 1) =~= trees_of(before).subrange(0, i as int).push(
                tree_of(nodes@[i as int]),
            ));
        }
        i = i + 1;
    }
    proof {
        lemma_trees_of(nodes@);
        assert(trees_of(nodes@).subrange(0, count as int) =~= trees_of(nodes@));
    }
}

} // verus!

verus! {

proof fn lemma_trim_stem_start(s: Seq<char>)
    ensures
        trim_stem_start(s).len() <= s.len(),
        trim_stem_start(s) == s.subrange(s.len() - trim_stem_start(s).len(), s.len() as int),
        trim_stem_start(s).len() > 0 ==> !is_stem_edge(trim_stem_start(s)[0]),
    decreases s.len(),
{
    if s.len() > 0 && is_stem_edge(s[0]) {
        lemma_trim_stem_start(s.drop_first());
        let r = trim_stem_start(s.drop_first());
        assert(s.drop_first().subrange(s.drop_first().len() - r.len(), s.drop_first().len() as int) =~= s.subrange(
            s.len() - r.len(),
            s.len() as int,
        ));
    } else {
        assert(s.subrange(0, s.len() as int) =~= s);
    }
}

proof fn lemma_trim_stem_end(s: Seq<char>)
    ensures
        trim_stem_end(s).len() <= s.len(),
        trim_stem_end(s) == s.subrange(0, trim_stem_end(s).len() as int),
        trim_stem_end(s).len() > 0 ==> !is_stem_edge(trim_stem_end(s).last()),
    decreases s.len(),
{
    if s.len() > 0 && is_stem_edge(s.last()) {
        lemma_trim_stem_end(s.drop_last());
        let r = trim_stem_end(s.drop_last());
        assert(s.drop_last().subrange(0, r.len() as int) =~= s.subrange(0, r.len() as int));
    } else {
        assert(s.subrange(0, s.len() as int) =~= s);
    }
}

/// A file stem is never empty, holds no control character and no character
/// that Windows forbids in file names, does not start with a space or a
/// dot, does not end with a space or a dot, and is never a device name that
/// Windows reserves.
pub proof fn law_file_stems_are_safe(name: Seq<char>)
    ensures
        spec_sanitize_file_stem(name).len() > 0,
        forall|i: int|
            0 <= i < spec_sanitize_file_stem(name).len() ==> !is_control_char(
                #[trigger] spec_sanitize_file_stem(name)[i],
            ) && !is_forbidden_file_char(spec_sanitize_file_stem(name)[i]),
        !is_stem_edge(spec_sanitize_file_stem(name)[0]),
        !is_stem_edge(spec_sanitize_file_stem(name).last()),
        !spec_is_windows_reserved_name(spec_sanitize_file_stem(name)),
{
    let m = name.map_values(|c: char| stem_char(c));
    let a = trim_stem_start(m);
    let t = trim_stem_end(a);
    lemma_trim_stem_start(m);
    lemma_trim_stem_end(a);
    reveal_strlit("layer");
    let s = if t.len() == 0 { "layer"@ } else { t };
    assert forall|i: int| 0 <= i < s.len() implies !is_control_char(#[trigger] s[i]) && !is_forbidden_file_char(
        s[i],
    ) by {
        if t.len() > 0 {
            let j = m.len() - a.len() + i;
            assert(t[i] == a[i]);
            assert(a[i] == m[j]);
            assert(m[j] == stem_char(name[j]));
        }
    }
    if t.len() > 0 {
        assert(t[0] == a[0]);
    } else {
        assert(s.last() == 'r');
    }
    let f = spec_sanitize_file_stem(name);
    assert(f == if spec_is_windows_reserved_name(s) { s.push('_') } else { s });
    if spec_is_windows_reserved_name(s) {
        assert(f[0] == s[0]);
        assert(f.last() == '_');
        assert forall|i: int| 0 <= i < f.len() implies !is_control_char(#[trigger] f[i]) && !is_forbidden_file_char(
            f[i],
        ) by {
            if i < s.len() {
                assert(f[i] == s[i]);
            }
        }
        reveal_strlit("CON");
        reveal_strlit("PRN");
        reveal_strlit("AUX");
        reveal_strlit("NUL");
        reveal_strlit("COM");
        reveal_strlit("LPT");
        assert(crate::text::ascii_lowercase(s).len() == s.len());
        assert(s.len() == 3 || s.len() == 4) by {
            if !(s.len() == 3 || s.len() == 4) {
                assert(crate::text::ascii_lowercase("CON"@).len() == 3);
                assert forall|d: char| '1' <= d <= '9' implies !(eq_ignore_ascii_case(s, "COM"@.push(d))
                    || eq_ignore_ascii_case(s, "LPT"@.push(d))) by {
                    assert(crate::text::ascii_lowercase("COM"@.push(d)).len() == 4);
                    assert(crate::text::ascii_lowercase("LPT"@.push(d)).len() == 4);
                }
            }
        }
        assert(crate::text::ascii_lowercase(f).len() == f.len());
        assert(crate::text::ascii_lowercase(f)[f.len() - 1] == '_');
        assert(!eq_ignore_ascii_case(f, "CON"@) && !eq_ignore_ascii_case(f, "PRN"@) && !eq_ignore_ascii_case(
            f,
            "AUX"@,
        ) && !eq_ignore_ascii_case(f, "NUL"@)) by {
            assert(crate::text::ascii_lowercase("CON"@).len() == 3);
            assert(crate::text::ascii_lowercase("PRN"@).len() == 3);
            assert(crate::text::ascii_lowercase("AUX"@).len() == 3);
            assert(crate::text::ascii_lowercase("NUL"@).len() == 3);
        }
        assert forall|d: char| '1' <= d <= '9' implies !(eq_ignore_ascii_case(f, "COM"@.push(d))
            || eq_ignore_ascii_case(f, "LPT"@.push(d))) by {
            let c = crate::text::ascii_lowercase("COM"@.push(d));
            let l = crate::text::ascii_lowercase("LPT"@.push(d));
            assert(c.len() == 4 && l.len() == 4);
            if f.len() == 4 {
                assert(c[3] == d);
                assert(l[3] == d);
            }
        }
    }
}

/// Sanitizing a file stem again leaves it as it is.
pub proof fn law_file_stem_is_stable(name: Seq<char>)
    ensures
        spec_sanitize_file_stem(spec_sanitize_file_stem(name)) == spec_sanitize_file_stem(name),
{
    law_file_stems_are_safe(name);
    let f = spec_sanitize_file_stem(name);
    let m = f.map_values(|c: char| stem_char(c));
    assert(m =~= f);
    assert(trim_stem_start(f) == f);
    assert(trim_stem_end(f) == f);
}

/// An ASCII digit.
pub open spec fn is_digit_char(c: char) -> bool {
    '0' <= c && c <= '9'
}

/// `p` followed by ` (`, `d` and `)`.
pub open spec fn with_number(p: Seq<char>, d: Seq<char>) -> Seq<char> {
    p + " ("@ + d + ")"@
}

/// Whether `s` ends in ` (` and one or more digits and `)`.
pub open spec fn has_number_suffix(s: Seq<char>) -> bool {
    exists|p: Seq<char>, d: Seq<char>|
        #![trigger with_number(p, d)]
        d.len() > 0 && (forall|i: int| 0 <= i < d.len() ==> is_digit_char(#[trigger] d[i])) && s == with_number(p, d)
}

/// The collision key of a layer name: its file stem in small letters.
pub open spec fn stem_key(name: Seq<char>) -> Seq<char> {
    unicode_lowercase(spec_sanitize_file_stem(name))
}

/// How many of `names` have the collision key `key`.
pub open spec fn key_uses(names: Seq<Seq<char>>, key: Seq<char>) -> nat
    decreases names.len(),
{
    if names.len() == 0 {
        0
    } else {
        key_uses(names.drop_last(), key) + if stem_key(names.last()) == key { 1nat } else { 0nat }
    }
}

/// A stem numbered `n`: the stem itself for 1, else with ` (n)` added.
pub open spec fn numbered(s: Seq<char>, n: nat) -> Seq<char> {
    if n == 1 {
        s
    } else {
        with_number(s, decimal(n))
    }
}

/// The stems that `next_asset_file_stem` gives to `names` in turn, from no
/// counts, and the counts afterwards.
pub open spec fn stem_run(names: Seq<Seq<char>>) -> (Seq<Seq<char>>, Seq<(Seq<char>, usize)>)
    decreases names.len(),
{
    if names.len() == 0 {
        (seq![], seq![])
    } else {
        let (stems, u) = stem_run(names.drop_last());
        let (s, u2) = next_stem(names.last(), u);
        (stems.push(s), u2)
    }
}

proof fn lemma_decimal_digits(n: nat)
    ensures
        decimal(n).len() > 0,
        n >= 10 ==> decimal(n).len() >= 2,
        forall|i: int| 0 <= i < decimal(n).len() ==> is_digit_char(#[trigger] decimal(n)[i]),
    decreases n,
{
    if n >= 10 {
        lemma_decimal_digits(n / 10);
        let d = decimal(n / 10);
        assert forall|i: int| 0 <= i < decimal(n).len() implies is_digit_char(#[trigger] decimal(n)[i]) by {
            if i < d.len() {
                assert(decimal(n)[i] == d[i]);
            }
        }
    }
}

proof fn lemma_digit_char_injective(a: nat, b: nat)
    requires
        a < 10,
        b < 10,
        crate::text::digit_char(a) == crate::text::digit_char(b),
    ensures
        a == b,
{
}

proof fn lemma_decimal_injective(a: nat, b: nat)
    requires
        decimal(a) == decimal(b),
    ensures
        a == b,
    decreases a,
{
    lemma_decimal_digits(a);
    lemma_decimal_digits(b);
    if a >= 10 && b >= 10 {
        assert(decimal(a).drop_last() =~= decimal(a / 10));
        assert(decimal(b).drop_last() =~= decimal(b / 10));
        lemma_decimal_injective(a / 10, b / 10);
        assert(decimal(a) == decimal(a / 10).push(crate::text::digit_char(a % 10)));
        assert(decimal(b) == decimal(b / 10).push(crate::text::digit_char(b % 10)));
        assert(decimal(a).last() == crate::text::digit_char(a % 10));
        assert(decimal(b).last() == crate::text::digit_char(b % 10));
        lemma_digit_char_injective(a % 10, b % 10);
    } else if a < 10 && b < 10 {
        assert(decimal(a) == seq![crate::text::digit_char(a)]);
        assert(decimal(b) == seq![crate::text::digit_char(b)]);
        let ca = crate::text::digit_char(a);
        let cb = crate::text::digit_char(b);
        assert(seq![ca][0] == ca);
        assert(seq![cb][0] == cb);
        assert(decimal(a)[0] == decimal(b)[0]);
        lemma_digit_char_injective(a, b);
    }
}

proof fn lemma_with_number_split(p1: Seq<char>, d1: Seq<char>, p2: Seq<char>, d2: Seq<char>)
    requires
        forall|i: int| 0 <= i < d1.len() ==> is_digit_char(#[trigger] d1[i]),
        forall|i: int| 0 <= i < d2.len() ==> is_digit_char(#[trigger] d2[i]),
        with_number(p1, d1) == with_number(p2, d2),
    ensures
        p1 == p2,
        d1 == d2,
{
    reveal_strlit(" (");
    reveal_strlit(")");
    let s = with_number(p1, d1);
    let l = s.len() as int;
    let a1 = p1.len() as int;
    let a2 = p2.len() as int;
    assert(l == a1 + d1.len() + 3);
    assert(l == a2 + d2.len() + 3);
    assert(s[a1 + 1] == '(');
    assert(with_number(p2, d2)[a2 + 1] == '(');
    if d1.len() < d2.len() {
        let k = a1 + 1;
        assert(with_number(p2, d2)[k] == d2[k - a2 - 2]);
        assert(is_digit_char(d2[k - a2 - 2]));
    } else if d2.len() < d1.len() {
        let k = a2 + 1;
        assert(s[k] == d1[k - a1 - 2]);
        assert(is_digit_char(d1[k - a1 - 2]));
    } else {
        assert(p1 =~= s.subrange(0, a1));
        assert(p2 =~= with_number(p2, d2).subrange(0, a2));
        assert(d1 =~= s.subrange(a1 + 2, l - 1));
        assert(d2 =~= with_number(p2, d2).subrange(a2 + 2, l - 1));
    }
}

proof fn lemma_key_index_same_keys(u: Seq<(Seq<char>, usize)>, v: Seq<(Seq<char>, usize)>, key: Seq<char>)
    requires
        u.len() == v.len(),
        forall|i: int| 0 <= i < u.len() ==> #[trigger] u[i].0 == v[i].0,
    ensures
        key_index(u, key) == key_index(v, key),
    decreases u.len(),
{
    if u.len() > 0 {
        lemma_key_index_same_keys(u.drop_last(), v.drop_last(), key);
    }
}

proof fn lemma_bump_count(u: Seq<(Seq<char>, usize)>, key: Seq<char>, other: Seq<char>)
    requires
        used_count(u, key) < usize::MAX,
    ensures
        used_count(bump(u, key), other) == used_count(u, other) + if other == key { 1int } else { 0int },
{
    lemma_key_index_bounds(u, key);
    lemma_key_index_bounds(u, other);
    let k = key_index(u, key);
    if k >= 0 {
        let v = u.update(k, (key, count_up(u[k].1)));
        lemma_key_index_same_keys(u, v, other);
    } else {
        let v = u.push((key, 1usize));
        assert(v.drop_last() =~= u);
        if other != key {
            assert(key_index(v, other) == key_index(u, other));
        }
    }
}

proof fn lemma_key_uses_bound(names: Seq<Seq<char>>, key: Seq<char>)
    ensures
        key_uses(names, key) <= names.len(),
    decreases names.len(),
{
    if names.len() > 0 {
        lemma_key_uses_bound(names.drop_last(), key);
    }
}

proof fn lemma_key_uses_grow(names: Seq<Seq<char>>, i: int, j: int)
    requires
        0 <= i < j <= names.len(),
    ensures
        key_uses(names.subrange(0, j), stem_key(names[i])) >= key_uses(names.subrange(0, i), stem_key(names[i])) + 1,
    decreases j - i,
{
    if j == i + 1 {
        assert(names.subrange(0, j).drop_last() =~= names.subrange(0, i));
    } else {
        lemma_key_uses_grow(names, i, j - 1);
        assert(names.subrange(0, j).drop_last() =~= names.subrange(0, j - 1));
    }
}

proof fn lemma_stem_run(names: Seq<Seq<char>>)
    requires
        names.len() < usize::MAX,
    ensures
        stem_run(names).0.len() == names.len(),
        forall|key: Seq<char>| #[trigger] used_count(stem_run(names).1, key) == key_uses(names, key),
        forall|i: int|
            0 <= i < names.len() ==> #[trigger] stem_run(names).0[i] == numbered(
                spec_sanitize_file_stem(names[i]),
                key_uses(names.subrange(0, i), stem_key(names[i])) + 1,
            ),
    decreases names.len(),
{
    if names.len() == 0 {
        assert forall|key: Seq<char>| #[trigger] used_count(stem_run(names).1, key) == key_uses(names, key) by {
            assert(key_index(Seq::<(Seq<char>, usize)>::empty(), key) == -1);
        }
    } else {
        let front = names.drop_last();
        lemma_stem_run(front);
        let (stems, u) = stem_run(front);
        let name = names.last();
        let key = stem_key(name);
        lemma_key_uses_bound(front, key);
        assert(used_count(u, key) == key_uses(front, key));
        assert forall|other: Seq<char>| #[trigger] used_count(stem_run(names).1, other) == key_uses(names, other) by {
            lemma_bump_count(u, key, other);
        }
        assert(names.subrange(0, names.len() - 1) =~= front);
        assert forall|i: int|
            0 <= i < names.len() implies #[trigger] stem_run(names).0[i] == numbered(
                spec_sanitize_file_stem(names[i]),
                key_uses(names.subrange(0, i), stem_key(names[i])) + 1,
            ) by {
            if i < names.len() - 1 {
                assert(front.subrange(0, i) =~= names.subrange(0, i));
                assert(front[i] == names[i]);
            }
        }
    }
}

/// The stems that a run of `next_asset_file_stem` calls gives, from no
/// counts: each layer gets its sanitized name, numbered one more than the
/// earlier layers with the same stem up to letter case; and where no
/// sanitized name already ends in ` (` digits `)`, no two layers get the
/// same stem.
pub proof fn law_asset_stems_are_distinct(names: Seq<Seq<char>>)
    requires
        names.len() < usize::MAX,
        forall|i: int| 0 <= i < names.len() ==> !has_number_suffix(spec_sanitize_file_stem(#[trigger] names[i])),
    ensures
        stem_run(names).0.len() == names.len(),
        forall|i: int|
            0 <= i < names.len() ==> #[trigger] stem_run(names).0[i] == numbered(
                spec_sanitize_file_stem(names[i]),
                key_uses(names.subrange(0, i), stem_key(names[i])) + 1,
            ),
        forall|i: int, j: int|
            0 <= i < j < names.len() ==> #[trigger] stem_run(names).0[i] != #[trigger] stem_run(names).0[j],
{
    lemma_stem_run(names);
    assert forall|i: int, j: int|
        0 <= i < j < names.len() implies #[trigger] stem_run(names).0[i] != #[trigger] stem_run(names).0[j] by {
        let si = spec_sanitize_file_stem(names[i]);
        let sj = spec_sanitize_file_stem(names[j]);
        let ni = key_uses(names.subrange(0, i), stem_key(names[i])) + 1;
        let nj = key_uses(names.subrange(0, j), stem_key(names[j])) + 1;
        assert(stem_run(names).0[i] == numbered(si, ni));
        assert(stem_run(names).0[j] == numbered(sj, nj));
        lemma_decimal_digits(ni);
        lemma_decimal_digits(nj);
        lemma_key_uses_grow(names, i, j);
        if numbered(si, ni) == numbered(sj, nj) {
            if ni == 1 && nj == 1 {
                assert(stem_key(names[i]) == stem_key(names[j]));
            } else if ni == 1 {
                assert(si == with_number(sj, decimal(nj)));
                assert(has_number_suffix(si));
                assert(false);
            } else if nj == 1 {
                assert(sj == with_number(si, decimal(ni)));
                assert(has_number_suffix(sj));
                assert(false);
            } else {
                lemma_with_number_split(si, decimal(ni), sj, decimal(nj));
                lemma_decimal_injective(ni, nj);
                assert(stem_key(names[i]) == stem_key(names[j]));
            }
        }
    }
}

} // verus!

