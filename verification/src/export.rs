use vstd::prelude::*;

use crate::export_model::{export_warning_views, ExportWarning, WarningView};
use crate::hierarchy::{
    is_synthetic_group_closer, recon_final, recon_nodes, reconstruct_bottom_up, sentinel_name, tree_of,
    trees_of, lemma_trees_of, BuildNode, NodeView,
};
use crate::psd::{layer_views, FlatLayer, FlatLayerView};
use crate::text::{decimal, hex_byte, owned, push_decimal, push_hex_byte, push_str};

verus! {

/// How many layers of `ls` are unflagged `</Layer group>` sentinels.
pub open spec fn synthetic_closer_count(ls: Seq<FlatLayerView>) -> nat
    decreases ls.len(),
{
    if ls.len() == 0 {
        0
    } else {
        synthetic_closer_count(ls.drop_last()) + if is_synthetic_group_closer(ls.last()) {
            1nat
        } else {
            0nat
        }
    }
}

/// A warning reporting `n` recovered layers, or none when `n` is zero.
pub open spec fn count_warning(code: Seq<char>, before: Seq<char>, n: nat, after: Seq<char>) -> Seq<WarningView> {
    if n == 0 {
        seq![]
    } else {
        seq![WarningView { code, message: before + decimal(n) + after, layer_name: None }]
    }
}

pub const SYNTHETIC_CLOSER_AFTER: &'static str = " unflagged '</Layer group>' sentinel layer(s) while rebuilding groups";

pub const SYNTHETIC_OPENER_AFTER: &'static str = " unflagged zero-bounds group opener layer(s) while rebuilding groups";

pub const ORPHAN_OPENER_AFTER: &'static str = " group opener layer(s) that had no matching closer; treated as childless group(s)";

pub const ORPHAN_CLOSER_AFTER: &'static str = " group closer layer(s) that had no matching opener; their children were promoted to the parent level";

/// The warnings of a hierarchy rebuild: recovered sentinels, recovered
/// openers, openers without closers, closers without openers.
pub open spec fn layer_tree_warnings(ls: Seq<FlatLayerView>) -> Seq<WarningView> {
    count_warning("synthetic-group-closer"@, "recovered "@, synthetic_closer_count(ls), SYNTHETIC_CLOSER_AFTER@)
        + count_warning(
        "synthetic-group-opener"@,
        "recovered "@,
        recon_final(ls).synthetic_openers,
        SYNTHETIC_OPENER_AFTER@,
    ) + count_warning("orphan-group-opener"@, "recovered "@, recon_final(ls).orphan_openers, ORPHAN_OPENER_AFTER@)
        + count_warning(
        "orphan-group-closer"@,
        "recovered "@,
        (recon_final(ls).frames.len() - 1) as nat,
        ORPHAN_CLOSER_AFTER@,
    )
}

fn count_synthetic_closers(layers: &Vec<FlatLayer>) -> (n: usize)
    ensures
        n == synthetic_closer_count(layer_views(layers@)),
{
    let ghost ls = layer_views(layers@);
    let mut n: usize = 0;
    let mut i: usize = 0;
    while i < layers.len()
        invariant
            ls == layer_views(layers@),
            ls.len() == layers@.len(),
            i <= layers@.len(),
            n <= i,
            n == synthetic_closer_count(ls.subrange(0, i as int)),
        decreases layers.len() - i,
    {
        assert(ls.subrange(0, i + 1).drop_last() =~= ls.subrange(0, i as int));
        assert(ls[i as int] == layers@[i as int]@);
        let l = &layers[i];
        if !l.group_opener && !l.group_closer && l.bounds.width == 0 && l.bounds.height == 0 && sentinel_name(
            &l.name,
        ) {
            n = n + 1;
        }
        i = i + 1;
    }
    assert(ls.subrange(0, i as int) =~= ls);
    n
}

/// Appends the warning for `n` recovered layers, when `n` is not zero.
fn push_count_warning(warnings: &mut Vec<ExportWarning>, code: &str, n: usize, after: &str)
    ensures
        export_warning_views(final(warnings)@) == export_warning_views(old(warnings)@) + count_warning(
            code@,
            "recovered "@,
            n as nat,
            after@,
        ),
{
    let ghost prev = export_warning_views(warnings@);
    if n == 0 {
        assert(export_warning_views(warnings@) =~= prev + count_warning(code@, "recovered "@, n as nat, after@));
        return;
    }
    let mut message = owned("recovered ");
    push_decimal(&mut message, n as u64);
    push_str(&mut message, after);
    warnings.push(ExportWarning::new(code, message.as_str()));
    assert(export_warning_views(warnings@) =~= prev + count_warning(code@, "recovered "@, n as nat, after@));
}

/// Rebuilds the layer hierarchy (see `reconstruct_bottom_up`) and reports
/// what had to be recovered. The rebuild cannot fail, so the hierarchy is
/// always the one read bottom-up.
pub fn build_layer_tree(layers: Vec<FlatLayer>, warnings: &mut Vec<ExportWarning>) -> (r: Vec<BuildNode>)
    ensures
        trees_of(r@) == recon_nodes(layer_views(layers@)),
        export_warning_views(final(warnings)@) == export_warning_views(old(warnings)@) + layer_tree_warnings(
            layer_views(layers@),
        ),
{
    let ghost ls = layer_views(layers@);
    let ghost w0 = export_warning_views(warnings@);
    let synthetic_closers = count_synthetic_closers(&layers);
    let result = reconstruct_bottom_up(layers);
    push_count_warning(warnings, "synthetic-group-closer", synthetic_closers, SYNTHETIC_CLOSER_AFTER);
    push_count_warning(warnings, "synthetic-group-opener", result.synthetic_opener_count, SYNTHETIC_OPENER_AFTER);
    push_count_warning(warnings, "orphan-group-opener", result.orphan_opener_count, ORPHAN_OPENER_AFTER);
    push_count_warning(warnings, "orphan-group-closer", result.orphan_closer_count, ORPHAN_CLOSER_AFTER);
    assert(export_warning_views(warnings@) =~= w0 + layer_tree_warnings(ls));
    result.nodes
}

/// The SHA-1 digest of some bytes.
pub uninterp spec fn sha1_digest(data: Seq<u8>) -> Seq<u8>;

/// Calls `sha1::Sha1::digest` (through the `sha1::Digest` trait), which
/// returns the 20-byte SHA-1 digest of `data`; the contract names that
/// digest and states its length.
#[verifier::external_body]
fn sha1_of(data: &[u8]) -> (r: Vec<u8>)
    ensures
        r@ == sha1_digest(data@),
        r@.len() == 20,
{
    <sha1::Sha1 as sha1::Digest>::digest(data).to_vec()
}

/// Lower-case hexadecimal digits of a sequence of bytes.
pub open spec fn hex_lower_of(b: Seq<u8>) -> Seq<char>
    decreases b.len(),
{
    if b.len() == 0 {
        seq![]
    } else {
        hex_lower_of(b.drop_last()) + hex_byte(b.last(), false)
    }
}

/// The lower-case hexadecimal SHA-1 digest of `data`, 40 characters.
pub fn sha1_hex(data: &[u8]) -> (s: String)
    ensures
        s@ == hex_lower_of(sha1_digest(data@)),
{
    let d = sha1_of(data);
    let mut s = String::new();
    let mut i: usize = 0;
    while i < d.len()
        invariant
            i <= d@.len(),
            s@ == hex_lower_of(d@.subrange(0, i as int)),
        decreases d.len() - i,
    {
        assert(d@.subrange(0, i + 1).drop_last() =~= d@.subrange(0, i as int));
        push_hex_byte(&mut s, d[i], false);
        i = i + 1;
    }
    assert(d@.subrange(0, i as int) =~= d@);
    s
}

/// The positions of a path, in decimal, joined by `/`.
pub open spec fn path_key(path: Seq<usize>) -> Seq<char>
    decreases path.len(),
{
    if path.len() == 0 {
        seq![]
    } else if path.len() == 1 {
        decimal(path[0] as nat)
    } else {
        path_key(path.drop_last()) + seq!['/'] + decimal(path.last() as nat)
    }
}

/// What a node's id is hashed from: its path key, `#`, its raw index.
pub open spec fn node_key(path: Seq<usize>, raw_index: nat) -> Seq<char> {
    path_key(path) + seq!['#'] + decimal(raw_index)
}

/// The bytes of an ASCII text.
pub open spec fn ascii_bytes(s: Seq<char>) -> Seq<u8> {
    s.map_values(|c: char| c as u8)
}

/// A node id: `layer_` and the first twelve lower-case hexadecimal digits
/// of the SHA-1 digest of the node key (which is ASCII, so its bytes are
/// its characters).
pub open spec fn spec_node_id(path: Seq<usize>, raw_index: nat) -> Seq<char> {
    "layer_"@ + hex_lower_of(sha1_digest(ascii_bytes(node_key(path, raw_index))).subrange(0, 6))
}

/// Builds the node key of `path` and `raw_index`.
fn node_key_string(path: &Vec<usize>, raw_index: usize) -> (s: String)
    ensures
        s@ == node_key(path@, raw_index as nat),
{
    let mut s = String::new();
    let mut i: usize = 0;
    while i < path.len()
        invariant
            i <= path@.len(),
            s@ == path_key(path@.subrange(0, i as int)),
        decreases path.len() - i,
    {
        let ghost pre = path@.subrange(0, i + 1);
        assert(pre.drop_last() =~= path@.subrange(0, i as int));
        if i > 0 {
            crate::text::push_char(&mut s, '/');
        } else {
            assert(path@.subrange(0, 0) =~= Seq::<usize>::empty());
        }
        push_decimal(&mut s, path[i] as u64);
        i = i + 1;
    }
    assert(path@.subrange(0, i as int) =~= path@);
    crate::text::push_char(&mut s, '#');
    push_decimal(&mut s, raw_index as u64);
    s
}

/// The bytes of an ASCII text; each character is taken as its code.
fn ascii_bytes_of(s: &str) -> (b: Vec<u8>)
    ensures
        b@ == ascii_bytes(s@),
{
    let cs = crate::text::chars_of(s);
    let mut out: Vec<u8> = Vec::new();
    let mut i: usize = 0;
    while i < cs.len()
        invariant
            i <= cs@.len(),
            cs@ == s@,
            out@.len() == i,
            forall|k: int| 0 <= k < i ==> #[trigger] out@[k] == (cs@[k] as u8),
        decreases cs.len() - i,
    {
        out.push(cs[i] as u8);
        i = i + 1;
    }
    assert(out@ =~= ascii_bytes(s@));
    out
}

/// The id of the node at `path` made from the layer record `raw_index`.
pub fn generate_node_id(path: &Vec<usize>, raw_index: usize) -> (id: String)
    ensures
        id@ == spec_node_id(path@, raw_index as nat),
{
    let key = node_key_string(path, raw_index);
    let bytes = ascii_bytes_of(key.as_str());
    let digest = sha1_of(bytes.as_slice());
    let mut id = owned("layer_");
    let ghost start = id@;
    let mut i: usize = 0;
    while i < 6
        invariant
            i <= 6,
            digest@.len() == 20,
            id@ == start + hex_lower_of(digest@.subrange(0, i as int)),
        decreases 6 - i,
    {
        assert(digest@.subrange(0, i + 1).drop_last() =~= digest@.subrange(0, i as int));
        push_hex_byte(&mut id, digest[i], false);
        i = i + 1;
    }
    id
}


/// A node given its id, stack index and path: `path` is where it stands,
/// `stack` how many siblings stand above it; its children are numbered in
/// turn.
pub open spec fn assigned_node(n: NodeView, path: Seq<usize>, stack: u32) -> NodeView
    decreases n, 1int,
{
    NodeView {
        id: spec_node_id(path, n.raw_index),
        stack_index: stack,
        path_indices: path,
        children: assigned_seq(n.children, path, n.children.len() as int),
        ..n
    }
}

/// The first `k` of the siblings `ns` under `path`, each given its id:
/// the sibling at position `i` stands at `path` + `i`, with
/// `ns.len() - 1 - i` siblings above it (as a `u32`).
pub open spec fn assigned_seq(ns: Seq<NodeView>, path: Seq<usize>, k: int) -> Seq<NodeView>
    decreases ns, k,
{
    if k <= 0 || k > ns.len() {
        seq![]
    } else {
        assigned_seq(ns, path, k - 1).push(
            assigned_node(ns[k - 1], path.push((k - 1) as usize), (ns.len() - k) as u32),
        )
    }
}

proof fn lemma_assigned_seq(ns: Seq<NodeView>, path: Seq<usize>, k: int)
    requires
        0 <= k <= ns.len(),
    ensures
        assigned_seq(ns, path, k).len() == k,
        forall|j: int| 0 <= j < k ==> #[trigger] assigned_seq(ns, path, k)[j] == assigned_node(
            ns[j],
            path.push(j as usize),
            (ns.len() - 1 - j) as u32,
        ),
    decreases k,
{
    if k > 0 {
        lemma_assigned_seq(ns, path, k - 1);
    }
}

/// Gives every node its id, stack index (how many siblings stand above it)
/// and path, top-most siblings first, as `assigned_seq` describes.
pub fn assign_ids_and_stack_indices(nodes: &mut Vec<BuildNode>, path: &mut Vec<usize>)
    ensures
        trees_of(final(nodes)@) == assigned_seq(trees_of(old(nodes)@), old(path)@, old(nodes)@.len() as int),
        final(path)@ == old(path)@,
    decreases *old(nodes),
{
    let ghost orig = nodes@;
    let ghost p0 = path@;
    let count = nodes.len();
    proof {
        lemma_trees_of(orig);
    }
    let mut i: usize = 0;
    while i < count
        invariant
            count == orig.len(),
            orig == old(nodes)@,
            nodes@.len() == count,
            path@ == p0,
            i <= count,
            trees_of(orig).len() == orig.len(),
            forall|j: int| 0 <= j < orig.len() ==> #[trigger] trees_of(orig)[j] == tree_of(orig[j]),
            forall|k: int|
                0 <= k < i ==> #[trigger] tree_of(nodes@[k]) == assigned_node(
                    tree_of(orig[k]),
                    p0.push(k as usize),
                    (count - 1 - k) as u32,
                ),
            forall|k: int| i <= k < count ==> #[trigger] nodes@[k] == orig[k],
        decreases count - i,
    {
        path.push(i);
        let stack = (count - 1 - i) as u32;
        nodes[i].stack_index = stack;
        let raw = nodes[i].raw_index;
        let id = generate_node_id(path, raw);
        nodes[i].id = id;
        let here = path.clone();
        nodes[i].path_indices = here;
        assert(orig == old(nodes)@);
        assert(nodes@[i as int].children == orig[i as int].children);
        assert(decreases_to!(*old(nodes) => orig));
        assert(decreases_to!(orig => orig[i as int]));
        assert(decreases_to!(orig[i as int] => orig[i as int].children));
        assign_ids_and_stack_indices(&mut nodes[i].children, path);
        proof {
            lemma_trees_of(orig[i as int].children@);
        }
        path.pop();
        i = i + 1;
    }
    proof {
        lemma_trees_of(nodes@);
        lemma_assigned_seq(trees_of(orig), p0, count as int);
        assert(trees_of(nodes@) =~= assigned_seq(trees_of(orig), p0, count as int));
    }
}


/// The warning for a clipped layer with nothing to clip to.
pub const CLIPPING_BASE_MISSING: &'static str = "clipped layer did not have a non-clipped sibling beneath it";

/// Clip targets for the siblings `ns[..k]`, taken from the last down with
/// `base` the id of the nearest non-clipped sibling below (after) the ones
/// taken so far: a clipped layer clips to it, or is reported when there is
/// none; every node's children are done in the same way, right after the
/// node. Gives the nodes `ns[..k]` and the warnings, in order.
pub open spec fn clip_from(ns: Seq<NodeView>, k: int, base: Option<Seq<char>>) -> (Seq<NodeView>, Seq<WarningView>)
    decreases ns, k,
{
    if k <= 0 || k > ns.len() {
        (seq![], seq![])
    } else {
        let n = ns[k - 1];
        let clip = if n.is_clipped && base is Some { base } else { n.clip_to };
        let own = if n.is_clipped && base is None {
            seq![WarningView { code: "clipping-base-missing"@, message: CLIPPING_BASE_MISSING@, layer_name: Some(n.name) }]
        } else {
            seq![]
        };
        let base2 = if n.is_clipped { base } else { Some(n.id) };
        let (kids, kid_warnings) = clip_from(n.children, n.children.len() as int, None);
        let (front, front_warnings) = clip_from(ns, k - 1, base2);
        (front.push(NodeView { clip_to: clip, children: kids, ..n }), own + kid_warnings + front_warnings)
    }
}

/// Sets the clip target of every clipped layer: the nearest non-clipped
/// sibling beneath it (see `clip_from`), warning about clipped layers that
/// have none.
pub fn assign_clip_targets(nodes: &mut Vec<BuildNode>, warnings: &mut Vec<ExportWarning>)
    ensures
        trees_of(final(nodes)@) == clip_from(trees_of(old(nodes)@), old(nodes)@.len() as int, None).0,
        export_warning_views(final(warnings)@) == export_warning_views(old(warnings)@) + clip_from(
            trees_of(old(nodes)@),
            old(nodes)@.len() as int,
            None,
        ).1,
    decreases *old(nodes),
{
    let ghost orig = nodes@;
    let ghost tv = trees_of(orig);
    let ghost w0 = export_warning_views(warnings@);
    let count = nodes.len();
    proof {
        lemma_trees_of(orig);
        lemma_trees_of(nodes@);
        assert(trees_of(nodes@).subrange(count as int, count as int) =~= Seq::<NodeView>::empty());
        assert(export_warning_views(warnings@) =~= w0 + Seq::<WarningView>::empty());
    }
    let mut clip_base: Option<String> = None;
    let mut i: usize = count;
    while i > 0
        invariant
            count == orig.len(),
            orig == old(nodes)@,
            tv == trees_of(orig),
            tv.len() == orig.len(),
            forall|j: int| 0 <= j < orig.len() ==> #[trigger] tv[j] == tree_of(orig[j]),
            nodes@.len() == count,
            i <= count,
            forall|k: int| 0 <= k < i ==> #[trigger] nodes@[k] == orig[k],
            clip_from(tv, count as int, None).0 == clip_from(tv, i as int, crate::hierarchy::opt_str(clip_base)).0
                + trees_of(nodes@).subrange(i as int, count as int),
            clip_from(tv, count as int, None).1 == export_warning_views(warnings@).subrange(
                w0.len() as int,
                export_warning_views(warnings@).len() as int,
            ) + clip_from(tv, i as int, crate::hierarchy::opt_str(clip_base)).1,
            export_warning_views(warnings@).subrange(0, w0.len() as int) == w0,
            w0.len() <= export_warning_views(warnings@).len(),
        decreases i,
    {
        let j = i - 1;
        let ghost b = crate::hierarchy::opt_str(clip_base);
        let ghost n = tv[j as int];
        let ghost wb = export_warning_views(warnings@);
        let ghost before = nodes@;
        proof {
            lemma_trees_of(nodes@);
        }
        if nodes[j].is_clipped {
            match &clip_base {
                Some(base) => {
                    nodes[j].clip_to = Some(base.clone());
                },
                None => {
                    let w = ExportWarning::for_layer(
                        "clipping-base-missing",
                        CLIPPING_BASE_MISSING,
                        nodes[j].name.as_str(),
                    );
                    warnings.push(w);
                },
            }
        } else {
            clip_base = Some(nodes[j].id.clone());
        }
        let ghost wmid = export_warning_views(warnings@);
        assert(nodes@[j as int].children == orig[j as int].children);
        assert(decreases_to!(*old(nodes) => orig));
        assert(decreases_to!(orig => orig[j as int]));
        assert(decreases_to!(orig[j as int] => orig[j as int].children));
        assign_clip_targets(&mut nodes[j].children, warnings);
        proof {
            lemma_trees_of(orig[j as int].children@);
            lemma_trees_of(nodes@);
            let (kids, kw) = clip_from(n.children, n.children.len() as int, None);
            let own = if n.is_clipped && b is None {
                seq![WarningView { code: "clipping-base-missing"@, message: CLIPPING_BASE_MISSING@, layer_name: Some(n.name) }]
            } else {
                seq![]
            };
            assert(wmid =~= wb + own);
            assert(export_warning_views(warnings@) =~= wb + own + kw);
            let clip = if n.is_clipped && b is Some { b } else { n.clip_to };
            assert(tree_of(nodes@[j as int]) == NodeView { clip_to: clip, children: kids, ..n });
            let (front, fw) = clip_from(tv, j as int, crate::hierarchy::opt_str(clip_base));
            assert(clip_from(tv, (j + 1) as int, b) == (
                front.push(NodeView { clip_to: clip, children: kids, ..n }),
                own + kw + fw,
            ));
            assert(forall|k: int| 0 <= k < j ==> #[trigger] nodes@[k] == orig[k]);
            assert(trees_of(nodes@).subrange(j as int, count as int) =~= seq![tree_of(nodes@[j as int])]
                + trees_of(before).subrange((j + 1) as int, count as int));
            assert(export_warning_views(warnings@).subrange(0, w0.len() as int) =~= w0);
            assert(export_warning_views(warnings@).subrange(
                w0.len() as int,
                export_warning_views(warnings@).len() as int,
            ) =~= wb.subrange(w0.len() as int, wb.len() as int) + own + kw);
        }
        i = j;
    }
    proof {
        lemma_trees_of(nodes@);
        assert(trees_of(nodes@).subrange(0, count as int) =~= trees_of(nodes@));
        assert(export_warning_views(warnings@) =~= w0 + export_warning_views(warnings@).subrange(
            w0.len() as int,
            export_warning_views(warnings@).len() as int,
        ));
    }
}

} // verus!

verus! {

/// A lower-case hexadecimal digit.
pub open spec fn is_lower_hex(c: char) -> bool {
    ('0' <= c && c <= '9') || ('a' <= c && c <= 'f')
}

/// Bytes in lower-case hexadecimal take two digits each, and only digits
/// `0`-`9` and `a`-`f`; so a SHA-1 digest reads as forty of them and a
/// node id is `layer_` and twelve of them.
pub proof fn law_hex_digits(b: Seq<u8>)
    ensures
        hex_lower_of(b).len() == 2 * b.len(),
        forall|i: int| 0 <= i < hex_lower_of(b).len() ==> is_lower_hex(#[trigger] hex_lower_of(b)[i]),
    decreases b.len(),
{
    if b.len() > 0 {
        law_hex_digits(b.drop_last());
        let front = hex_lower_of(b.drop_last());
        let last = hex_byte(b.last(), false);
        assert(b.last() as nat / 16 < 16);
        assert(b.last() as nat % 16 < 16);
        assert forall|i: int| 0 <= i < hex_lower_of(b).len() implies is_lower_hex(#[trigger] hex_lower_of(b)[i]) by {
            if i < front.len() {
                assert(hex_lower_of(b)[i] == front[i]);
            } else {
                assert(hex_lower_of(b)[i] == last[i - front.len()]);
            }
        }
    }
}

} // verus!
