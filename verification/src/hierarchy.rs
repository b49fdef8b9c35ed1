use vstd::prelude::*;

use crate::psd::{layer_views, Bounds, FlatLayer, FlatLayerView, LayerType};

verus! {

/// A PNG that Photoshop wrote into the staging directory for a layer.
#[derive(Debug)]
pub struct StagedAsset {
    pub staged_path: String,
    pub relative_path: String,
    pub width: u32,
    pub height: u32,
}

/// A layer of the rebuilt hierarchy, with its children top-most last as
/// they were read, and what later passes assign to it.
#[derive(Debug)]
pub struct BuildNode {
    pub raw_index: usize,
    pub name: String,
    pub asset_file_stem: String,
    pub layer_type: LayerType,
    pub visible: bool,
    pub opacity: u8,
    pub blend_mode: String,
    pub bounds: Bounds,
    pub children: Vec<BuildNode>,
    pub is_clipped: bool,
    pub id: String,
    pub stack_index: u32,
    pub clip_to: Option<String>,
    pub path_indices: Vec<usize>,
    pub external_asset: Option<StagedAsset>,
    pub baked: Vec<String>,
}

/// A staged asset with its paths seen as character sequences.
pub struct StagedAssetView {
    pub staged_path: Seq<char>,
    pub relative_path: Seq<char>,
    pub width: u32,
    pub height: u32,
}

/// A hierarchy node with its strings seen as character sequences.
pub struct NodeView {
    pub raw_index: nat,
    pub name: Seq<char>,
    pub asset_file_stem: Seq<char>,
    pub layer_type: LayerType,
    pub visible: bool,
    pub opacity: u8,
    pub blend_mode: Seq<char>,
    pub bounds: Bounds,
    pub children: Seq<NodeView>,
    pub is_clipped: bool,
    pub id: Seq<char>,
    pub stack_index: u32,
    pub clip_to: Option<Seq<char>>,
    pub path_indices: Seq<usize>,
    pub external_asset: Option<StagedAssetView>,
    pub baked: Seq<Seq<char>>,
}

/// The view of an optional staged asset.
pub open spec fn asset_view(a: Option<StagedAsset>) -> Option<StagedAssetView> {
    match a {
        Some(a) => Some(
            StagedAssetView {
                staged_path: a.staged_path@,
                relative_path: a.relative_path@,
                width: a.width,
                height: a.height,
            },
        ),
        None => None,
    }
}

/// The view of an optional string.
pub open spec fn opt_str(s: Option<String>) -> Option<Seq<char>> {
    match s {
        Some(s) => Some(s@),
        None => None,
    }
}

/// The views of a sequence of strings.
pub open spec fn str_views(s: Seq<String>) -> Seq<Seq<char>> {
    s.map_values(|x: String| x@)
}

/// The view of a hierarchy node and, through `trees_of`, of its descendants.
pub open spec fn tree_of(n: BuildNode) -> NodeView
    decreases n, 1nat,
{
    NodeView {
        raw_index: n.raw_index as nat,
        name: n.name@,
        asset_file_stem: n.asset_file_stem@,
        layer_type: n.layer_type,
        visible: n.visible,
        opacity: n.opacity,
        blend_mode: n.blend_mode@,
        bounds: n.bounds,
        children: trees_of(n.children@),
        is_clipped: n.is_clipped,
        id: n.id@,
        stack_index: n.stack_index,
        clip_to: opt_str(n.clip_to),
        path_indices: n.path_indices@,
        external_asset: asset_view(n.external_asset),
        baked: str_views(n.baked@),
    }
}

/// The views of a sequence of nodes.
pub open spec fn trees_of(s: Seq<BuildNode>) -> Seq<NodeView>
    decreases s, 0nat,
{
    if s.len() == 0 {
        seq![]
    } else {
        trees_of(s.drop_last()).push(tree_of(s.last()))
    }
}

/// `trees_of` maps each node to its view.
pub proof fn lemma_trees_of(s: Seq<BuildNode>)
    ensures
        trees_of(s).len() == s.len(),
        forall|i: int| 0 <= i < s.len() ==> #[trigger] trees_of(s)[i] == tree_of(s[i]),
    decreases s.len(),
{
    if s.len() > 0 {
        lemma_trees_of(s.drop_last());
    }
}

/// The sentinel name of an unflagged group closer.
pub open spec fn closer_sentinel() -> Seq<char> {
    "</Layer group>"@
}

/// A zero-sized layer without group flags named `</Layer group>`.
pub open spec fn is_synthetic_group_closer(l: FlatLayerView) -> bool {
    !l.group_opener && !l.group_closer && l.bounds.width == 0 && l.bounds.height == 0 && l.name
        == closer_sentinel()
}

/// A zero-sized layer without group flags and with another name: it may be
/// an unflagged group opener.
pub open spec fn is_synthetic_group_opener_candidate(l: FlatLayerView) -> bool {
    !l.group_opener && !l.group_closer && l.bounds.width == 0 && l.bounds.height == 0 && l.name
        != closer_sentinel()
}

/// A layer that closes a group: flagged, or the unflagged sentinel.
pub open spec fn is_effective_closer(l: FlatLayerView) -> bool {
    l.group_closer || is_synthetic_group_closer(l)
}

/// Whether `l` counts for `kind`: 0 closers, 1 flagged openers, 2 opener candidates.
pub open spec fn counts_as(kind: int, l: FlatLayerView) -> bool {
    if kind == 0 {
        is_effective_closer(l)
    } else if kind == 1 {
        l.group_opener
    } else {
        is_synthetic_group_opener_candidate(l)
    }
}

/// How many layers of `ls[lo..hi]` count for `kind`.
pub open spec fn count_kind(ls: Seq<FlatLayerView>, lo: int, hi: int, kind: int) -> nat
    decreases hi - lo,
{
    if hi <= lo {
        0
    } else {
        count_kind(ls, lo, hi - 1, kind) + if counts_as(kind, ls[hi - 1]) {
            1nat
        } else {
            0nat
        }
    }
}

/// A node made from a layer, with nothing assigned yet.
pub open spec fn node_of_layer(l: FlatLayerView, t: LayerType, children: Seq<NodeView>) -> NodeView {
    NodeView {
        raw_index: l.raw_index,
        name: l.name,
        asset_file_stem: seq![],
        layer_type: t,
        visible: l.visible,
        opacity: l.opacity,
        blend_mode: l.blend_mode,
        bounds: l.bounds,
        children,
        is_clipped: l.is_clipped,
        id: seq![],
        stack_index: 0,
        clip_to: None,
        path_indices: seq![],
        external_asset: None,
        baked: seq![],
    }
}

/// The state of the bottom-up rebuild: open frames of siblings, innermost
/// last, and the counts of recovered groups.
pub struct ReconState {
    pub frames: Seq<Seq<NodeView>>,
    pub synthetic_openers: nat,
    pub orphan_openers: nat,
}

/// Appends `n` to the innermost frame.
pub open spec fn push_to_top(frames: Seq<Seq<NodeView>>, n: NodeView) -> Seq<Seq<NodeView>> {
    frames.update(frames.len() - 1, frames.last().push(n))
}

/// Handles the layer `ls[i]`, the next one up: a closer opens a frame; an
/// opener closes the innermost frame into its children (or, with no frame
/// open, becomes a childless group); any other layer joins the innermost
/// frame. An unflagged zero-sized layer counts as an opener when skipping it
/// would leave more groups open at the end than there are openers left.
pub open spec fn recon_step(ls: Seq<FlatLayerView>, i: int, st: ReconState) -> ReconState {
    let l = ls[i];
    if is_effective_closer(l) {
        ReconState { frames: st.frames.push(seq![]), ..st }
    } else {
        let candidate = is_synthetic_group_opener_candidate(l);
        let final_depth_if_skipped = st.frames.len() + count_kind(ls, i + 1, ls.len() as int, 0)
            - count_kind(ls, i + 1, ls.len() as int, 1) - count_kind(ls, i + 1, ls.len() as int, 2);
        let opener = l.group_opener || (candidate && final_depth_if_skipped > 1);
        let t = if opener && candidate { LayerType::Group } else { l.layer_type };
        let synthetic = if opener && candidate {
            st.synthetic_openers + 1
        } else {
            st.synthetic_openers
        };
        if !opener {
            ReconState { frames: push_to_top(st.frames, node_of_layer(l, t, seq![])), ..st }
        } else if st.frames.len() == 1 {
            ReconState {
                frames: push_to_top(st.frames, node_of_layer(l, t, seq![])),
                synthetic_openers: synthetic,
                orphan_openers: st.orphan_openers + 1,
            }
        } else {
            ReconState {
                frames: push_to_top(
                    st.frames.drop_last(),
                    node_of_layer(l, t, st.frames.last().reverse()),
                ),
                synthetic_openers: synthetic,
                orphan_openers: st.orphan_openers,
            }
        }
    }
}

/// The rebuild state after the layers `ls[i..]`.
pub open spec fn recon_run(ls: Seq<FlatLayerView>, i: int, st: ReconState) -> ReconState
    decreases ls.len() - i,
{
    if i >= ls.len() {
        st
    } else {
        recon_run(ls, i + 1, recon_step(ls, i, st))
    }
}

/// The frames concatenated, outermost first.
pub open spec fn flatten(frames: Seq<Seq<NodeView>>) -> Seq<NodeView>
    decreases frames.len(),
{
    if frames.len() == 0 {
        seq![]
    } else {
        flatten(frames.drop_last()) + frames.last()
    }
}

/// The rebuild state after all layers.
pub open spec fn recon_final(ls: Seq<FlatLayerView>) -> ReconState {
    recon_run(ls, 0, ReconState { frames: seq![seq![]], synthetic_openers: 0, orphan_openers: 0 })
}

/// The rebuilt top-level nodes, top-most first: frames left open by closers
/// without openers are merged into the top level.
pub open spec fn recon_nodes(ls: Seq<FlatLayerView>) -> Seq<NodeView> {
    flatten(recon_final(ls).frames).reverse()
}

/// The result of rebuilding the layer hierarchy.
pub struct ReconstructionResult {
    pub nodes: Vec<BuildNode>,
    pub synthetic_opener_count: usize,
    pub orphan_opener_count: usize,
    pub orphan_closer_count: usize,
}

} // verus!

verus! {

/// The views of a stack of frames.
pub open spec fn frames_of(s: Seq<Vec<BuildNode>>) -> Seq<Seq<NodeView>> {
    s.map_values(|f: Vec<BuildNode>| trees_of(f@))
}

proof fn lemma_trees_push(s: Seq<BuildNode>, x: BuildNode)
    ensures
        trees_of(s.push(x)) == trees_of(s).push(tree_of(x)),
{
    assert(s.push(x).drop_last() =~= s);
}

pub proof fn lemma_count_split(ls: Seq<FlatLayerView>, lo: int, mid: int, hi: int, kind: int)
    requires
        lo <= mid <= hi,
    ensures
        count_kind(ls, lo, hi, kind) == count_kind(ls, lo, mid, kind) + count_kind(ls, mid, hi, kind),
    decreases hi - mid,
{
    if hi > mid {
        lemma_count_split(ls, lo, mid, hi - 1, kind);
    }
}

proof fn lemma_count_bound(ls: Seq<FlatLayerView>, lo: int, hi: int, kind: int)
    requires
        lo <= hi,
    ensures
        count_kind(ls, lo, hi, kind) <= hi - lo,
    decreases hi - lo,
{
    if hi > lo {
        lemma_count_bound(ls, lo, hi - 1, kind);
    }
}

pub(crate) fn sentinel_name(name: &String) -> (r: bool)
    ensures
        r == (name@ == closer_sentinel()),
{
    let sentinel = crate::text::owned("</Layer group>");
    *name == sentinel
}

/// Whether the layer counts for `kind` (see `counts_as`).
fn layer_counts_as(kind: u8, l: &FlatLayer) -> (r: bool)
    requires
        kind < 3,
    ensures
        r == counts_as(kind as int, l@),
{
    let unflagged_empty = !l.group_opener && !l.group_closer && l.bounds.width == 0
        && l.bounds.height == 0;
    if kind == 0 {
        l.group_closer || (unflagged_empty && sentinel_name(&l.name))
    } else if kind == 1 {
        l.group_opener
    } else {
        unflagged_empty && !sentinel_name(&l.name)
    }
}

fn count_layers(layers: &Vec<FlatLayer>, kind: u8) -> (n: usize)
    requires
        kind < 3,
    ensures
        n == count_kind(layer_views(layers@), 0, layers@.len() as int, kind as int),
{
    let ghost ls = layer_views(layers@);
    let mut n: usize = 0;
    let mut i: usize = 0;
    while i < layers.len()
        invariant
            ls == layer_views(layers@),
            kind < 3,
            i <= layers@.len(),
            n == count_kind(ls, 0, i as int, kind as int),
        decreases layers.len() - i,
    {
        proof {
            lemma_count_bound(ls, 0, i as int, kind as int);
        }
        if layer_counts_as(kind, &layers[i]) {
            n = n + 1;
        }
        i = i + 1;
    }
    n
}

/// A node made from a layer, with type `t` and nothing assigned yet.
fn node_from_layer(l: &FlatLayer, t: LayerType) -> (n: BuildNode)
    ensures
        tree_of(n) == node_of_layer(l@, t, seq![]),
{
    let n = BuildNode {
        raw_index: l.raw_index,
        name: l.name.clone(),
        asset_file_stem: String::new(),
        layer_type: t,
        visible: l.visible,
        opacity: l.opacity,
        blend_mode: l.blend_mode.clone(),
        bounds: l.bounds,
        children: Vec::new(),
        is_clipped: l.is_clipped,
        id: String::new(),
        stack_index: 0,
        clip_to: None,
        path_indices: Vec::new(),
        external_asset: None,
        baked: Vec::new(),
    };
    assert(str_views(n.baked@) =~= seq![]);
    n
}

/// The nodes in reverse order.
fn reverse_nodes(v: Vec<BuildNode>) -> (r: Vec<BuildNode>)
    ensures
        trees_of(r@) == trees_of(v@).reverse(),
{
    let ghost orig = v@;
    let mut rest = v;
    let mut out: Vec<BuildNode> = Vec::new();
    proof {
        lemma_trees_of(orig);
        lemma_trees_of(out@);
    }
    while rest.len() > 0
        invariant
            rest@.len() + out@.len() == orig.len(),
            rest@ == orig.subrange(0, rest@.len() as int),
            forall|j: int| 0 <= j < out@.len() ==> out@[j] == orig[orig.len() - 1 - j],
        decreases rest.len(),
    {
        let ghost k = rest@.len();
        match rest.pop() {
            Some(x) => {
                out.push(x);
            },
            None => {},
        }
        assert(rest@ =~= orig.subrange(0, rest@.len() as int));
    }
    proof {
        lemma_trees_of(out@);
        assert(trees_of(out@) =~= trees_of(orig).reverse());
    }
    out
}

/// Pushes `n` onto the innermost frame.
fn push_to_top_frame(stack: &mut Vec<Vec<BuildNode>>, n: BuildNode)
    requires
        old(stack)@.len() >= 1,
    ensures
        final(stack)@.len() == old(stack)@.len(),
        frames_of(final(stack)@) == push_to_top(frames_of(old(stack)@), tree_of(n)),
{
    let ghost before = stack@;
    let mut top = match stack.pop() {
        Some(f) => f,
        None => Vec::new(),
    };
    proof {
        lemma_trees_push(top@, n);
    }
    top.push(n);
    stack.push(top);
    assert(frames_of(stack@) =~= push_to_top(frames_of(before), tree_of(n)));
}

/// Merges the frames into one, outermost first.
fn collapse_frames(stack: Vec<Vec<BuildNode>>) -> (r: Vec<BuildNode>)
    requires
        stack@.len() >= 1,
    ensures
        trees_of(r@) == flatten(frames_of(stack@)),
{
    let ghost orig = frames_of(stack@);
    let mut stack = stack;
    while stack.len() > 1
        invariant
            stack@.len() >= 1,
            flatten(frames_of(stack@)) == flatten(orig),
        decreases stack.len(),
    {
        let ghost before = frames_of(stack@);
        let mut frame = match stack.pop() {
            Some(f) => f,
            None => Vec::new(),
        };
        let mut parent = match stack.pop() {
            Some(f) => f,
            None => Vec::new(),
        };
        let ghost pf = parent@;
        let ghost ff = frame@;
        parent.append(&mut frame);
        stack.push(parent);
        proof {
            lemma_trees_of(pf);
            lemma_trees_of(ff);
            lemma_trees_of(pf + ff);
            assert(trees_of(pf + ff) =~= trees_of(pf) + trees_of(ff));
            let after = frames_of(stack@);
            assert(after.drop_last() =~= before.drop_last().drop_last());
            assert(after.last() == trees_of(pf + ff));
            assert(before.last() == trees_of(ff));
            assert(before.drop_last().last() == trees_of(pf));
            assert(flatten(after) == flatten(after.drop_last()) + after.last());
            assert(flatten(before) == flatten(before.drop_last()) + before.last());
            assert(flatten(before.drop_last()) == flatten(before.drop_last().drop_last()) + before.drop_last().last());
            assert(flatten(after) =~= flatten(before));
        }
    }
    let ghost cur = frames_of(stack@);
    let root = match stack.pop() {
        Some(f) => f,
        None => Vec::new(),
    };
    proof {
        assert(flatten(cur) == flatten(cur.drop_last()) + cur.last());
        assert(cur.drop_last() =~= seq![]);
        assert(flatten(cur.drop_last()) =~= seq![]);
        assert(flatten(cur) =~= trees_of(root@));
    }
    root
}

} // verus!

verus! {

/// Rebuilds the group hierarchy from layer records read bottom-up: a closer
/// opens a group, the matching opener closes it. Unflagged `</Layer group>`
/// sentinels count as closers, and an unflagged zero-sized layer counts as an
/// opener when the groups would otherwise not close. An opener with no open
/// group becomes a childless group; groups left open are merged into the top
/// level. Never fails.
pub fn reconstruct_bottom_up(layers: Vec<FlatLayer>) -> (r: ReconstructionResult)
    ensures
        trees_of(r.nodes@) == recon_nodes(layer_views(layers@)),
        r.synthetic_opener_count == recon_final(layer_views(layers@)).synthetic_openers,
        r.orphan_opener_count == recon_final(layer_views(layers@)).orphan_openers,
        r.orphan_closer_count == recon_final(layer_views(layers@)).frames.len() - 1,
{
    let ghost ls = layer_views(layers@);
    let n = layers.len();
    let total_closers = count_layers(&layers, 0);
    let total_openers = count_layers(&layers, 1);
    let total_candidates = count_layers(&layers, 2);
    let mut seen_closers: usize = 0;
    let mut seen_openers: usize = 0;
    let mut seen_candidates: usize = 0;
    let mut stack: Vec<Vec<BuildNode>> = Vec::new();
    stack.push(Vec::new());
    let mut synthetic: usize = 0;
    let mut orphan: usize = 0;
    let mut i: usize = 0;
    assert(frames_of(stack@) =~= seq![seq![]]);
    while i < n
        invariant
            ls == layer_views(layers@),
            n == layers@.len(),
            i <= n,
            total_closers == count_kind(ls, 0, n as int, 0),
            total_openers == count_kind(ls, 0, n as int, 1),
            total_candidates == count_kind(ls, 0, n as int, 2),
            seen_closers == count_kind(ls, 0, i as int, 0),
            seen_openers == count_kind(ls, 0, i as int, 1),
            seen_candidates == count_kind(ls, 0, i as int, 2),
            1 <= stack@.len() <= i + 1,
            synthetic <= i,
            orphan <= i,
            recon_final(ls) == recon_run(
                ls,
                i as int,
                ReconState {
                    frames: frames_of(stack@),
                    synthetic_openers: synthetic as nat,
                    orphan_openers: orphan as nat,
                },
            ),
        decreases n - i,
    {
        let layer = &layers[i];
        assert(ls[i as int] == layer@);
        let closer = layer_counts_as(0, layer);
        let candidate = layer_counts_as(2, layer);
        proof {
            lemma_count_split(ls, 0, i as int, i as int + 1, 0);
            lemma_count_split(ls, 0, i as int, i as int + 1, 1);
            lemma_count_split(ls, 0, i as int, i as int + 1, 2);
            lemma_count_split(ls, 0, i as int + 1, n as int, 0);
            lemma_count_split(ls, 0, i as int + 1, n as int, 1);
            lemma_count_split(ls, 0, i as int + 1, n as int, 2);
            lemma_count_bound(ls, 0, i as int + 1, 0);
            lemma_count_bound(ls, 0, i as int + 1, 1);
            lemma_count_bound(ls, 0, i as int + 1, 2);
            assert(count_kind(ls, i as int, i as int + 1, 0) == if counts_as(0, ls[i as int]) { 1nat } else { 0nat });
            assert(count_kind(ls, i as int, i as int + 1, 1) == if counts_as(1, ls[i as int]) { 1nat } else { 0nat });
            assert(count_kind(ls, i as int, i as int + 1, 2) == if counts_as(2, ls[i as int]) { 1nat } else { 0nat });
        }
        if closer {
            seen_closers = seen_closers + 1;
        }
        if layer.group_opener {
            seen_openers = seen_openers + 1;
        }
        if candidate {
            seen_candidates = seen_candidates + 1;
        }
        let ghost st = ReconState {
            frames: frames_of(stack@),
            synthetic_openers: synthetic as nat,
            orphan_openers: orphan as nat,
        };
        if closer {
            stack.push(Vec::new());
            assert(frames_of(stack@) =~= st.frames.push(seq![]));
        } else {
            let depth = stack.len() as i128 + (total_closers - seen_closers) as i128 - (total_openers
                - seen_openers) as i128 - (total_candidates - seen_candidates) as i128;
            let opener = layer.group_opener || (candidate && depth > 1);
            let t = if opener && candidate {
                LayerType::Group
            } else {
                layer.layer_type
            };
            if opener && candidate {
                synthetic = synthetic + 1;
            }
            if !opener {
                push_to_top_frame(&mut stack, node_from_layer(layer, t));
            } else if stack.len() == 1 {
                push_to_top_frame(&mut stack, node_from_layer(layer, t));
                orphan = orphan + 1;
            } else {
                let children = match stack.pop() {
                    Some(f) => f,
                    None => Vec::new(),
                };
                assert(frames_of(stack@) =~= st.frames.drop_last());
                let ghost kids = children@;
                let reversed = reverse_nodes(children);
                let mut node = node_from_layer(layer, t);
                node.children = reversed;
                assert(tree_of(node) == node_of_layer(layer@, t, trees_of(kids).reverse()));
                push_to_top_frame(&mut stack, node);
            }
        }
        i = i + 1;
    }
    let orphan_closers = stack.len() - 1;
    let ghost fin = frames_of(stack@);
    let root = collapse_frames(stack);
    let nodes = reverse_nodes(root);
    ReconstructionResult {
        nodes,
        synthetic_opener_count: synthetic,
        orphan_opener_count: orphan,
        orphan_closer_count: orphan_closers,
    }
}

} // verus!
