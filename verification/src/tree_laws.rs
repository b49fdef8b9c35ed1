use vstd::prelude::*;

use crate::hierarchy::{
    count_kind, flatten, push_to_top, recon_final, recon_nodes, recon_run, recon_step, NodeView, ReconState,
};
use crate::psd::FlatLayerView;

verus! {

/// How many nodes a tree holds: its root and all its descendants.
pub open spec fn tree_size(n: NodeView) -> nat
    decreases n, 1nat,
{
    1 + forest_size(n.children)
}

/// How many nodes some trees hold.
pub open spec fn forest_size(s: Seq<NodeView>) -> nat
    decreases s, 0nat,
{
    if s.len() == 0 {
        0
    } else {
        forest_size(s.drop_last()) + tree_size(s.last())
    }
}

/// How many nodes the frames of a rebuild hold.
pub open spec fn frames_size(frames: Seq<Seq<NodeView>>) -> nat
    decreases frames.len(),
{
    if frames.len() == 0 {
        0
    } else {
        frames_size(frames.drop_last()) + forest_size(frames.last())
    }
}

proof fn lemma_forest_concat(a: Seq<NodeView>, b: Seq<NodeView>)
    ensures
        forest_size(a + b) == forest_size(a) + forest_size(b),
    decreases b.len(),
{
    if b.len() == 0 {
        assert(a + b =~= a);
    } else {
        lemma_forest_concat(a, b.drop_last());
        assert((a + b).drop_last() =~= a + b.drop_last());
        assert((a + b).last() == b.last());
    }
}

proof fn lemma_forest_reverse(s: Seq<NodeView>)
    ensures
        forest_size(s.reverse()) == forest_size(s),
    decreases s.len(),
{
    if s.len() > 0 {
        lemma_forest_reverse(s.drop_last());
        assert(s.reverse() =~= seq![s.last()] + s.drop_last().reverse());
        lemma_forest_concat(seq![s.last()], s.drop_last().reverse());
        assert(seq![s.last()].drop_last() =~= Seq::<NodeView>::empty());
        assert(forest_size(Seq::<NodeView>::empty()) == 0);
        assert(forest_size(seq![s.last()]) == tree_size(s.last()));
    }
}

proof fn lemma_flatten_size(frames: Seq<Seq<NodeView>>)
    ensures
        forest_size(flatten(frames)) == frames_size(frames),
    decreases frames.len(),
{
    if frames.len() > 0 {
        lemma_flatten_size(frames.drop_last());
        lemma_forest_concat(flatten(frames.drop_last()), frames.last());
    }
}

proof fn lemma_frames_push_empty(frames: Seq<Seq<NodeView>>)
    ensures
        frames_size(frames.push(seq![])) == frames_size(frames),
{
    assert(frames.push(seq![]).drop_last() =~= frames);
}

proof fn lemma_push_to_top(frames: Seq<Seq<NodeView>>, n: NodeView)
    requires
        frames.len() > 0,
    ensures
        frames_size(push_to_top(frames, n)) == frames_size(frames) + tree_size(n),
{
    let f = push_to_top(frames, n);
    assert(f.drop_last() =~= frames.drop_last());
    assert(f.last() == frames.last().push(n));
    assert(frames.last().push(n).drop_last() =~= frames.last());
}

/// One step of the rebuild adds a node for every layer but a closer, and
/// keeps at least one frame open.
proof fn lemma_step_size(ls: Seq<FlatLayerView>, i: int, st: ReconState)
    requires
        0 <= i < ls.len(),
        st.frames.len() > 0,
    ensures
        recon_step(ls, i, st).frames.len() > 0,
        frames_size(recon_step(ls, i, st).frames) == frames_size(st.frames) + if count_kind(ls, i, i + 1, 0) == 1 {
            0nat
        } else {
            1nat
        },
{
    assert(count_kind(ls, i, i, 0) == 0);
    let l = ls[i];
    let next = recon_step(ls, i, st);
    if crate::hierarchy::is_effective_closer(l) {
        lemma_frames_push_empty(st.frames);
    } else {
        let candidate = crate::hierarchy::is_synthetic_group_opener_candidate(l);
        let final_depth_if_skipped = st.frames.len() + count_kind(ls, i + 1, ls.len() as int, 0) - count_kind(
            ls,
            i + 1,
            ls.len() as int,
            1,
        ) - count_kind(ls, i + 1, ls.len() as int, 2);
        let opener = l.group_opener || (candidate && final_depth_if_skipped > 1);
        let t = if opener && candidate {
            crate::psd::LayerType::Group
        } else {
            l.layer_type
        };
        if !opener || st.frames.len() == 1 {
            let n = crate::hierarchy::node_of_layer(l, t, seq![]);
            lemma_push_to_top(st.frames, n);
            assert(forest_size(n.children) == 0);
        } else {
            let rest = st.frames.drop_last();
            let n = crate::hierarchy::node_of_layer(l, t, st.frames.last().reverse());
            lemma_push_to_top(rest, n);
            lemma_forest_reverse(st.frames.last());
            assert(tree_size(n) == 1 + forest_size(st.frames.last()));
        }
    }
}

proof fn lemma_run_size(ls: Seq<FlatLayerView>, i: int, st: ReconState)
    requires
        0 <= i <= ls.len(),
        st.frames.len() > 0,
    ensures
        recon_run(ls, i, st).frames.len() > 0,
        frames_size(recon_run(ls, i, st).frames) + count_kind(ls, i, ls.len() as int, 0) == frames_size(st.frames)
            + (ls.len() - i),
    decreases ls.len() - i,
{
    if i < ls.len() {
        lemma_step_size(ls, i, st);
        lemma_run_size(ls, i + 1, recon_step(ls, i, st));
        crate::hierarchy::lemma_count_split(ls, i, i + 1, ls.len() as int, 0);
        assert(count_kind(ls, i, i, 0) == 0);
        assert(count_kind(ls, i, i + 1, 0) <= 1);
    }
}

/// Rebuilding the hierarchy keeps every layer record but the group closers:
/// the rebuilt trees hold as many nodes as there are layers that do not
/// close a group.
pub proof fn law_rebuild_keeps_every_layer_but_closers(ls: Seq<FlatLayerView>)
    ensures
        forest_size(recon_nodes(ls)) + count_kind(ls, 0, ls.len() as int, 0) == ls.len(),
{
    let st0 = ReconState { frames: seq![seq![]], synthetic_openers: 0, orphan_openers: 0 };
    lemma_run_size(ls, 0, st0);
    assert(st0.frames.drop_last() =~= Seq::<Seq<NodeView>>::empty());
    assert(forest_size(Seq::<NodeView>::empty()) == 0);
    assert(frames_size(Seq::<Seq<NodeView>>::empty()) == 0);
    assert(frames_size(st0.frames) == 0);
    lemma_flatten_size(recon_final(ls).frames);
    lemma_forest_reverse(flatten(recon_final(ls).frames));
}

} // verus!
