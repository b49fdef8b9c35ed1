use vstd::prelude::*;

use crate::manifest::{Manifest, ManifestLayer};
use crate::models::{
    COMPONENT_BUTTON, COMPONENT_CONTAINER, COMPONENT_IMAGE_PLACEHOLDER, COMPONENT_MASK_GROUP,
    COMPONENT_SCROLL_VIEW, COMPONENT_TMP_TEXT,
};
use crate::planner::{
    TextOutcome, spec_component_of, spec_text_outcome, insert_by_stack, ordered_visible, records_children, records_of, visible_ids_of_layer,
    visible_ids_of_seq, visible_order, clips_of_seq, PlannedLayerView, identifier_chars, identifier_part, spec_sanitize_identifier,
};
use crate::report::{
    count_component, count_outcome, spec_component_summary, summary_entry, dedup, manifest_records, mapped_distinct, missing_from, record_ids, root_records, spec_unmapped,
    visible_distinct,
};

verus! {

proof fn lemma_insert_contains(cs: Seq<ManifestLayer>, s: Seq<int>, x: int)
    ensures
        insert_by_stack(cs, s, x).contains(x),
        forall|e: int| s.contains(e) ==> insert_by_stack(cs, s, x).contains(e),
    decreases s.len(),
{
    let r = insert_by_stack(cs, s, x);
    if s.len() == 0 {
        assert(r[0] == x);
    } else if cs[s.last()].stack_index <= cs[x].stack_index {
        assert(r[s.len() as int] == x);
        assert forall|e: int| s.contains(e) implies r.contains(e) by {
            let k = choose|k: int| 0 <= k < s.len() && s[k] == e;
            assert(r[k] == e);
        }
    } else {
        let t = s.drop_last();
        lemma_insert_contains(cs, t, x);
        let q = insert_by_stack(cs, t, x);
        assert(r == q.push(s.last()));
        let kx = choose|k: int| 0 <= k < q.len() && q[k] == x;
        assert(r[kx] == x);
        assert forall|e: int| s.contains(e) implies r.contains(e) by {
            let k = choose|k: int| 0 <= k < s.len() && s[k] == e;
            if k == s.len() - 1 {
                assert(r[q.len() as int] == e);
            } else {
                assert(t[k] == e);
                assert(t.contains(e));
                let kq = choose|kq: int| 0 <= kq < q.len() && q[kq] == e;
                assert(r[kq] == e);
            }
        }
    }
}

/// Every visible layer among `cs[..n]` has its index in `visible_order(cs, n)`.
proof fn lemma_visible_order_complete(cs: Seq<ManifestLayer>, n: int)
    requires
        0 <= n <= cs.len(),
    ensures
        forall|j: int| 0 <= j < n && cs[j].visible ==> visible_order(cs, n).contains(j),
    decreases n,
{
    if n > 0 {
        lemma_visible_order_complete(cs, n - 1);
        let prev = visible_order(cs, n - 1);
        if cs[n - 1].visible {
            lemma_insert_contains(cs, prev, n - 1);
            assert(visible_order(cs, n) == insert_by_stack(cs, prev, n - 1));
        } else {
            assert(visible_order(cs, n) == prev);
        }
        assert forall|j: int| 0 <= j < n && cs[j].visible implies visible_order(cs, n).contains(j) by {
            if j < n - 1 {
                assert(prev.contains(j));
            }
        }
    }
}

proof fn lemma_records_of_ids(l: ManifestLayer, is_root: bool, clips: Seq<Seq<char>>)
    ensures
        record_ids(records_of(l, is_root, clips)) == seq![l.id@] + record_ids(
            records_children(l.children@, ordered_visible(l.children@), ordered_visible(l.children@).len() as int, clips),
        ),
{
    let r = records_of(l, is_root, clips);
    let rest = records_children(l.children@, ordered_visible(l.children@), ordered_visible(l.children@).len() as int, clips);
    assert(r == r.subrange(0, 1) + rest);
    assert(record_ids(r) =~= seq![l.id@] + record_ids(rest));
}

/// An id among the visible ids of `cs` is among those of one visible layer.
proof fn lemma_visible_id_source(cs: Seq<ManifestLayer>, x: Seq<char>)
    requires
        visible_ids_of_seq(cs).contains(x),
    ensures
        exists|j: int| 0 <= j < cs.len() && cs[j].visible && #[trigger] visible_ids_of_layer(cs[j]).contains(x),
    decreases cs.len(),
{
    let a = visible_ids_of_seq(cs.drop_last());
    let b = visible_ids_of_layer(cs.last());
    assert(visible_ids_of_seq(cs) == a + b);
    let k = choose|k: int| 0 <= k < (a + b).len() && (a + b)[k] == x;
    if k < a.len() {
        assert(a[k] == x);
        lemma_visible_id_source(cs.drop_last(), x);
        let j = choose|j: int| 0 <= j < cs.drop_last().len() && cs.drop_last()[j].visible
            && visible_ids_of_layer(cs.drop_last()[j]).contains(x);
        assert(cs[j] == cs.drop_last()[j]);
    } else {
        assert(b[k - a.len()] == x);
        assert(b.len() > 0);
        assert(cs[cs.len() - 1] == cs.last());
        assert(visible_ids_of_layer(cs[cs.len() - 1]).contains(x));
    }
}

proof fn lemma_record_ids_concat(a: Seq<PlannedLayerView>, b: Seq<PlannedLayerView>)
    ensures
        record_ids(a + b) == record_ids(a) + record_ids(b),
{
    assert(record_ids(a + b) =~= record_ids(a) + record_ids(b));
}

/// The records of `cs[order[k]]` are among those of `records_children(cs, order, n)`.
proof fn lemma_records_children_include(
    cs: Seq<ManifestLayer>,
    order: Seq<int>,
    n: int,
    clips: Seq<Seq<char>>,
    k: int,
    x: Seq<char>,
)
    requires
        0 <= k < n <= order.len(),
        0 <= order[k] < cs.len(),
        record_ids(records_of(cs[order[k]], false, clips)).contains(x),
    ensures
        record_ids(records_children(cs, order, n, clips)).contains(x),
    decreases n,
{
    let prev = records_children(cs, order, n - 1, clips);
    if 0 <= order[n - 1] < cs.len() {
        let own = records_of(cs[order[n - 1]], false, clips);
        lemma_record_ids_concat(prev, own);
        if k == n - 1 {
            let i = choose|i: int| 0 <= i < record_ids(own).len() && record_ids(own)[i] == x;
            assert(record_ids(prev + own)[record_ids(prev).len() + i] == x);
        } else {
            lemma_records_children_include(cs, order, n - 1, clips, k, x);
            let i = choose|i: int| 0 <= i < record_ids(prev).len() && record_ids(prev)[i] == x;
            assert(record_ids(prev + own)[i] == x);
        }
    } else {
        lemma_records_children_include(cs, order, n - 1, clips, k, x);
    }
}

/// The id of a visible child's visible layer is among the records of
/// planning the parent's children.
proof fn lemma_children_covered(l: ManifestLayer, clips: Seq<Seq<char>>, x: Seq<char>)
    requires
        visible_ids_of_seq(l.children@).contains(x),
    ensures
        record_ids(
            records_children(l.children@, ordered_visible(l.children@), ordered_visible(l.children@).len() as int, clips),
        ).contains(x),
    decreases l, 0nat,
{
    let cs = l.children@;
    let ord = ordered_visible(cs);
    lemma_visible_id_source(cs, x);
    let j = choose|j: int| 0 <= j < cs.len() && cs[j].visible && #[trigger] visible_ids_of_layer(cs[j]).contains(x);
    lemma_visible_order_complete(cs, cs.len() as int);
    assert(ord.contains(j));
    let k = choose|k: int| 0 <= k < ord.len() && ord[k] == j;
    assert(decreases_to!(l => l.children));
    assert(decreases_to!(l.children => l.children@));
    assert(decreases_to!(l.children@ => l.children@[j]));
    lemma_layer_covered(cs[j], false, clips, x);
    lemma_records_children_include(cs, ord, ord.len() as int, clips, k, x);
}

/// Every visible id of a layer is the id of one of the records of planning
/// it.
proof fn lemma_layer_covered(l: ManifestLayer, is_root: bool, clips: Seq<Seq<char>>, x: Seq<char>)
    requires
        visible_ids_of_layer(l).contains(x),
    ensures
        record_ids(records_of(l, is_root, clips)).contains(x),
    decreases l, 1nat,
{
    let cs = l.children@;
    let rest = records_children(cs, ordered_visible(cs), ordered_visible(cs).len() as int, clips);
    lemma_records_of_ids(l, is_root, clips);
    let ids = record_ids(records_of(l, is_root, clips));
    if x == l.id@ {
        assert(ids[0] == x);
    } else {
        let v = visible_ids_of_layer(l);
        assert(v == seq![l.id@] + visible_ids_of_seq(cs));
        let i = choose|i: int| 0 <= i < v.len() && v[i] == x;
        assert(visible_ids_of_seq(cs)[i - 1] == x);
        lemma_children_covered(l, clips, x);
        let q = choose|q: int| 0 <= q < record_ids(rest).len() && record_ids(rest)[q] == x;
        assert(ids[1 + q] == x);
    }
}

proof fn lemma_root_records_include(
    cs: Seq<ManifestLayer>,
    order: Seq<int>,
    n: int,
    clips: Seq<Seq<char>>,
    k: int,
    x: Seq<char>,
)
    requires
        0 <= k < n <= order.len(),
        0 <= order[k] < cs.len(),
        record_ids(records_of(cs[order[k]], true, clips)).contains(x),
    ensures
        record_ids(root_records(cs, order, n, clips)).contains(x),
    decreases n,
{
    let prev = root_records(cs, order, n - 1, clips);
    if 0 <= order[n - 1] < cs.len() {
        let own = records_of(cs[order[n - 1]], true, clips);
        lemma_record_ids_concat(prev, own);
        if k == n - 1 {
            let i = choose|i: int| 0 <= i < record_ids(own).len() && record_ids(own)[i] == x;
            assert(record_ids(prev + own)[record_ids(prev).len() + i] == x);
        } else {
            lemma_root_records_include(cs, order, n - 1, clips, k, x);
            let i = choose|i: int| 0 <= i < record_ids(prev).len() && record_ids(prev)[i] == x;
            assert(record_ids(prev + own)[i] == x);
        }
    } else {
        let own = Seq::<PlannedLayerView>::empty();
        assert(root_records(cs, order, n, clips) == prev + own);
        lemma_record_ids_concat(prev, own);
        lemma_root_records_include(cs, order, n - 1, clips, k, x);
        assert(prev + own =~= prev);
    }
}

proof fn lemma_dedup_contains(s: Seq<Seq<char>>, x: Seq<char>)
    ensures
        dedup(s).contains(x) <==> s.contains(x),
    decreases s.len(),
{
    if s.len() > 0 {
        lemma_dedup_contains(s.drop_last(), x);
        let d = dedup(s.drop_last());
        if s.contains(x) {
            let i = choose|i: int| 0 <= i < s.len() && s[i] == x;
            if i < s.len() - 1 {
                assert(s.drop_last()[i] == x);
            }
        }
        if s.drop_last().contains(x) {
            let i = choose|i: int| 0 <= i < s.drop_last().len() && s.drop_last()[i] == x;
            assert(s[i] == x);
        }
        if !d.contains(s.last()) {
            assert(d.push(s.last())[d.len() as int] == s.last());
            if d.push(s.last()).contains(x) && x != s.last() {
                let i = choose|i: int| 0 <= i < d.push(s.last()).len() && d.push(s.last())[i] == x;
                assert(d[i] == x);
            }
            if d.contains(x) {
                let i = choose|i: int| 0 <= i < d.len() && d[i] == x;
                assert(d.push(s.last())[i] == x);
            }
        }
        assert(s[s.len() - 1] == s.last());
    }
}

proof fn lemma_missing_empty(v: Seq<Seq<char>>, m: Seq<Seq<char>>)
    requires
        forall|x: Seq<char>| v.contains(x) ==> m.contains(x),
    ensures
        missing_from(v, m).len() == 0,
    decreases v.len(),
{
    if v.len() > 0 {
        assert forall|x: Seq<char>| v.drop_last().contains(x) implies m.contains(x) by {
            let i = choose|i: int| 0 <= i < v.drop_last().len() && v.drop_last()[i] == x;
            assert(v[i] == x);
        }
        lemma_missing_empty(v.drop_last(), m);
        assert(v[v.len() - 1] == v.last());
    }
}

/// Planning maps every visible layer: no visible layer id is left out of
/// the plan, so the report's list of unmapped layers is always empty (and
/// its status is never `error`).
pub proof fn law_every_visible_layer_is_mapped(m: Manifest)
    ensures
        spec_unmapped(m).len() == 0,
        forall|x: Seq<char>| visible_distinct(m).contains(x) ==> mapped_distinct(m).contains(x),
{
    let cs = m.layers@;
    let ord = ordered_visible(cs);
    let clips = clips_of_seq(cs);
    let recs = manifest_records(m);
    assert forall|x: Seq<char>| visible_distinct(m).contains(x) implies mapped_distinct(m).contains(x) by {
        lemma_dedup_contains(visible_ids_of_seq(cs), x);
        lemma_visible_id_source(cs, x);
        let j = choose|j: int| 0 <= j < cs.len() && cs[j].visible && #[trigger] visible_ids_of_layer(cs[j]).contains(x);
        lemma_visible_order_complete(cs, cs.len() as int);
        assert(ord.contains(j));
        let k = choose|k: int| 0 <= k < ord.len() && ord[k] == j;
        lemma_layer_covered(cs[j], true, clips, x);
        lemma_root_records_include(cs, ord, ord.len() as int, clips, k, x);
        lemma_dedup_contains(record_ids(recs), x);
    }
    lemma_missing_empty(visible_distinct(m), mapped_distinct(m));
}


/// A record whose component is one the planner produces, with a text
/// outcome exactly when it is a text node.
pub open spec fn record_consistent(p: PlannedLayerView) -> bool {
    &&& (p.component == COMPONENT_BUTTON@ || p.component == COMPONENT_CONTAINER@ || p.component
        == COMPONENT_IMAGE_PLACEHOLDER@ || p.component == COMPONENT_MASK_GROUP@ || p.component
        == COMPONENT_SCROLL_VIEW@ || p.component == COMPONENT_TMP_TEXT@)
    &&& ((p.text != TextOutcome::NotText) <==> p.component == COMPONENT_TMP_TEXT@)
}

pub open spec fn all_consistent(r: Seq<PlannedLayerView>) -> bool {
    forall|i: int| 0 <= i < r.len() ==> record_consistent(#[trigger] r[i])
}

proof fn lemma_concat_consistent(a: Seq<PlannedLayerView>, b: Seq<PlannedLayerView>)
    requires
        all_consistent(a),
        all_consistent(b),
    ensures
        all_consistent(a + b),
{
    assert forall|i: int| 0 <= i < (a + b).len() implies record_consistent(#[trigger] (a + b)[i]) by {
        if i < a.len() {
            assert((a + b)[i] == a[i]);
        } else {
            assert((a + b)[i] == b[i - a.len()]);
        }
    }
}

proof fn lemma_children_consistent(cs: Seq<ManifestLayer>, order: Seq<int>, n: int, clips: Seq<Seq<char>>)
    ensures
        all_consistent(records_children(cs, order, n, clips)),
    decreases cs, n,
{
    if n > 0 && n <= order.len() {
        lemma_children_consistent(cs, order, n - 1, clips);
        if 0 <= order[n - 1] < cs.len() {
            assert(decreases_to!(cs => cs[order[n - 1]]));
            lemma_layer_consistent(cs[order[n - 1]], false, clips);
            lemma_concat_consistent(
                records_children(cs, order, n - 1, clips),
                records_of(cs[order[n - 1]], false, clips),
            );
        }
    }
}

proof fn lemma_layer_consistent(l: ManifestLayer, is_root: bool, clips: Seq<Seq<char>>)
    ensures
        all_consistent(records_of(l, is_root, clips)),
    decreases l, 1int,
{
    let comp = spec_component_of(l, is_root, clips);
    let own = seq![PlannedLayerView { layer_id: l.id@, component: comp, text: spec_text_outcome(l, comp) }];
    assert(record_consistent(own[0]));
    assert(all_consistent(own));
    assert(decreases_to!(l => l.children));
    assert(decreases_to!(l.children => l.children@));
    lemma_children_consistent(l.children@, ordered_visible(l.children@), ordered_visible(l.children@).len() as int, clips);
    lemma_concat_consistent(
        own,
        records_children(l.children@, ordered_visible(l.children@), ordered_visible(l.children@).len() as int, clips),
    );
}

proof fn lemma_roots_consistent(cs: Seq<ManifestLayer>, order: Seq<int>, n: int, clips: Seq<Seq<char>>)
    ensures
        all_consistent(root_records(cs, order, n, clips)),
    decreases n,
{
    if n > 0 && n <= order.len() {
        lemma_roots_consistent(cs, order, n - 1, clips);
        if 0 <= order[n - 1] < cs.len() {
            lemma_layer_consistent(cs[order[n - 1]], true, clips);
            lemma_concat_consistent(root_records(cs, order, n - 1, clips), records_of(cs[order[n - 1]], true, clips));
        } else {
            assert(root_records(cs, order, n, clips) =~= root_records(cs, order, n - 1, clips));
        }
    }
}

/// The total of the counts of a component summary.
pub open spec fn summary_total(s: Seq<(Seq<char>, nat)>) -> nat
    decreases s.len(),
{
    if s.len() == 0 {
        0
    } else {
        summary_total(s.drop_last()) + s.last().1
    }
}

proof fn lemma_summary_total_concat(a: Seq<(Seq<char>, nat)>, b: Seq<(Seq<char>, nat)>)
    ensures
        summary_total(a + b) == summary_total(a) + summary_total(b),
    decreases b.len(),
{
    if b.len() > 0 {
        lemma_summary_total_concat(a, b.drop_last());
        assert((a + b).drop_last() =~= a + b.drop_last());
    } else {
        assert(a + b =~= a);
    }
}

proof fn lemma_entry_total(r: Seq<PlannedLayerView>, c: Seq<char>)
    ensures
        summary_total(summary_entry(r, c)) == count_component(r, c),
{
    let e = summary_entry(r, c);
    if count_component(r, c) > 0 {
        assert(e.drop_last() =~= Seq::<(Seq<char>, nat)>::empty());
        assert(summary_total(e) == summary_total(e.drop_last()) + e.last().1);
    } else {
        assert(e =~= Seq::<(Seq<char>, nat)>::empty());
    }
}

/// The six component names start with six different letters.
proof fn lemma_component_initials()
    ensures
        COMPONENT_BUTTON@.len() > 0 && COMPONENT_BUTTON@[0] == 'B',
        COMPONENT_CONTAINER@.len() > 0 && COMPONENT_CONTAINER@[0] == 'C',
        COMPONENT_IMAGE_PLACEHOLDER@.len() > 0 && COMPONENT_IMAGE_PLACEHOLDER@[0] == 'I',
        COMPONENT_MASK_GROUP@.len() > 0 && COMPONENT_MASK_GROUP@[0] == 'M',
        COMPONENT_SCROLL_VIEW@.len() > 0 && COMPONENT_SCROLL_VIEW@[0] == 'S',
        COMPONENT_TMP_TEXT@.len() > 0 && COMPONENT_TMP_TEXT@[0] == 'T',
{
    reveal_strlit("Button");
    reveal_strlit("Container");
    reveal_strlit("ImagePlaceholder");
    reveal_strlit("MaskGroup");
    reveal_strlit("ScrollView");
    reveal_strlit("TMP_Text");
}

proof fn lemma_counts_partition(r: Seq<PlannedLayerView>)
    requires
        all_consistent(r),
    ensures
        count_component(r, COMPONENT_BUTTON@) + count_component(r, COMPONENT_CONTAINER@) + count_component(
            r,
            COMPONENT_IMAGE_PLACEHOLDER@,
        ) + count_component(r, COMPONENT_MASK_GROUP@) + count_component(r, COMPONENT_SCROLL_VIEW@)
            + count_component(r, COMPONENT_TMP_TEXT@) == r.len(),
        count_outcome(r, TextOutcome::Recovered) + count_outcome(r, TextOutcome::Fallback) == count_component(
            r,
            COMPONENT_TMP_TEXT@,
        ),
    decreases r.len(),
{
    if r.len() > 0 {
        assert forall|i: int| 0 <= i < r.drop_last().len() implies record_consistent(#[trigger] r.drop_last()[i]) by {
            assert(r.drop_last()[i] == r[i]);
        }
        lemma_counts_partition(r.drop_last());
        assert(record_consistent(r[r.len() - 1]));
        assert(r[r.len() - 1] == r.last());
        lemma_component_initials();
    }
}

/// The component summary of a plan accounts for every planned node, and
/// the text report for every text node: the summary's counts add up to the
/// number of planned layers, and the recovered and fallback text counts add
/// up to the number of `TMP_Text` nodes.
pub proof fn law_report_counts_add_up(m: Manifest)
    ensures
        summary_total(spec_component_summary(manifest_records(m))) == manifest_records(m).len(),
        count_outcome(manifest_records(m), TextOutcome::Recovered) + count_outcome(
            manifest_records(m),
            TextOutcome::Fallback,
        ) == count_component(manifest_records(m), COMPONENT_TMP_TEXT@),
{
    let cs = m.layers@;
    let ord = ordered_visible(cs);
    let r = manifest_records(m);
    lemma_roots_consistent(cs, ord, ord.len() as int, clips_of_seq(cs));
    lemma_counts_partition(r);
    let e1 = summary_entry(r, COMPONENT_BUTTON@);
    let e2 = summary_entry(r, COMPONENT_CONTAINER@);
    let e3 = summary_entry(r, COMPONENT_IMAGE_PLACEHOLDER@);
    let e4 = summary_entry(r, COMPONENT_MASK_GROUP@);
    let e5 = summary_entry(r, COMPONENT_SCROLL_VIEW@);
    let e6 = summary_entry(r, COMPONENT_TMP_TEXT@);
    lemma_entry_total(r, COMPONENT_BUTTON@);
    lemma_entry_total(r, COMPONENT_CONTAINER@);
    lemma_entry_total(r, COMPONENT_IMAGE_PLACEHOLDER@);
    lemma_entry_total(r, COMPONENT_MASK_GROUP@);
    lemma_entry_total(r, COMPONENT_SCROLL_VIEW@);
    lemma_entry_total(r, COMPONENT_TMP_TEXT@);
    lemma_summary_total_concat(e1, e2);
    lemma_summary_total_concat(e1 + e2, e3);
    lemma_summary_total_concat(e1 + e2 + e3, e4);
    lemma_summary_total_concat(e1 + e2 + e3 + e4, e5);
    lemma_summary_total_concat(e1 + e2 + e3 + e4 + e5, e6);
}

} // verus!

verus! {

/// A character that identifier sanitizing keeps as it is.
pub open spec fn is_identifier_char(c: char) -> bool {
    ('0' <= c && c <= '9') || ('a' <= c && c <= 'z') || c == '-' || c == '_'
}

proof fn lemma_identifier_chars_clean(s: Seq<char>)
    ensures
        forall|i: int| 0 <= i < identifier_chars(s).len() ==> is_identifier_char(#[trigger] identifier_chars(s)[i]),
    decreases s.len(),
{
    if s.len() > 0 {
        lemma_identifier_chars_clean(s.drop_last());
        let a = identifier_chars(s.drop_last());
        let b = identifier_part(s.last());
        assert forall|i: int| 0 <= i < identifier_chars(s).len() implies is_identifier_char(
            #[trigger] identifier_chars(s)[i],
        ) by {
            if i >= a.len() {
                assert(identifier_chars(s)[i] == b[i - a.len()]);
            } else {
                assert(identifier_chars(s)[i] == a[i]);
            }
        }
    }
}

proof fn lemma_identifier_chars_keep(s: Seq<char>)
    requires
        forall|i: int| 0 <= i < s.len() ==> is_identifier_char(#[trigger] s[i]),
    ensures
        identifier_chars(s) == s,
    decreases s.len(),
{
    if s.len() > 0 {
        lemma_identifier_chars_keep(s.drop_last());
        let c = s.last();
        assert(is_identifier_char(s[s.len() - 1]));
        assert(identifier_part(c) =~= seq![c]);
        assert(s.drop_last().push(c) =~= s);
        assert(s.drop_last() + seq![c] =~= s);
    } else {
        assert(identifier_chars(s) =~= s);
    }
}

/// An identifier made of anything is never empty, and sanitizing it again
/// leaves it as it is.
pub proof fn law_identifier_is_stable(s: Seq<char>)
    ensures
        spec_sanitize_identifier(s).len() > 0,
        spec_sanitize_identifier(spec_sanitize_identifier(s)) == spec_sanitize_identifier(s),
{
    reveal_strlit("document");
    lemma_identifier_chars_clean(s);
    let r = spec_sanitize_identifier(s);
    assert forall|i: int| 0 <= i < r.len() implies is_identifier_char(#[trigger] r[i]) by {
        if identifier_chars(s).len() == 0 {
            assert(r == "document"@);
        }
    }
    lemma_identifier_chars_keep(r);
}

} // verus!

verus! {

/// Whether a rectangle's local position is its position minus `parent`'s
/// (as `i32` arithmetic wraps), so that where the difference fits, local
/// position plus the parent's position is the position.
pub open spec fn placed_under(r: crate::models::PlanRect, parent_x: i32, parent_y: i32) -> bool {
    &&& r.local_x == (r.x - parent_x) as i32
    &&& r.local_y == (r.y - parent_y) as i32
    &&& (i32::MIN <= r.x - parent_x <= i32::MAX ==> r.local_x + parent_x == r.x)
    &&& (i32::MIN <= r.y - parent_y <= i32::MAX ==> r.local_y + parent_y == r.y)
}

proof fn lemma_children_placed(
    cs: Seq<ManifestLayer>,
    order: Seq<int>,
    n: int,
    rb: crate::manifest::ManifestBounds,
    clips: Seq<Seq<char>>,
)
    ensures
        forall|k: int|
            0 <= k < crate::planner::plan_children(cs, order, n, rb, clips).len() ==> placed_under(
                #[trigger] crate::planner::plan_children(cs, order, n, rb, clips)[k].rect,
                rb.x,
                rb.y,
            ),
    decreases n,
{
    if n > 0 && n <= order.len() {
        lemma_children_placed(cs, order, n - 1, rb, clips);
        let prev = crate::planner::plan_children(cs, order, n - 1, rb, clips);
        if 0 <= order[n - 1] < cs.len() {
            let c = cs[order[n - 1]];
            let node = crate::planner::spec_plan_node(c, rb, false, clips);
            assert(crate::planner::plan_children(cs, order, n, rb, clips) == prev.push(node));
            assert(node.rect == crate::planner::spec_plan_rect(crate::planner::spec_resolve_bounds(c), rb));
            assert(placed_under(node.rect, rb.x, rb.y));
        } else {
            assert(crate::planner::plan_children(cs, order, n, rb, clips) == prev);
        }
    }
}

/// Every plan node lies at its position relative to its parent's: its
/// local position is its position minus the parent's (the document's
/// origin for a top-level node), and so, where no `i32` wraps, local
/// position plus the parent's position gives its position.
pub proof fn law_local_position_is_relative_to_parent(
    l: ManifestLayer,
    parent: crate::manifest::ManifestBounds,
    is_root: bool,
    clips: Seq<Seq<char>>,
)
    ensures
        placed_under(crate::planner::spec_plan_node(l, parent, is_root, clips).rect, parent.x, parent.y),
        forall|k: int|
            0 <= k < crate::planner::spec_plan_node(l, parent, is_root, clips).children.len() ==> placed_under(
                #[trigger] crate::planner::spec_plan_node(l, parent, is_root, clips).children[k].rect,
                crate::planner::spec_plan_node(l, parent, is_root, clips).rect.x,
                crate::planner::spec_plan_node(l, parent, is_root, clips).rect.y,
            ),
{
    let rb = crate::planner::spec_resolve_bounds(l);
    let order = ordered_visible(l.children@);
    lemma_children_placed(l.children@, order, order.len() as int, rb, clips);
}

/// The top-level nodes of a plan lie at their own position relative to the
/// document's origin.
pub proof fn law_top_level_nodes_are_placed_in_the_document(m: Manifest)
    ensures
        forall|k: int|
            0 <= k < crate::report::manifest_nodes(m).len() ==> placed_under(
                #[trigger] crate::report::manifest_nodes(m)[k].rect,
                0,
                0,
            ),
{
    let order = ordered_visible(m.layers@);
    lemma_roots_placed(m.layers@, order, order.len() as int, crate::report::document_rect(m), clips_of_seq(m.layers@));
}

proof fn lemma_roots_placed(
    cs: Seq<ManifestLayer>,
    order: Seq<int>,
    n: int,
    root: crate::manifest::ManifestBounds,
    clips: Seq<Seq<char>>,
)
    ensures
        forall|k: int|
            0 <= k < crate::report::root_nodes(cs, order, n, root, clips).len() ==> placed_under(
                #[trigger] crate::report::root_nodes(cs, order, n, root, clips)[k].rect,
                root.x,
                root.y,
            ),
    decreases n,
{
    if n > 0 && n <= order.len() {
        lemma_roots_placed(cs, order, n - 1, root, clips);
    }
}

/// A plan's status is `ok` exactly when every visible layer is mapped,
/// nothing asks for review and the manifest carries no warning; `warning`
/// exactly when every visible layer is mapped but something asks for
/// review or the manifest warns; `error` exactly when a visible layer is
/// left unmapped.
pub proof fn law_plan_status(m: Manifest)
    ensures
        ({
            let s = crate::report::spec_plan_status(
                spec_unmapped(m).len(),
                crate::report::manifest_reviews(m).len(),
                m.warnings@.len(),
            );
            &&& s == "ok"@ <==> (spec_unmapped(m).len() == 0 && crate::report::manifest_reviews(m).len() == 0
                && m.warnings@.len() == 0)
            &&& s == "warning"@ <==> (spec_unmapped(m).len() == 0 && (crate::report::manifest_reviews(m).len() > 0
                || m.warnings@.len() > 0))
            &&& s == "error"@ <==> spec_unmapped(m).len() > 0
        }),
{
    reveal_strlit("ok");
    reveal_strlit("warning");
    reveal_strlit("error");
    assert("ok"@ != "warning"@ && "ok"@ != "error"@ && "warning"@ != "error"@) by {
        assert("ok"@.len() != "warning"@.len());
        assert("ok"@.len() != "error"@.len());
        assert("warning"@.len() != "error"@.len());
    }
}

} // verus!
