use vstd::prelude::*;

use crate::hierarchy::str_views;
use crate::manifest::{Manifest, ManifestBounds, ManifestLayer, ManifestWarning};
use crate::models::{
    ComponentCount, CoverageReport, PlanDocument, PlanNode, PlanNodeView, ReviewItemView, SourceBundle,
    TextRecoveryReport, UiPlan, ValidationReport, COMPONENT_BUTTON, COMPONENT_CONTAINER,
    COMPONENT_IMAGE_PLACEHOLDER, COMPONENT_MASK_GROUP, COMPONENT_SCROLL_VIEW, COMPONENT_TMP_TEXT,
    PLAN_VERSION, plan_views, review_views,
};
use crate::planner::{
    collect_clip_targets, collect_visible_layer_ids, derive_document_id, list_contains, ordered_visible,
    plan_layer, planned_views, records_of, reviews_of, spec_derive_document_id, spec_plan_node,
    visible_children_order, visible_ids_of_seq, PlannedLayer, PlannedLayerView, PlannerState, TextOutcome,
    clips_of_seq,
};
use crate::text::{chars_of, owned, push_decimal, push_replacing, replace_char};
use crate::validation::{plan_issues, validate_plan, OrchestratorError};

verus! {

/// The report status of a plan with every visible layer mapped.
pub const UNITY_APPLY_PENDING: &'static str = "pending_unity_apply";

/// `s` keeping only the first occurrence of each element.
pub open spec fn dedup(s: Seq<Seq<char>>) -> Seq<Seq<char>>
    decreases s.len(),
{
    if s.len() == 0 {
        seq![]
    } else {
        let d = dedup(s.drop_last());
        if d.contains(s.last()) {
            d
        } else {
            d.push(s.last())
        }
    }
}

/// The layer ids of planned-layer records.
pub open spec fn record_ids(r: Seq<PlannedLayerView>) -> Seq<Seq<char>> {
    r.map_values(|p: PlannedLayerView| p.layer_id)
}

/// How many records are of component `c`.
pub open spec fn count_component(r: Seq<PlannedLayerView>, c: Seq<char>) -> nat
    decreases r.len(),
{
    if r.len() == 0 {
        0
    } else {
        count_component(r.drop_last(), c) + if r.last().component == c { 1nat } else { 0nat }
    }
}

/// How many records have text outcome `o`.
pub open spec fn count_outcome(r: Seq<PlannedLayerView>, o: TextOutcome) -> nat
    decreases r.len(),
{
    if r.len() == 0 {
        0
    } else {
        count_outcome(r.drop_last(), o) + if r.last().text == o { 1nat } else { 0nat }
    }
}

/// The entry of the component summary for `c`: none when no record has it.
pub open spec fn summary_entry(r: Seq<PlannedLayerView>, c: Seq<char>) -> Seq<(Seq<char>, nat)> {
    if count_component(r, c) > 0 {
        seq![(c, count_component(r, c))]
    } else {
        seq![]
    }
}

/// How many records have each component, components in ascending order.
pub open spec fn spec_component_summary(r: Seq<PlannedLayerView>) -> Seq<(Seq<char>, nat)> {
    summary_entry(r, COMPONENT_BUTTON@) + summary_entry(r, COMPONENT_CONTAINER@) + summary_entry(
        r,
        COMPONENT_IMAGE_PLACEHOLDER@,
    ) + summary_entry(r, COMPONENT_MASK_GROUP@) + summary_entry(r, COMPONENT_SCROLL_VIEW@) + summary_entry(
        r,
        COMPONENT_TMP_TEXT@,
    )
}

/// The views of component counts.
pub open spec fn summary_views(s: Seq<ComponentCount>) -> Seq<(Seq<char>, nat)> {
    s.map_values(|c: ComponentCount| (c.component@, c.count as nat))
}

/// The elements of `v` that `m` does not hold, in order.
pub open spec fn missing_from(v: Seq<Seq<char>>, m: Seq<Seq<char>>) -> Seq<Seq<char>>
    decreases v.len(),
{
    if v.len() == 0 {
        seq![]
    } else {
        let prev = missing_from(v.drop_last(), m);
        if m.contains(v.last()) {
            prev
        } else {
            prev.push(v.last())
        }
    }
}

/// The records of the top-level layers `cs[order[k]]`, `k < n`, planned as roots.
pub open spec fn root_records(cs: Seq<ManifestLayer>, order: Seq<int>, n: int, clips: Seq<Seq<char>>) -> Seq<PlannedLayerView>
    decreases n,
{
    if n <= 0 || n > order.len() {
        seq![]
    } else {
        root_records(cs, order, n - 1, clips) + if 0 <= order[n - 1] < cs.len() {
            records_of(cs[order[n - 1]], true, clips)
        } else {
            seq![]
        }
    }
}

/// The review items of the top-level layers `cs[order[k]]`, `k < n`.
pub open spec fn root_reviews(cs: Seq<ManifestLayer>, order: Seq<int>, n: int, clips: Seq<Seq<char>>) -> Seq<ReviewItemView>
    decreases n,
{
    if n <= 0 || n > order.len() {
        seq![]
    } else {
        root_reviews(cs, order, n - 1, clips) + if 0 <= order[n - 1] < cs.len() {
            reviews_of(cs[order[n - 1]], true, clips)
        } else {
            seq![]
        }
    }
}

/// The plan nodes of the top-level layers `cs[order[k]]`, `k < n`, in a
/// document of rectangle `root`.
pub open spec fn root_nodes(
    cs: Seq<ManifestLayer>,
    order: Seq<int>,
    n: int,
    root: ManifestBounds,
    clips: Seq<Seq<char>>,
) -> Seq<PlanNodeView>
    decreases n,
{
    if n <= 0 || n > order.len() {
        seq![]
    } else {
        let prev = root_nodes(cs, order, n - 1, root, clips);
        if 0 <= order[n - 1] < cs.len() {
            prev.push(spec_plan_node(cs[order[n - 1]], root, true, clips))
        } else {
            prev
        }
    }
}

/// The rectangle of a whole document.
pub open spec fn document_rect(m: Manifest) -> ManifestBounds {
    ManifestBounds { x: 0, y: 0, width: m.document.width, height: m.document.height }
}

/// Everything planning a manifest's visible top-level layers records.
pub open spec fn manifest_records(m: Manifest) -> Seq<PlannedLayerView> {
    let order = ordered_visible(m.layers@);
    root_records(m.layers@, order, order.len() as int, clips_of_seq(m.layers@))
}

/// The review items of a manifest's plan.
pub open spec fn manifest_reviews(m: Manifest) -> Seq<ReviewItemView> {
    let order = ordered_visible(m.layers@);
    root_reviews(m.layers@, order, order.len() as int, clips_of_seq(m.layers@))
}

/// The plan nodes of a manifest: its visible top-level layers by stack index.
pub open spec fn manifest_nodes(m: Manifest) -> Seq<PlanNodeView> {
    let order = ordered_visible(m.layers@);
    root_nodes(m.layers@, order, order.len() as int, document_rect(m), clips_of_seq(m.layers@))
}

/// The distinct ids of a manifest's visible layers.
pub open spec fn visible_distinct(m: Manifest) -> Seq<Seq<char>> {
    dedup(visible_ids_of_seq(m.layers@))
}

/// The distinct ids of the layers a manifest's plan maps.
pub open spec fn mapped_distinct(m: Manifest) -> Seq<Seq<char>> {
    dedup(record_ids(manifest_records(m)))
}

/// The visible layer ids that the plan leaves unmapped.
pub open spec fn spec_unmapped(m: Manifest) -> Seq<Seq<char>> {
    missing_from(visible_distinct(m), mapped_distinct(m))
}

/// `ok` when everything is mapped and nothing asks for review or warns;
/// `warning` when everything is mapped; `error` otherwise.
pub open spec fn spec_plan_status(unmapped: nat, reviews: nat, warnings: nat) -> Seq<char> {
    if unmapped == 0 && reviews == 0 && warnings == 0 {
        "ok"@
    } else if unmapped == 0 {
        "warning"@
    } else {
        "error"@
    }
}

/// `generated_at` of a plan made `secs` seconds after the Unix epoch.
pub open spec fn spec_generated_at(secs: u64) -> Seq<char> {
    "unix:"@ + crate::text::decimal(secs as nat)
}

/// A warning seen as its code and message.
pub open spec fn warning_views(s: Seq<ManifestWarning>) -> Seq<(Seq<char>, Seq<char>)> {
    s.map_values(|w: ManifestWarning| (w.code@, w.message@))
}

/// The distinct elements of `ids`, first occurrences first.
pub fn dedup_ids(ids: &Vec<String>) -> (r: Vec<String>)
    ensures
        str_views(r@) == dedup(str_views(ids@)),
{
    let mut out: Vec<String> = Vec::new();
    let mut i: usize = 0;
    while i < ids.len()
        invariant
            i <= ids@.len(),
            str_views(out@) == dedup(str_views(ids@.subrange(0, i as int))),
        decreases ids.len() - i,
    {
        let ghost prev = str_views(out@);
        assert(str_views(ids@.subrange(0, i + 1)).drop_last() =~= str_views(ids@.subrange(0, i as int)));
        assert(str_views(ids@.subrange(0, i + 1)).last() == ids@[i as int]@);
        if !list_contains(&out, ids[i].as_str()) {
            out.push(ids[i].clone());
            assert(str_views(out@) =~= prev.push(ids@[i as int]@));
        }
        i = i + 1;
    }
    assert(ids@.subrange(0, i as int) =~= ids@);
    out
}

/// The layer ids of planned-layer records, in order.
fn planned_ids(planned: &Vec<PlannedLayer>) -> (r: Vec<String>)
    ensures
        str_views(r@) == record_ids(planned_views(planned@)),
{
    let mut out: Vec<String> = Vec::new();
    let mut i: usize = 0;
    while i < planned.len()
        invariant
            i <= planned@.len(),
            out@.len() == i,
            forall|k: int| 0 <= k < i ==> (#[trigger] out@[k])@ == planned@[k].layer_id@,
        decreases planned.len() - i,
    {
        out.push(planned[i].layer_id.clone());
        i = i + 1;
    }
    assert(str_views(out@) =~= record_ids(planned_views(planned@)));
    out
}

/// How many records are of component `c`.
fn count_planned_component(planned: &Vec<PlannedLayer>, c: &str) -> (r: usize)
    ensures
        r == count_component(planned_views(planned@), c@),
{
    let ghost v = planned_views(planned@);
    let mut n: usize = 0;
    let mut i: usize = 0;
    while i < planned.len()
        invariant
            v == planned_views(planned@),
            i <= planned@.len(),
            n <= i,
            n == count_component(v.subrange(0, i as int), c@),
        decreases planned.len() - i,
    {
        assert(v.subrange(0, i + 1).drop_last() =~= v.subrange(0, i as int));
        if crate::photoshop::str_eq(planned[i].component.as_str(), c) {
            n = n + 1;
        }
        i = i + 1;
    }
    assert(v.subrange(0, i as int) =~= v);
    n
}

/// How many records have text outcome `o`.
fn count_planned_outcome(planned: &Vec<PlannedLayer>, o: TextOutcome) -> (r: usize)
    ensures
        r == count_outcome(planned_views(planned@), o),
{
    let ghost v = planned_views(planned@);
    let mut n: usize = 0;
    let mut i: usize = 0;
    while i < planned.len()
        invariant
            v == planned_views(planned@),
            i <= planned@.len(),
            n <= i,
            n == count_outcome(v.subrange(0, i as int), o),
        decreases planned.len() - i,
    {
        assert(v.subrange(0, i + 1).drop_last() =~= v.subrange(0, i as int));
        if planned[i].text == o {
            n = n + 1;
        }
        i = i + 1;
    }
    assert(v.subrange(0, i as int) =~= v);
    n
}

fn push_summary_entry(out: &mut Vec<ComponentCount>, planned: &Vec<PlannedLayer>, c: &'static str)
    ensures
        summary_views(final(out)@) == summary_views(old(out)@) + summary_entry(planned_views(planned@), c@),
{
    let n = count_planned_component(planned, c);
    let ghost prev = summary_views(out@);
    if n > 0 {
        out.push(ComponentCount { component: owned(c), count: n });
        assert(summary_views(out@) =~= prev + summary_entry(planned_views(planned@), c@));
    } else {
        assert(summary_views(out@) =~= prev + summary_entry(planned_views(planned@), c@));
    }
}

/// How many planned layers have each component, in ascending component order.
pub fn component_summary(planned: &Vec<PlannedLayer>) -> (r: Vec<ComponentCount>)
    ensures
        summary_views(r@) == spec_component_summary(planned_views(planned@)),
{
    let mut out: Vec<ComponentCount> = Vec::new();
    assert(summary_views(out@) =~= Seq::<(Seq<char>, nat)>::empty());
    push_summary_entry(&mut out, planned, COMPONENT_BUTTON);
    push_summary_entry(&mut out, planned, COMPONENT_CONTAINER);
    push_summary_entry(&mut out, planned, COMPONENT_IMAGE_PLACEHOLDER);
    push_summary_entry(&mut out, planned, COMPONENT_MASK_GROUP);
    push_summary_entry(&mut out, planned, COMPONENT_SCROLL_VIEW);
    push_summary_entry(&mut out, planned, COMPONENT_TMP_TEXT);
    let ghost r = planned_views(planned@);
    assert(summary_views(out@) =~= spec_component_summary(r));
    out
}

/// The elements of `visible` that `mapped` does not hold, in order.
pub fn unmapped_ids(visible: &Vec<String>, mapped: &Vec<String>) -> (r: Vec<String>)
    ensures
        str_views(r@) == missing_from(str_views(visible@), str_views(mapped@)),
{
    let mut out: Vec<String> = Vec::new();
    let mut i: usize = 0;
    while i < visible.len()
        invariant
            i <= visible@.len(),
            str_views(out@) == missing_from(str_views(visible@.subrange(0, i as int)), str_views(mapped@)),
        decreases visible.len() - i,
    {
        let ghost prev = str_views(out@);
        assert(str_views(visible@.subrange(0, i + 1)).drop_last() =~= str_views(visible@.subrange(0, i as int)));
        assert(str_views(visible@.subrange(0, i + 1)).last() == visible@[i as int]@);
        if !list_contains(mapped, visible[i].as_str()) {
            out.push(visible[i].clone());
            assert(str_views(out@) =~= prev.push(visible@[i as int]@));
        }
        i = i + 1;
    }
    assert(visible@.subrange(0, i as int) =~= visible@);
    out
}

/// The status of a plan (see `spec_plan_status`).
pub fn plan_status(unmapped: usize, reviews: usize, warnings: usize) -> (r: &'static str)
    ensures
        r@ == spec_plan_status(unmapped as nat, reviews as nat, warnings as nat),
        r@ == "ok"@ <==> (unmapped == 0 && reviews == 0 && warnings == 0),
{
    proof {
        reveal_strlit("ok");
        reveal_strlit("warning");
        reveal_strlit("error");
        assert("ok"@.len() != "warning"@.len() && "ok"@.len() != "error"@.len());
    }
    if unmapped == 0 && reviews == 0 && warnings == 0 {
        "ok"
    } else if unmapped == 0 {
        "warning"
    } else {
        "error"
    }
}

/// A copy of a list of warnings.
pub fn clone_warnings(w: &Vec<ManifestWarning>) -> (r: Vec<ManifestWarning>)
    ensures
        warning_views(r@) == warning_views(w@),
{
    let mut out: Vec<ManifestWarning> = Vec::new();
    let mut i: usize = 0;
    while i < w.len()
        invariant
            i <= w@.len(),
            out@.len() == i,
            forall|k: int| 0 <= k < i ==> (#[trigger] out@[k]).code@ == w@[k].code@ && out@[k].message@ == w@[k].message@,
        decreases w.len() - i,
    {
        out.push(ManifestWarning { code: w[i].code.clone(), message: w[i].message.clone() });
        i = i + 1;
    }
    assert(warning_views(out@) =~= warning_views(w@));
    out
}

/// `s` with every backslash turned into a forward slash.
pub fn to_forward_slashes(s: &str) -> (r: String)
    ensures
        r@ == replace_char(s@, '\\', "/"@),
{
    let v = chars_of(s);
    let mut out = String::new();
    push_replacing(&mut out, &v, 0, '\\', "/");
    assert(v@.subrange(0, v@.len() as int) =~= s@);
    out
}

/// `s` with every `from` replaced by `to`.
pub fn replace_all_char(s: &str, from: char, to: &str) -> (r: String)
    ensures
        r@ == replace_char(s@, from, to@),
{
    let v = chars_of(s);
    let mut out = String::new();
    push_replacing(&mut out, &v, 0, from, to);
    assert(v@.subrange(0, v@.len() as int) =~= s@);
    out
}

/// `unix:` followed by the seconds since the Unix epoch.
pub fn generated_at(secs: u64) -> (r: String)
    ensures
        r@ == spec_generated_at(secs),
{
    let mut s = owned("unix:");
    push_decimal(&mut s, secs);
    s
}

/// Plans the visible top-level layers of a manifest in stack order,
/// gathering review items and records in `state`.
fn plan_roots(manifest: &Manifest, clips: &Vec<String>, state: &mut PlannerState) -> (r: Vec<PlanNode>)
    requires
        str_views(clips@) == clips_of_seq(manifest.layers@),
        old(state).planned@.len() == 0,
        old(state).review_items@.len() == 0,
    ensures
        plan_views(r@) == manifest_nodes(*manifest),
        planned_views(final(state).planned@) == manifest_records(*manifest),
        review_views(final(state).review_items@) == manifest_reviews(*manifest),
{
    let ghost cl = str_views(clips@);
    let root = ManifestBounds { x: 0, y: 0, width: manifest.document.width, height: manifest.document.height };
    let order = visible_children_order(&manifest.layers);
    let ghost ord = ordered_visible(manifest.layers@);
    let mut nodes: Vec<PlanNode> = Vec::new();
    let mut k: usize = 0;
    assert(planned_views(state.planned@) =~= Seq::<PlannedLayerView>::empty());
    assert(review_views(state.review_items@) =~= Seq::<ReviewItemView>::empty());
    while k < order.len()
        invariant
            ord == ordered_visible(manifest.layers@),
            order@.map_values(|i: usize| i as int) == ord,
            forall|j: int| 0 <= j < order@.len() ==> #[trigger] order@[j] < manifest.layers@.len(),
            k <= order@.len(),
            cl == str_views(clips@),
            root == document_rect(*manifest),
            plan_views(nodes@) == root_nodes(manifest.layers@, ord, k as int, root, cl),
            planned_views(state.planned@) == root_records(manifest.layers@, ord, k as int, cl),
            review_views(state.review_items@) == root_reviews(manifest.layers@, ord, k as int, cl),
        decreases order.len() - k,
    {
        let idx = order[k];
        assert(ord[k as int] == idx as int);
        let node = plan_layer(&manifest.layers[idx], &root, true, clips, state);
        let ghost before = nodes@;
        nodes.push(node);
        proof {
            assert(nodes@.drop_last() =~= before);
        }
        k = k + 1;
        proof {
            assert(planned_views(state.planned@) =~= root_records(manifest.layers@, ord, k as int, cl));
            assert(review_views(state.review_items@) =~= root_reviews(manifest.layers@, ord, k as int, cl));
        }
    }
    nodes
}

/// The validation report of a plan (see the spec functions above).
fn build_report(
    manifest: &Manifest,
    state: &PlannerState,
) -> (r: ValidationReport)
    requires
        planned_views(state.planned@) == manifest_records(*manifest),
        review_views(state.review_items@) == manifest_reviews(*manifest),
    ensures
        r.coverage.visible_layers == visible_distinct(*manifest).len(),
        r.coverage.mapped_layers == mapped_distinct(*manifest).len(),
        str_views(r.coverage.unmapped_layer_ids@) == spec_unmapped(*manifest),
        r.plan_status@ == spec_plan_status(
            spec_unmapped(*manifest).len(),
            manifest_reviews(*manifest).len(),
            manifest.warnings@.len(),
        ),
        r.text_recovery.total_text_nodes == count_outcome(manifest_records(*manifest), TextOutcome::Recovered),
        r.text_recovery.recovered_from_manifest == count_outcome(manifest_records(*manifest), TextOutcome::Recovered),
        r.text_recovery.recovered_from_heuristic == 0,
        r.text_recovery.placeholder_fallbacks == count_outcome(manifest_records(*manifest), TextOutcome::Fallback),
        summary_views(r.component_summary@) == spec_component_summary(manifest_records(*manifest)),
        r.review_count == manifest_reviews(*manifest).len(),
        r.unity_apply_status@ == UNITY_APPLY_PENDING@,
        warning_views(r.warnings@) == warning_views(manifest.warnings@),
{
    let mut visible: Vec<String> = Vec::new();
    collect_visible_layer_ids(&manifest.layers, &mut visible);
    assert(str_views(visible@) =~= visible_ids_of_seq(manifest.layers@));
    let visible = dedup_ids(&visible);
    let mapped = dedup_ids(&planned_ids(&state.planned));
    let unmapped = unmapped_ids(&visible, &mapped);
    let recovered = count_planned_outcome(&state.planned, TextOutcome::Recovered);
    let fallbacks = count_planned_outcome(&state.planned, TextOutcome::Fallback);
    proof {
        assert(review_views(state.review_items@).len() == state.review_items@.len());
        assert(str_views(unmapped@).len() == unmapped@.len());
        assert(str_views(visible@).len() == visible@.len());
        assert(str_views(mapped@).len() == mapped@.len());
    }
    let status = plan_status(unmapped.len(), state.review_items.len(), manifest.warnings.len());
    ValidationReport {
        plan_status: owned(status),
        coverage: CoverageReport {
            visible_layers: visible.len(),
            mapped_layers: mapped.len(),
            unmapped_layer_ids: unmapped,
        },
        text_recovery: TextRecoveryReport {
            total_text_nodes: recovered,
            recovered_from_manifest: recovered,
            recovered_from_heuristic: 0,
            placeholder_fallbacks: fallbacks,
        },
        component_summary: component_summary(&state.planned),
        review_count: state.review_items.len(),
        unity_apply_status: owned(UNITY_APPLY_PENDING),
        warnings: clone_warnings(&manifest.warnings),
    }
}

/// Plans a bundle: one node per visible top-level layer in stack order,
/// each with its visible descendants, and a validation report. `bundle_dir`
/// and `manifest_path` are the bundle's paths as text, `bundle_name` the
/// last component of the bundle directory (when it has one that is
/// Unicode), `generated_secs` the seconds since the Unix epoch. The plan is
/// refused when `validate_plan` finds something wrong with it.
pub fn build_plan(
    manifest: &Manifest,
    bundle_dir: &str,
    manifest_path: &str,
    bundle_name: Option<&str>,
    generated_secs: u64,
) -> (r: Result<(UiPlan, ValidationReport), OrchestratorError>)
    ensures
        r is Ok <==> plan_issues(
            PLAN_VERSION@,
            spec_derive_document_id(
                match bundle_name {
                    Some(n) => Some(n@),
                    None => None,
                },
            ),
            manifest_nodes(*manifest),
        ).len() == 0,
        r is Err ==> r matches Err(OrchestratorError::PlanValidation(_)),
        r matches Ok((plan, report)) ==> {
            &&& plan.plan_version@ == PLAN_VERSION@
            &&& plan.source_bundle.bundle_dir@ == replace_char(bundle_dir@, '\\', "/"@)
            &&& plan.source_bundle.manifest_path@ == replace_char(manifest_path@, '\\', "/"@)
            &&& plan.source_bundle.preview_path@ == manifest.document.preview.path@
            &&& plan.source_bundle.document_id@ == spec_derive_document_id(
                match bundle_name {
                    Some(n) => Some(n@),
                    None => None,
                },
            )
            &&& plan.source_bundle.generated_at@ == spec_generated_at(generated_secs)
            &&& plan.document.width == manifest.document.width
            &&& plan.document.height == manifest.document.height
            &&& plan.document.preview_path@ == manifest.document.preview.path@
            &&& plan_views(plan.nodes@) == manifest_nodes(*manifest)
            &&& review_views(plan.review_items@) == manifest_reviews(*manifest)
            &&& warning_views(plan.warnings@) == warning_views(manifest.warnings@)
            &&& report.coverage.visible_layers == visible_distinct(*manifest).len()
            &&& report.coverage.mapped_layers == mapped_distinct(*manifest).len()
            &&& str_views(report.coverage.unmapped_layer_ids@) == spec_unmapped(*manifest)
            &&& report.plan_status@ == spec_plan_status(
                spec_unmapped(*manifest).len(),
                manifest_reviews(*manifest).len(),
                manifest.warnings@.len(),
            )
            &&& (report.plan_status@ == "ok"@ <==> (spec_unmapped(*manifest).len() == 0
                && manifest_reviews(*manifest).len() == 0 && manifest.warnings@.len() == 0))
            &&& report.text_recovery.total_text_nodes == count_outcome(
                manifest_records(*manifest),
                TextOutcome::Recovered,
            )
            &&& report.text_recovery.recovered_from_manifest == count_outcome(
                manifest_records(*manifest),
                TextOutcome::Recovered,
            )
            &&& report.text_recovery.recovered_from_heuristic == 0
            &&& report.text_recovery.placeholder_fallbacks == count_outcome(
                manifest_records(*manifest),
                TextOutcome::Fallback,
            )
            &&& summary_views(report.component_summary@) == spec_component_summary(manifest_records(*manifest))
            &&& report.review_count == manifest_reviews(*manifest).len()
            &&& report.unity_apply_status@ == UNITY_APPLY_PENDING@
            &&& warning_views(report.warnings@) == warning_views(manifest.warnings@)
        },
{
    let mut clips: Vec<String> = Vec::new();
    collect_clip_targets(&manifest.layers, &mut clips);
    assert(str_views(clips@) =~= clips_of_seq(manifest.layers@));
    let mut state = PlannerState { review_items: Vec::new(), planned: Vec::new() };
    let nodes = plan_roots(manifest, &clips, &mut state);
    let report = build_report(manifest, &state);
    let plan = UiPlan {
        plan_version: owned(PLAN_VERSION),
        source_bundle: SourceBundle {
            bundle_dir: to_forward_slashes(bundle_dir),
            manifest_path: to_forward_slashes(manifest_path),
            preview_path: manifest.document.preview.path.clone(),
            document_id: derive_document_id(bundle_name),
            generated_at: generated_at(generated_secs),
        },
        document: PlanDocument {
            width: manifest.document.width,
            height: manifest.document.height,
            preview_path: manifest.document.preview.path.clone(),
        },
        nodes,
        review_items: state.review_items,
        warnings: clone_warnings(&manifest.warnings),
    };
    proof {
        crate::plan_laws::law_plan_status(*manifest);
    }
    match validate_plan(&plan) {
        Ok(()) => Ok((plan, report)),
        Err(e) => Err(e),
    }
}

} // verus!
