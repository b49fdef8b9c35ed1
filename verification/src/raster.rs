use vstd::prelude::*;

use crate::errors::{AppError, AppErrorView};
use crate::export_model::{export_warning_views, AssetRef, ExportWarning, WarningView};
use crate::hierarchy::{lemma_trees_of, str_views, tree_of, trees_of, BuildNode, NodeView, StagedAsset, StagedAssetView};
use crate::photoshop::{
    PhotoshopExportResponse, PhotoshopLayerExportRequest, PhotoshopLayerExportResult,
};
use crate::psd::{Bounds, LayerType};
use crate::text::{chars_of, owned, push_replacing, push_str, replace_char};
use crate::validation::join_path;

verus! {

/// A layer request seen as plain values.
pub struct RequestView {
    pub id: Seq<char>,
    pub name: Seq<char>,
    pub raw_index: usize,
    pub path_indices: Seq<usize>,
    pub expected_visible: bool,
    pub output_png_relpath: Seq<char>,
}

impl View for PhotoshopLayerExportRequest {
    type V = RequestView;

    open spec fn view(&self) -> RequestView {
        RequestView {
            id: self.id@,
            name: self.name@,
            raw_index: self.raw_index,
            path_indices: self.path_indices@,
            expected_visible: self.expected_visible,
            output_png_relpath: self.output_png_relpath@,
        }
    }
}

/// The views of layer requests.
pub open spec fn request_views(s: Seq<PhotoshopLayerExportRequest>) -> Seq<RequestView> {
    s.map_values(|r: PhotoshopLayerExportRequest| r@)
}

/// A layer result seen as plain values.
pub struct LayerResultView {
    pub id: Seq<char>,
    pub exported: bool,
    pub bounds: Option<Bounds>,
    pub width: Option<u32>,
    pub height: Option<u32>,
    pub warnings: Seq<Seq<char>>,
}

impl View for PhotoshopLayerExportResult {
    type V = LayerResultView;

    open spec fn view(&self) -> LayerResultView {
        LayerResultView {
            id: self.id@,
            exported: self.exported,
            bounds: self.bounds,
            width: self.width,
            height: self.height,
            warnings: str_views(self.warnings@),
        }
    }
}

/// The views of layer results.
pub open spec fn result_views(s: Seq<PhotoshopLayerExportResult>) -> Seq<LayerResultView> {
    s.map_values(|r: PhotoshopLayerExportResult| r@)
}

/// Whether Photoshop is asked to rasterize a node: a pixel or shape layer
/// with an area, visible unless hidden layers are included.
pub open spec fn should_request(n: NodeView, include_hidden: bool) -> bool {
    (n.layer_type == LayerType::Pixel || n.layer_type == LayerType::Shape) && n.bounds.width > 0
        && n.bounds.height > 0 && (include_hidden || n.visible)
}

/// The request for a node: its PNG goes to `images/<stem>.png`.
pub open spec fn request_of(n: NodeView) -> RequestView {
    RequestView {
        id: n.id,
        name: n.name,
        raw_index: n.raw_index as usize,
        path_indices: n.path_indices,
        expected_visible: n.visible,
        output_png_relpath: "images/"@ + n.asset_file_stem + ".png"@,
    }
}

/// The requests for a node and its descendants, a node before its children.
pub open spec fn requests_of_node(n: NodeView, include_hidden: bool) -> Seq<RequestView>
    decreases n, 1nat,
{
    (if should_request(n, include_hidden) {
        seq![request_of(n)]
    } else {
        seq![]
    }) + requests_of_seq(n.children, include_hidden)
}

/// The requests for a sequence of nodes, in order.
pub open spec fn requests_of_seq(ns: Seq<NodeView>, include_hidden: bool) -> Seq<RequestView>
    decreases ns, 0nat,
{
    if ns.len() == 0 {
        seq![]
    } else {
        requests_of_seq(ns.drop_last(), include_hidden) + requests_of_node(ns.last(), include_hidden)
    }
}

/// Whether Photoshop should rasterize a node (see `should_request`).
pub fn should_request_photoshop_raster(node: &BuildNode, include_hidden: bool) -> (r: bool)
    ensures
        r == should_request(tree_of(*node), include_hidden),
{
    let kind = match node.layer_type {
        LayerType::Pixel | LayerType::Shape => true,
        _ => false,
    };
    kind && node.bounds.width > 0 && node.bounds.height > 0 && (include_hidden || node.visible)
}

/// Appends the requests for `nodes` and their descendants (see `requests_of_seq`).
pub fn collect_photoshop_layer_requests(
    nodes: &Vec<BuildNode>,
    include_hidden: bool,
    requests: &mut Vec<PhotoshopLayerExportRequest>,
)
    ensures
        request_views(final(requests)@) == request_views(old(requests)@) + requests_of_seq(
            trees_of(nodes@),
            include_hidden,
        ),
    decreases nodes,
{
    let ghost start = request_views(requests@);
    let ghost tv = trees_of(nodes@);
    proof {
        lemma_trees_of(nodes@);
        assert(tv.subrange(0, 0) =~= Seq::<NodeView>::empty());
    }
    let mut i: usize = 0;
    while i < nodes.len()
        invariant
            i <= nodes@.len(),
            tv == trees_of(nodes@),
            tv.len() == nodes@.len(),
            forall|j: int| 0 <= j < nodes@.len() ==> #[trigger] tv[j] == tree_of(nodes@[j]),
            request_views(requests@) == start + requests_of_seq(tv.subrange(0, i as int), include_hidden),
        decreases nodes.len() - i,
    {
        let node = &nodes[i];
        let ghost mid = request_views(requests@);
        let ghost n = tv[i as int];
        assert(tv.subrange(0, i + 1).drop_last() =~= tv.subrange(0, i as int));
        assert(tv.subrange(0, i + 1).last() == n);
        if should_request_photoshop_raster(node, include_hidden) {
            let mut rel = owned("images/");
            push_str(&mut rel, node.asset_file_stem.as_str());
            push_str(&mut rel, ".png");
            let req = PhotoshopLayerExportRequest {
                id: node.id.clone(),
                name: node.name.clone(),
                raw_index: node.raw_index,
                path_indices: node.path_indices.clone(),
                expected_visible: node.visible,
                output_png_relpath: rel,
            };
            assert(req@.path_indices =~= n.path_indices);
            requests.push(req);
            assert(request_views(requests@) =~= mid + seq![request_of(n)]);
        } else {
            assert(request_views(requests@) =~= mid + Seq::<RequestView>::empty());
        }
        let ghost own = request_views(requests@);
        assert(decreases_to!(*nodes => nodes@));
        assert(decreases_to!(nodes@ => nodes@[i as int]));
        assert(decreases_to!(nodes@[i as int] => nodes@[i as int].children));
        collect_photoshop_layer_requests(&node.children, include_hidden, requests);
        i = i + 1;
        proof {
            lemma_trees_of(node.children@);
            assert(n.children == trees_of(node.children@));
            assert(requests_of_node(n, include_hidden) == (if should_request(n, include_hidden) {
                seq![request_of(n)]
            } else {
                Seq::<RequestView>::empty()
            }) + requests_of_seq(n.children, include_hidden));
            assert(requests_of_seq(tv.subrange(0, i as int), include_hidden) == requests_of_seq(
                tv.subrange(0, i - 1),
                include_hidden,
            ) + requests_of_node(n, include_hidden));
            assert(request_views(requests@) =~= start + requests_of_seq(tv.subrange(0, i as int), include_hidden));
        }
    }
    assert(tv.subrange(0, i as int) =~= tv);
}

/// A path relative to the staging directory as the Photoshop scripts write
/// it: its `/` become `\`.
pub open spec fn spec_staged_relpath(relpath: Seq<char>) -> Seq<char> {
    replace_char(relpath, '/', "\\"@)
}

/// Whether `r` is where `staged_asset_path` puts `relpath` under
/// `staging_dir`, as far as `join_path` states it: the staging directory
/// and the relative path with `/` made `\`, with nothing, `/` or `\`
/// between them, when that path has no root or prefix and the directory
/// is not a verbatim path.
pub open spec fn staged_at(staging_dir: Seq<char>, relpath: Seq<char>, r: Seq<char>) -> bool {
    crate::validation::plain_relative(spec_staged_relpath(relpath)) && !crate::validation::is_verbatim_path(
        staging_dir,
    ) ==> crate::validation::joined(staging_dir, spec_staged_relpath(relpath), r)
}

/// Where a file Photoshop wrote under the staging directory lies: the
/// relative path with its `/` made `\` (see `spec_staged_relpath`), joined
/// to the staging directory (see `join_path`).
pub fn staged_asset_path(staging_dir: &str, relpath: &str) -> (r: String)
    ensures
        staged_at(staging_dir@, relpath@, r@),
{
    let rel = staged_relpath(relpath);
    join_path(staging_dir, rel.as_str())
}

/// A relative path as the Photoshop scripts write it (see
/// `spec_staged_relpath`).
fn staged_relpath(relpath: &str) -> (r: String)
    ensures
        r@ == spec_staged_relpath(relpath@),
{
    let v = chars_of(relpath);
    let mut rel = String::new();
    push_replacing(&mut rel, &v, 0, '/', "\\");
    assert(v@.subrange(0, v@.len() as int) =~= relpath@);
    rel
}

/// The last request for the layer `id`, or -1.
pub open spec fn request_index(reqs: Seq<RequestView>, id: Seq<char>) -> int
    decreases reqs.len(),
{
    if reqs.len() == 0 {
        -1
    } else if reqs.last().id == id {
        reqs.len() - 1
    } else {
        request_index(reqs.drop_last(), id)
    }
}

/// The last result for the layer `id`, or -1.
pub open spec fn result_index(res: Seq<LayerResultView>, id: Seq<char>) -> int
    decreases res.len(),
{
    if res.len() == 0 {
        -1
    } else if res.last().id == id {
        res.len() - 1
    } else {
        result_index(res.drop_last(), id)
    }
}

proof fn lemma_request_index(reqs: Seq<RequestView>, id: Seq<char>)
    ensures
        -1 <= request_index(reqs, id) < reqs.len(),
        request_index(reqs, id) >= 0 ==> reqs[request_index(reqs, id)].id == id,
        request_index(reqs, id) == -1 ==> forall|k: int| 0 <= k < reqs.len() ==> #[trigger] reqs[k].id != id,
    decreases reqs.len(),
{
    if reqs.len() > 0 && reqs.last().id != id {
        lemma_request_index(reqs.drop_last(), id);
        if request_index(reqs, id) == -1 {
            assert forall|k: int| 0 <= k < reqs.len() implies #[trigger] reqs[k].id != id by {
                if k < reqs.len() - 1 {
                    assert(reqs.drop_last()[k] == reqs[k]);
                }
            }
        }
    }
}

proof fn lemma_result_index(res: Seq<LayerResultView>, id: Seq<char>)
    ensures
        -1 <= result_index(res, id) < res.len(),
        result_index(res, id) >= 0 ==> res[result_index(res, id)].id == id,
    decreases res.len(),
{
    if res.len() > 0 && res.last().id != id {
        lemma_result_index(res.drop_last(), id);
    }
}

/// What the export needs to apply Photoshop's results: the requests, the
/// results, which requested PNGs exist in staging, and where each lies.
pub struct ApplyEnv {
    pub requests: Seq<RequestView>,
    pub results: Seq<LayerResultView>,
    pub staged_exists: Seq<bool>,
    pub staged_paths: Seq<Seq<char>>,
}

/// The start of every rasterization failure message for a layer.
pub open spec fn raster_failure(name: Seq<char>, why: Seq<char>) -> Seq<char> {
    "failed to rasterize layer '"@ + name + "' via Photoshop: "@ + why
}

/// One warning per warning Photoshop reported for a layer.
pub open spec fn layer_result_warnings(name: Seq<char>, ws: Seq<Seq<char>>) -> Seq<WarningView> {
    ws.map_values(
        |w: Seq<char>|
            WarningView {
                code: "photoshop-layer-warning"@,
                message: "Photoshop layer export warning: "@ + w,
                layer_name: Some(name),
            },
    )
}

/// The node updated with what Photoshop did for its request `rq` (see the
/// failure messages), with the warnings Photoshop reported for it.
pub open spec fn apply_result(
    n: NodeView,
    rq: RequestView,
    result: Option<LayerResultView>,
    exists: bool,
    staged: Seq<char>,
) -> Result<(NodeView, Seq<WarningView>), Seq<char>> {
    match result {
        None => Err(raster_failure(n.name, "Photoshop response did not include this layer"@)),
        Some(res) => if !res.exported {
            Err(raster_failure(n.name, "Photoshop did not export a PNG for this layer"@))
        } else if res.bounds is None {
            Err(raster_failure(n.name, "Photoshop export did not return layer bounds"@))
        } else if res.width is None {
            Err(raster_failure(n.name, "Photoshop export did not return layer width"@))
        } else if res.height is None {
            Err(raster_failure(n.name, "Photoshop export did not return layer height"@))
        } else if !exists {
            Err(
                raster_failure(
                    n.name,
                    "staged PNG is missing: "@ + staged,
                ),
            )
        } else {
            Ok(
                (
                    NodeView {
                        bounds: res.bounds.unwrap(),
                        external_asset: Some(
                            StagedAssetView {
                                staged_path: staged,
                                relative_path: rq.output_png_relpath,
                                width: res.width.unwrap(),
                                height: res.height.unwrap(),
                            },
                        ),
                        baked: seq!["photoshop_raster"@],
                        ..n
                    },
                    layer_result_warnings(n.name, res.warnings),
                ),
            )
        },
    }
}

/// What applying a result to a node leaves: the node, the warnings added
/// and the failure, if any. A failure leaves the node as it was, with the
/// warnings Photoshop reported for the layer when it reported on it.
pub open spec fn apply_result_full(
    n: NodeView,
    rq: RequestView,
    result: Option<LayerResultView>,
    exists: bool,
    staged: Seq<char>,
) -> (NodeView, Seq<WarningView>, Option<Seq<char>>) {
    match apply_result(n, rq, result, exists, staged) {
        Ok((n1, w)) => (n1, w, None),
        Err(e) => (
            n,
            match result {
                Some(x) => layer_result_warnings(n.name, x.warnings),
                None => Seq::<WarningView>::empty(),
            },
            Some(e),
        ),
    }
}

/// A node after its own request, if it has one, is applied (the last
/// request and result with its id count), with the warnings added and the
/// failure, if any.
pub open spec fn apply_own(n: NodeView, env: ApplyEnv) -> (NodeView, Seq<WarningView>, Option<Seq<char>>) {
    let ri = request_index(env.requests, n.id);
    if ri < 0 {
        (n, seq![], None)
    } else {
        let qi = result_index(env.results, n.id);
        apply_result_full(
            n,
            env.requests[ri],
            if qi < 0 {
                None
            } else {
                Some(env.results[qi])
            },
            env.staged_exists[ri],
            env.staged_paths[ri],
        )
    }
}

/// Applies Photoshop's results to a node, then to its descendants; the
/// first failure stops everything, leaving what was done before it.
pub open spec fn apply_node(n: NodeView, env: ApplyEnv) -> (NodeView, Seq<WarningView>, Option<Seq<char>>)
    decreases n, 1int,
{
    let (n1, w1, e1) = apply_own(n, env);
    if e1 is Some {
        (n1, w1, e1)
    } else {
        let (kids, w2, e2) = apply_seq(n.children, n.children.len() as int, env);
        (NodeView { children: kids, ..n1 }, w1 + w2, e2)
    }
}

/// Applies Photoshop's results to the nodes `ns[..k]` in order; after a
/// failure the later nodes stay as they were.
pub open spec fn apply_seq(ns: Seq<NodeView>, k: int, env: ApplyEnv) -> (Seq<NodeView>, Seq<WarningView>, Option<Seq<char>>)
    decreases ns, k,
{
    if k <= 0 || k > ns.len() {
        (seq![], seq![], None)
    } else {
        let (front, w1, e1) = apply_seq(ns, k - 1, env);
        if e1 is Some {
            (front.push(ns[k - 1]), w1, e1)
        } else {
            let (n, w2, e2) = apply_node(ns[k - 1], env);
            (front.push(n), w1 + w2, e2)
        }
    }
}

proof fn lemma_apply_seq_err(ns: Seq<NodeView>, k: int, m: int, env: ApplyEnv)
    requires
        0 <= k <= m <= ns.len(),
        apply_seq(ns, k, env).2 is Some,
    ensures
        apply_seq(ns, m, env) == (apply_seq(ns, k, env).0 + ns.subrange(k, m), apply_seq(ns, k, env).1, apply_seq(
            ns,
            k,
            env,
        ).2),
    decreases m - k,
{
    if m > k {
        lemma_apply_seq_err(ns, k, m - 1, env);
        assert(apply_seq(ns, k, env).0 + ns.subrange(k, m) =~= (apply_seq(ns, k, env).0 + ns.subrange(k, m - 1)).push(
            ns[m - 1],
        ));
    } else {
        assert(apply_seq(ns, k, env).0 + ns.subrange(k, m) =~= apply_seq(ns, k, env).0);
    }
}

/// The index of the last request for `id`, if any.
fn find_request(requests: &Vec<PhotoshopLayerExportRequest>, id: &str) -> (r: Option<usize>)
    ensures
        match r {
            Some(i) => i as int == request_index(request_views(requests@), id@),
            None => request_index(request_views(requests@), id@) == -1,
        },
{
    let ghost rv = request_views(requests@);
    let mut i: usize = requests.len();
    assert(rv.subrange(0, rv.len() as int) =~= rv);
    while i > 0
        invariant
            i <= requests@.len(),
            rv == request_views(requests@),
            request_index(rv, id@) == request_index(rv.subrange(0, i as int), id@),
        decreases i,
    {
        let j = i - 1;
        assert(rv.subrange(0, i as int).drop_last() =~= rv.subrange(0, j as int));
        if crate::photoshop::str_eq(requests[j].id.as_str(), id) {
            return Some(j);
        }
        i = j;
    }
    None
}

/// The index of the last result for `id`, if any.
fn find_result(results: &Vec<PhotoshopLayerExportResult>, id: &str) -> (r: Option<usize>)
    ensures
        match r {
            Some(i) => i as int == result_index(result_views(results@), id@),
            None => result_index(result_views(results@), id@) == -1,
        },
{
    let ghost rv = result_views(results@);
    let mut i: usize = results.len();
    assert(rv.subrange(0, rv.len() as int) =~= rv);
    while i > 0
        invariant
            i <= results@.len(),
            rv == result_views(results@),
            result_index(rv, id@) == result_index(rv.subrange(0, i as int), id@),
        decreases i,
    {
        let j = i - 1;
        assert(rv.subrange(0, i as int).drop_last() =~= rv.subrange(0, j as int));
        if crate::photoshop::str_eq(results[j].id.as_str(), id) {
            return Some(j);
        }
        i = j;
    }
    None
}

fn failure(name: &str, why: &str) -> (e: AppError)
    ensures
        e@ == AppErrorView::Photoshop(raster_failure(name@, why@)),
{
    let mut m = owned("failed to rasterize layer '");
    push_str(&mut m, name);
    push_str(&mut m, "' via Photoshop: ");
    push_str(&mut m, why);
    AppError::Photoshop(m)
}

/// Applies one result to the node it was requested for (see `apply_result`).
fn apply_photoshop_result_to_node(
    node: &mut BuildNode,
    request: &PhotoshopLayerExportRequest,
    result: Option<&PhotoshopLayerExportResult>,
    exists: bool,
    staged_path: &str,
    warnings: &mut Vec<ExportWarning>,
) -> (r: Result<(), AppError>)
    ensures
        match apply_result(
            tree_of(*old(node)),
            request@,
            match result {
                Some(x) => Some(x@),
                None => None,
            },
            exists,
            staged_path@,
        ) {
            Ok((n, w)) => r is Ok && tree_of(*final(node)) == n && export_warning_views(final(warnings)@)
                == export_warning_views(old(warnings)@) + w,
            Err(e) => r matches Err(x) && x@ == AppErrorView::Photoshop(e),
        },
        final(node).children == old(node).children,
        ({
            let full = apply_result_full(
                tree_of(*old(node)),
                request@,
                match result {
                    Some(x) => Some(x@),
                    None => None,
                },
                exists,
                staged_path@,
            );
            &&& tree_of(*final(node)) == full.0
            &&& export_warning_views(final(warnings)@) == export_warning_views(old(warnings)@) + full.1
            &&& (full.2 is None <==> r is Ok)
        }),
        r is Err ==> *final(node) == *old(node),
        r is Err ==> export_warning_views(final(warnings)@) == export_warning_views(old(warnings)@) + match result {
            Some(x) => layer_result_warnings(old(node).name@, str_views(x.warnings@)),
            None => Seq::<WarningView>::empty(),
        },
{
    let res = match result {
        Some(x) => x,
        None => {
            assert(export_warning_views(warnings@) =~= export_warning_views(warnings@) + Seq::<WarningView>::empty());
            return Err(failure(node.name.as_str(), "Photoshop response did not include this layer"));
        },
    };
    let ghost w0 = export_warning_views(warnings@);
    let mut i: usize = 0;
    while i < res.warnings.len()
        invariant
            i <= res.warnings@.len(),
            export_warning_views(warnings@) == w0 + layer_result_warnings(node.name@, str_views(res.warnings@)).subrange(
                0,
                i as int,
            ),
        decreases res.warnings.len() - i,
    {
        let mut m = owned("Photoshop layer export warning: ");
        push_str(&mut m, res.warnings[i].as_str());
        let ghost prev = export_warning_views(warnings@);
        warnings.push(ExportWarning::for_layer("photoshop-layer-warning", m.as_str(), node.name.as_str()));
        i = i + 1;
        assert(layer_result_warnings(node.name@, str_views(res.warnings@)).subrange(0, i as int) =~= layer_result_warnings(
            node.name@,
            str_views(res.warnings@),
        ).subrange(0, i - 1).push(layer_result_warnings(node.name@, str_views(res.warnings@))[i - 1]));
        assert(export_warning_views(warnings@) =~= prev.push(
            layer_result_warnings(node.name@, str_views(res.warnings@))[i - 1],
        ));
    }
    assert(layer_result_warnings(node.name@, str_views(res.warnings@)).subrange(0, i as int) =~= layer_result_warnings(
        node.name@,
        str_views(res.warnings@),
    ));
    if !res.exported {
        return Err(failure(node.name.as_str(), "Photoshop did not export a PNG for this layer"));
    }
    let bounds = match res.bounds {
        Some(b) => b,
        None => {
            return Err(failure(node.name.as_str(), "Photoshop export did not return layer bounds"));
        },
    };
    let width = match res.width {
        Some(w) => w,
        None => {
            return Err(failure(node.name.as_str(), "Photoshop export did not return layer width"));
        },
    };
    let height = match res.height {
        Some(h) => h,
        None => {
            return Err(failure(node.name.as_str(), "Photoshop export did not return layer height"));
        },
    };
    let staged = owned(staged_path);
    if !exists {
        let mut why = owned("staged PNG is missing: ");
        push_str(&mut why, staged.as_str());
        return Err(failure(node.name.as_str(), why.as_str()));
    }
    let ghost before = *node;
    node.bounds = bounds;
    node.external_asset = Some(
        StagedAsset {
            staged_path: staged,
            relative_path: request.output_png_relpath.clone(),
            width,
            height,
        },
    );
    let mut baked: Vec<String> = Vec::new();
    baked.push(owned("photoshop_raster"));
    node.baked = baked;
    assert(str_views(node.baked@) =~= seq!["photoshop_raster"@]);
    assert(node.children == before.children);
    Ok(())
}

/// The env of a call of `apply_photoshop_response`.
pub open spec fn env_of(
    requests: Seq<PhotoshopLayerExportRequest>,
    results: Seq<PhotoshopLayerExportResult>,
    staged_exists: Seq<bool>,
    staged_paths: Seq<Seq<char>>,
) -> ApplyEnv {
    ApplyEnv {
        requests: request_views(requests),
        results: result_views(results),
        staged_exists,
        staged_paths,
    }
}

/// Applies Photoshop's results to `nodes` and their descendants (see
/// `apply_seq`).
fn apply_photoshop_response_recursive(
    nodes: &mut Vec<BuildNode>,
    requests: &Vec<PhotoshopLayerExportRequest>,
    results: &Vec<PhotoshopLayerExportResult>,
    staged_exists: &Vec<bool>,
    staged_paths: &Vec<String>,
    warnings: &mut Vec<ExportWarning>,
) -> (r: Result<(), AppError>)
    requires
        staged_exists@.len() == requests@.len(),
        staged_paths@.len() == requests@.len(),
    ensures
        ({
            let full = apply_seq(
                trees_of(old(nodes)@),
                old(nodes)@.len() as int,
                env_of(requests@, results@, staged_exists@, str_views(staged_paths@)),
            );
            &&& trees_of(final(nodes)@) == full.0
            &&& export_warning_views(final(warnings)@) == export_warning_views(old(warnings)@) + full.1
            &&& match full.2 {
                None => r is Ok,
                Some(e) => r matches Err(x) && x@ == AppErrorView::Photoshop(e),
            }
        }),
    decreases *old(nodes),
{
    let ghost env = env_of(requests@, results@, staged_exists@, str_views(staged_paths@));
    let ghost orig = nodes@;
    let ghost tv = trees_of(orig);
    let ghost w0 = export_warning_views(warnings@);
    let count = nodes.len();
    proof {
        lemma_trees_of(orig);
        lemma_trees_of(nodes@);
        assert(trees_of(nodes@).subrange(0, 0) =~= Seq::<NodeView>::empty());
        assert(w0 =~= w0 + Seq::<WarningView>::empty());
    }
    let mut i: usize = 0;
    while i < count
        invariant
            count == orig.len(),
            orig == old(nodes)@,
            tv == trees_of(orig),
            tv.len() == orig.len(),
            forall|j: int| 0 <= j < orig.len() ==> #[trigger] tv[j] == tree_of(orig[j]),
            nodes@.len() == count,
            i <= count,
            staged_exists@.len() == requests@.len(),
            staged_paths@.len() == requests@.len(),
            env == env_of(requests@, results@, staged_exists@, str_views(staged_paths@)),
            forall|k: int| i <= k < count ==> #[trigger] nodes@[k] == orig[k],
            w0 == export_warning_views(old(warnings)@),
            apply_seq(tv, i as int, env).2 is None,
            apply_seq(tv, i as int, env).0 == trees_of(nodes@).subrange(0, i as int),
            export_warning_views(warnings@) == w0 + apply_seq(tv, i as int, env).1,
        decreases count - i,
    {
        let ghost before = nodes@;
        let ghost wb = export_warning_views(warnings@);
        proof {
            lemma_trees_of(before);
            lemma_request_index(env.requests, tv[i as int].id);
            lemma_result_index(env.results, tv[i as int].id);
        }
        let ghost n = tv[i as int];
        let mut failed: Option<AppError> = None;
        match find_request(requests, nodes[i].id.as_str()) {
            Some(ri) => {
                let result = match find_result(results, nodes[i].id.as_str()) {
                    Some(qi) => Some(&results[qi]),
                    None => None,
                };
                let exists = staged_exists[ri];
                match apply_photoshop_result_to_node(
                    &mut nodes[i],
                    &requests[ri],
                    result,
                    exists,
                    staged_paths[ri].as_str(),
                    warnings,
                ) {
                    Ok(()) => {},
                    Err(e) => {
                        failed = Some(e);
                    },
                }
            },
            None => {},
        }
        let ghost wmid = export_warning_views(warnings@);
        proof {
            lemma_trees_of(nodes@);
            assert(tree_of(nodes@[i as int]) == apply_own(n, env).0);
            assert(wmid == wb + apply_own(n, env).1);
            assert(failed is None <==> apply_own(n, env).2 is None);
        }
        if let Some(e) = failed {
            proof {
                assert(apply_node(n, env) == apply_own(n, env));
                assert(apply_seq(tv, i + 1, env) == (
                    apply_seq(tv, i as int, env).0.push(apply_node(n, env).0),
                    apply_seq(tv, i as int, env).1 + apply_node(n, env).1,
                    apply_node(n, env).2,
                ));
                lemma_apply_seq_err(tv, i + 1, count as int, env);
                assert(export_warning_views(warnings@) =~= w0 + apply_seq(tv, count as int, env).1);
                assert(forall|k: int| 0 <= k < count && k != i ==> #[trigger] nodes@[k] == before[k]);
                assert(trees_of(nodes@) =~= apply_seq(tv, i + 1, env).0 + tv.subrange(i + 1, count as int)) by {
                    assert forall|k: int| 0 <= k < count implies #[trigger] trees_of(nodes@)[k] == (apply_seq(
                        tv,
                        i + 1,
                        env,
                    ).0 + tv.subrange(i + 1, count as int))[k] by {
                        if k < i {
                            assert(trees_of(nodes@)[k] == tree_of(before[k]));
                            assert(trees_of(before)[k] == tree_of(before[k]));
                        } else if k > i {
                            assert(trees_of(nodes@)[k] == tree_of(orig[k]));
                        }
                    }
                }
                assert((wb + apply_own(n, env).1) =~= w0 + (apply_seq(tv, i as int, env).1 + apply_own(n, env).1));
                assert(tv.subrange(0, count as int) =~= tv);
            }
            return Err(e);
        }
        assert(nodes@[i as int].children == orig[i as int].children);
        assert(decreases_to!(*old(nodes) => orig));
        assert(decreases_to!(orig => orig[i as int]));
        assert(decreases_to!(orig[i as int] => orig[i as int].children));
        let ghost mid = nodes@;
        let sub = apply_photoshop_response_recursive(
            &mut nodes[i].children,
            requests,
            results,
            staged_exists,
            staged_paths,
            warnings,
        );
        proof {
            lemma_trees_of(orig[i as int].children@);
            lemma_trees_of(nodes@);
            lemma_trees_of(mid);
            assert(forall|k: int| 0 <= k < count && k != i ==> #[trigger] nodes@[k] == mid[k]);
            assert(tree_of(nodes@[i as int]) == apply_node(n, env).0);
            assert(export_warning_views(warnings@) == wb + apply_node(n, env).1) by {
                assert(wb + apply_own(n, env).1 + apply_seq(n.children, n.children.len() as int, env).1 =~= wb + (
                apply_own(n, env).1 + apply_seq(n.children, n.children.len() as int, env).1));
            }
            assert(trees_of(nodes@).subrange(0, i + 1) =~= trees_of(before).subrange(0, i as int).push(
                tree_of(nodes@[i as int]),
            ));
            assert((w0 + apply_seq(tv, i as int, env).1) + apply_node(n, env).1 =~= w0 + (apply_seq(
                tv,
                i as int,
                env,
            ).1 + apply_node(n, env).1));
        }
        match sub {
            Ok(()) => {},
            Err(e) => {
                proof {
                    assert(apply_seq(tv, i + 1, env) == (
                        apply_seq(tv, i as int, env).0.push(apply_node(n, env).0),
                        apply_seq(tv, i as int, env).1 + apply_node(n, env).1,
                        apply_node(n, env).2,
                    ));
                    lemma_apply_seq_err(tv, i + 1, count as int, env);
                    assert(export_warning_views(warnings@) =~= w0 + apply_seq(tv, count as int, env).1);
                    assert(trees_of(nodes@) =~= apply_seq(tv, i + 1, env).0 + tv.subrange(i + 1, count as int)) by {
                        assert forall|k: int| 0 <= k < count implies #[trigger] trees_of(nodes@)[k] == (apply_seq(
                            tv,
                            i + 1,
                            env,
                        ).0 + tv.subrange(i + 1, count as int))[k] by {
                            if k < i {
                                assert(trees_of(nodes@)[k] == tree_of(before[k]));
                                assert(trees_of(before)[k] == tree_of(before[k]));
                            } else if k > i {
                                assert(trees_of(nodes@)[k] == tree_of(orig[k]));
                            }
                        }
                    }
                    assert(tv.subrange(0, count as int) =~= tv);
                }
                return Err(e);
            },
        }
        i = i + 1;
    }
    proof {
        lemma_trees_of(nodes@);
        assert(trees_of(nodes@).subrange(0, count as int) =~= trees_of(nodes@));
        assert(tv.subrange(0, count as int) =~= tv);
    }
    Ok(())
}

/// The merged preview Photoshop wrote, staged for copying into the bundle.
#[derive(Debug)]
pub struct PreviewOverride {
    pub staged_path: String,
    pub asset: AssetRef,
}

/// A missing-preview warning.
pub open spec fn preview_missing(message: Seq<char>) -> Seq<WarningView> {
    seq![WarningView { code: "photoshop-preview-missing"@, message, layer_name: None }]
}

/// The preview Photoshop reported, as its staged path, bundle path, width
/// and height, or the warning saying why there is none: no path, no size,
/// or no file in staging (`staged` is where the preview lies in staging,
/// `exists` whether a file is there).
pub open spec fn spec_preview_override(
    path: Option<Seq<char>>,
    width: Option<u32>,
    height: Option<u32>,
    staged: Seq<char>,
    exists: bool,
) -> (Option<(Seq<char>, Seq<char>, u32, u32)>, Seq<WarningView>) {
    match path {
        None => (None, preview_missing("Photoshop export did not return a preview path"@)),
        Some(p) => if width is None || height is None {
            (None, preview_missing("Photoshop export did not return preview dimensions"@))
        } else if !exists {
            (
                None,
                preview_missing(
                    "Photoshop preview export is missing from staging: "@ + staged,
                ),
            )
        } else {
            (Some((staged, p, width.unwrap(), height.unwrap())), seq![])
        },
    }
}

/// A preview override seen as plain values.
pub open spec fn preview_view(p: Option<PreviewOverride>) -> Option<(Seq<char>, Seq<char>, u32, u32)> {
    match p {
        Some(p) => Some((p.staged_path@, p.asset.path@, p.asset.width, p.asset.height)),
        None => None,
    }
}

/// The preview Photoshop exported (see `spec_preview_override`);
/// `staged_preview` is where it lies in staging, `exists` whether a file is
/// there.
pub fn preview_override_from_response(
    response: &PhotoshopExportResponse,
    staged_preview: &str,
    exists: bool,
    warnings: &mut Vec<ExportWarning>,
) -> (r: Option<PreviewOverride>)
    ensures
        preview_view(r) == spec_preview_override(
            crate::hierarchy::opt_str(response.preview_path),
            response.preview_width,
            response.preview_height,
            staged_preview@,
            exists,
        ).0,
        export_warning_views(final(warnings)@) == export_warning_views(old(warnings)@) + spec_preview_override(
            crate::hierarchy::opt_str(response.preview_path),
            response.preview_width,
            response.preview_height,
            staged_preview@,
            exists,
        ).1,
{
    let ghost w0 = export_warning_views(warnings@);
    let path = match &response.preview_path {
        Some(p) => p,
        None => {
            warnings.push(
                ExportWarning::new("photoshop-preview-missing", "Photoshop export did not return a preview path"),
            );
            assert(export_warning_views(warnings@) =~= w0 + preview_missing(
                "Photoshop export did not return a preview path"@,
            ));
            return None;
        },
    };
    let (width, height) = match (response.preview_width, response.preview_height) {
        (Some(w), Some(h)) => (w, h),
        _ => {
            warnings.push(
                ExportWarning::new("photoshop-preview-missing", "Photoshop export did not return preview dimensions"),
            );
            assert(export_warning_views(warnings@) =~= w0 + preview_missing(
                "Photoshop export did not return preview dimensions"@,
            ));
            return None;
        },
    };
    let staged = owned(staged_preview);
    if !exists {
        let mut m = owned("Photoshop preview export is missing from staging: ");
        push_str(&mut m, staged.as_str());
        warnings.push(ExportWarning::new("photoshop-preview-missing", m.as_str()));
        assert(export_warning_views(warnings@) =~= w0 + preview_missing(m@));
        return None;
    }
    assert(export_warning_views(warnings@) =~= w0 + Seq::<WarningView>::empty());
    Some(PreviewOverride { staged_path: staged, asset: AssetRef { path: path.clone(), width, height } })
}

/// One warning per warning Photoshop reported for the whole export.
pub open spec fn response_warnings(ws: Seq<Seq<char>>) -> Seq<WarningView> {
    ws.map_values(
        |w: Seq<char>|
            WarningView { code: "photoshop-export-warning"@, message: "Photoshop export warning: "@ + w, layer_name: None },
    )
}

/// What applying Photoshop's answer does, with `staged[i]` where the PNG
/// of `requests[i]` lies in staging and `staged_preview` where the preview
/// does: the answer's warnings, each requested layer's PNG (see
/// `apply_seq`; the first failure is the error), then the preview (see
/// `spec_preview_override`).
pub open spec fn response_applied(
    before: Seq<NodeView>,
    count: int,
    after: Seq<NodeView>,
    w_before: Seq<WarningView>,
    w_after: Seq<WarningView>,
    r: Result<Option<PreviewOverride>, AppError>,
    requests: Seq<PhotoshopLayerExportRequest>,
    response: PhotoshopExportResponse,
    staged: Seq<Seq<char>>,
    staged_preview: Seq<char>,
    staged_exists: Seq<bool>,
    preview_exists: bool,
) -> bool {
    let (ns, w, e) = apply_seq(before, count, env_of(requests, response.layers@, staged_exists, staged));
    let rw = response_warnings(str_views(response.warnings@));
    &&& after == ns
    &&& match e {
        None => {
            let p = spec_preview_override(
                crate::hierarchy::opt_str(response.preview_path),
                response.preview_width,
                response.preview_height,
                staged_preview,
                preview_exists,
            );
            &&& r matches Ok(x) && preview_view(x) == p.0
            &&& w_after == w_before + rw + w + p.1
        },
        Some(m) => {
            &&& r matches Err(x) && x@ == AppErrorView::Photoshop(m)
            &&& w_after == w_before + rw + w
        },
    }
}

/// Applies what Photoshop reported (see `response_applied`);
/// `staged_paths[i]` is where the PNG of `requests[i]` lies in staging and
/// `staged_exists[i]` whether a file is there; `staged_preview` and
/// `preview_exists` say the same of the preview.
pub fn apply_photoshop_staged(
    nodes: &mut Vec<BuildNode>,
    requests: &Vec<PhotoshopLayerExportRequest>,
    response: &PhotoshopExportResponse,
    staged_paths: &Vec<String>,
    staged_preview: &str,
    staged_exists: &Vec<bool>,
    preview_exists: bool,
    warnings: &mut Vec<ExportWarning>,
) -> (r: Result<Option<PreviewOverride>, AppError>)
    requires
        staged_exists@.len() == requests@.len(),
        staged_paths@.len() == requests@.len(),
    ensures
        response_applied(
            trees_of(old(nodes)@),
            old(nodes)@.len() as int,
            trees_of(final(nodes)@),
            export_warning_views(old(warnings)@),
            export_warning_views(final(warnings)@),
            r,
            requests@,
            *response,
            str_views(staged_paths@),
            staged_preview@,
            staged_exists@,
            preview_exists,
        ),
{
    let ghost w0 = export_warning_views(warnings@);
    let ghost rw = response_warnings(str_views(response.warnings@));
    let mut i: usize = 0;
    while i < response.warnings.len()
        invariant
            i <= response.warnings@.len(),
            rw == response_warnings(str_views(response.warnings@)),
            export_warning_views(warnings@) == w0 + rw.subrange(0, i as int),
        decreases response.warnings.len() - i,
    {
        let mut m = owned("Photoshop export warning: ");
        push_str(&mut m, response.warnings[i].as_str());
        let ghost prev = export_warning_views(warnings@);
        warnings.push(ExportWarning::new("photoshop-export-warning", m.as_str()));
        i = i + 1;
        assert(rw.subrange(0, i as int) =~= rw.subrange(0, i - 1).push(rw[i - 1]));
        assert(export_warning_views(warnings@) =~= prev.push(rw[i - 1]));
    }
    assert(rw.subrange(0, i as int) =~= rw);
    apply_photoshop_response_recursive(nodes, requests, &response.layers, staged_exists, staged_paths, warnings)?;
    let preview = preview_override_from_response(response, staged_preview, preview_exists, warnings);
    Ok(preview)
}

/// Applies what Photoshop reported (see `response_applied`), each staged
/// file lying where `staged_asset_path` puts it under `staging_dir`;
/// `staged_exists[i]` says whether the PNG of `requests[i]` exists in
/// staging, `preview_exists` whether the preview does.
pub fn apply_photoshop_response(
    nodes: &mut Vec<BuildNode>,
    requests: &Vec<PhotoshopLayerExportRequest>,
    response: &PhotoshopExportResponse,
    staging_dir: &str,
    staged_exists: &Vec<bool>,
    preview_exists: bool,
    warnings: &mut Vec<ExportWarning>,
) -> (r: Result<Option<PreviewOverride>, AppError>)
    requires
        staged_exists@.len() == requests@.len(),
    ensures
        exists|staged: Seq<Seq<char>>, staged_preview: Seq<char>|
            staged.len() == requests@.len() && (forall|i: int|
                0 <= i < requests@.len() ==> staged_at(
                    staging_dir@,
                    requests@[i].output_png_relpath@,
                    #[trigger] staged[i],
                )) && (response.preview_path matches Some(p) ==> staged_at(staging_dir@, p@, staged_preview))
                && response_applied(
                trees_of(old(nodes)@),
                old(nodes)@.len() as int,
                trees_of(final(nodes)@),
                export_warning_views(old(warnings)@),
                export_warning_views(final(warnings)@),
                r,
                requests@,
                *response,
                staged,
                staged_preview,
                staged_exists@,
                preview_exists,
            ),
{
    let mut staged_paths: Vec<String> = Vec::new();
    let mut i: usize = 0;
    while i < requests.len()
        invariant
            i <= requests@.len(),
            staged_paths@.len() == i,
            forall|j: int|
                0 <= j < i ==> staged_at(staging_dir@, requests@[j].output_png_relpath@, #[trigger] staged_paths@[j]@),
        decreases requests.len() - i,
    {
        staged_paths.push(staged_asset_path(staging_dir, requests[i].output_png_relpath.as_str()));
        i = i + 1;
    }
    let staged_preview = match &response.preview_path {
        Some(p) => staged_asset_path(staging_dir, p.as_str()),
        None => String::new(),
    };
    let r = apply_photoshop_staged(
        nodes,
        requests,
        response,
        &staged_paths,
        staged_preview.as_str(),
        staged_exists,
        preview_exists,
        warnings,
    );
    assert(str_views(staged_paths@).len() == requests@.len());
    assert(forall|j: int|
        0 <= j < requests@.len() ==> staged_at(
            staging_dir@,
            requests@[j].output_png_relpath@,
            #[trigger] str_views(staged_paths@)[j],
        ));
    r
}

/// Whether a node's image goes into the bundle: Photoshop staged one, it
/// has an area, and it is visible unless hidden layers are included.
pub open spec fn spec_should_export_image(n: NodeView, include_hidden: bool) -> bool {
    n.external_asset is Some && n.bounds.width > 0 && n.bounds.height > 0 && (include_hidden || n.visible)
}

/// Whether a node's image goes into the bundle (see `spec_should_export_image`).
pub fn should_export_image(node: &BuildNode, include_hidden: bool) -> (r: bool)
    ensures
        r == spec_should_export_image(tree_of(*node), include_hidden),
{
    node.external_asset.is_some() && node.bounds.width > 0 && node.bounds.height > 0 && (include_hidden
        || node.visible)
}

} // verus!
