use vstd::prelude::*;

use crate::hierarchy::str_views;
use crate::models::{
    PlanNode, PlanNodeView, UiPlan, COMPONENT_BUTTON, COMPONENT_CONTAINER, COMPONENT_IMAGE_PLACEHOLDER,
    COMPONENT_MASK_GROUP, COMPONENT_SCROLL_VIEW, COMPONENT_TMP_TEXT, plan_view, plan_views,
    lemma_plan_views,
};
use crate::planner::list_contains;
use crate::text::{owned, push_str, str_trim, trim};

verus! {

/// Something wrong with a plan.
#[derive(Debug, Clone)]
pub enum PlanIssue {
    EmptyPlanVersion,
    EmptyDocumentId,
    EmptyNodeId,
    DuplicateNodeId(String),
    MissingSourceLayerIds(String),
    /// A confidence outside `[0, 1]`, as the bit pattern of an `f32`.
    InvalidConfidence { node_id: String, confidence: u32 },
    UnsupportedComponent { node_id: String, component: String },
    MissingTextPayload(String),
}

pub enum PlanIssueView {
    EmptyPlanVersion,
    EmptyDocumentId,
    EmptyNodeId,
    DuplicateNodeId(Seq<char>),
    MissingSourceLayerIds(Seq<char>),
    InvalidConfidence { node_id: Seq<char>, confidence: u32 },
    UnsupportedComponent { node_id: Seq<char>, component: Seq<char> },
    MissingTextPayload(Seq<char>),
}

impl View for PlanIssue {
    type V = PlanIssueView;

    open spec fn view(&self) -> PlanIssueView {
        match self {
            PlanIssue::EmptyPlanVersion => PlanIssueView::EmptyPlanVersion,
            PlanIssue::EmptyDocumentId => PlanIssueView::EmptyDocumentId,
            PlanIssue::EmptyNodeId => PlanIssueView::EmptyNodeId,
            PlanIssue::DuplicateNodeId(id) => PlanIssueView::DuplicateNodeId(id@),
            PlanIssue::MissingSourceLayerIds(id) => PlanIssueView::MissingSourceLayerIds(id@),
            PlanIssue::InvalidConfidence { node_id, confidence } => PlanIssueView::InvalidConfidence {
                node_id: node_id@,
                confidence: *confidence,
            },
            PlanIssue::UnsupportedComponent { node_id, component } => PlanIssueView::UnsupportedComponent {
                node_id: node_id@,
                component: component@,
            },
            PlanIssue::MissingTextPayload(id) => PlanIssueView::MissingTextPayload(id@),
        }
    }
}

/// The views of plan issues.
pub open spec fn issue_views(s: Seq<PlanIssue>) -> Seq<PlanIssueView> {
    s.map_values(|i: PlanIssue| i@)
}

impl PlanIssue {
    /// The line that reports this issue; `confidence_text` is how the
    /// confidence of an `InvalidConfidence` issue is written.
    pub fn message(&self, confidence_text: &str) -> (r: String)
        ensures
            r@ == issue_message(self@, confidence_text@),
    {
        match self {
            PlanIssue::EmptyPlanVersion => owned("plan_version must not be empty"),
            PlanIssue::EmptyDocumentId => owned("source_bundle.document_id must not be empty"),
            PlanIssue::EmptyNodeId => owned("node_id must not be empty"),
            PlanIssue::DuplicateNodeId(id) => {
                let mut s = owned("duplicate node_id detected: ");
                push_str(&mut s, id.as_str());
                s
            },
            PlanIssue::MissingSourceLayerIds(id) => {
                let mut s = owned("node ");
                push_str(&mut s, id.as_str());
                push_str(&mut s, " is missing source_layer_ids");
                s
            },
            PlanIssue::InvalidConfidence { node_id, .. } => {
                let mut s = owned("node ");
                push_str(&mut s, node_id.as_str());
                push_str(&mut s, " has invalid confidence ");
                push_str(&mut s, confidence_text);
                s
            },
            PlanIssue::UnsupportedComponent { node_id, component } => {
                let mut s = owned("node ");
                push_str(&mut s, node_id.as_str());
                push_str(&mut s, " has unsupported component_type ");
                push_str(&mut s, component.as_str());
                s
            },
            PlanIssue::MissingTextPayload(id) => {
                let mut s = owned("text node ");
                push_str(&mut s, id.as_str());
                push_str(&mut s, " is missing text payload");
                s
            },
        }
    }
}

/// The line reporting an issue.
pub open spec fn issue_message(i: PlanIssueView, confidence_text: Seq<char>) -> Seq<char> {
    match i {
        PlanIssueView::EmptyPlanVersion => "plan_version must not be empty"@,
        PlanIssueView::EmptyDocumentId => "source_bundle.document_id must not be empty"@,
        PlanIssueView::EmptyNodeId => "node_id must not be empty"@,
        PlanIssueView::DuplicateNodeId(id) => "duplicate node_id detected: "@ + id,
        PlanIssueView::MissingSourceLayerIds(id) => "node "@ + id + " is missing source_layer_ids"@,
        PlanIssueView::InvalidConfidence { node_id, .. } => "node "@ + node_id + " has invalid confidence "@
            + confidence_text,
        PlanIssueView::UnsupportedComponent { node_id, component } => "node "@ + node_id
            + " has unsupported component_type "@ + component,
        PlanIssueView::MissingTextPayload(id) => "text node "@ + id + " is missing text payload"@,
    }
}

/// What can go wrong while planning or validating a bundle.
#[derive(Debug)]
pub enum OrchestratorError {
    MissingBundle(String),
    MissingFile(String),
    ReadFile { path: String, message: String },
    WriteFile { path: String, message: String },
    ParseJson { path: String, message: String },
    PlanValidation(Vec<PlanIssue>),
}

/// Nothing but white space.
pub open spec fn blank(s: Seq<char>) -> bool {
    trim(s).len() == 0
}

/// Whether `bits`, read as an `f32`, lies in `[0, 1]`: the positive numbers
/// up to one, and negative zero (every NaN falls outside).
pub open spec fn unit_confidence(bits: u32) -> bool {
    bits <= 0x3F80_0000 || bits == 0x8000_0000
}

/// The component types a plan may use.
pub open spec fn supported_component(c: Seq<char>) -> bool {
    c == COMPONENT_CONTAINER@ || c == COMPONENT_IMAGE_PLACEHOLDER@ || c == COMPONENT_TMP_TEXT@ || c
        == COMPONENT_BUTTON@ || c == COMPONENT_SCROLL_VIEW@ || c == COMPONENT_MASK_GROUP@
}

/// The issues of a node itself, given the non-blank ids seen before it, and
/// those ids afterwards.
pub open spec fn own_issues(n: PlanNodeView, seen: Seq<Seq<char>>) -> (Seq<PlanIssueView>, Seq<Seq<char>>) {
    let id = n.node_id;
    let (first, seen2) = if blank(id) {
        (seq![PlanIssueView::EmptyNodeId], seen)
    } else if seen.contains(id) {
        (seq![PlanIssueView::DuplicateNodeId(id)], seen)
    } else {
        (Seq::<PlanIssueView>::empty(), seen.push(id))
    };
    let issues = first + (if n.source_layer_ids.len() == 0 {
        seq![PlanIssueView::MissingSourceLayerIds(id)]
    } else {
        seq![]
    }) + (if !unit_confidence(n.confidence) {
        seq![PlanIssueView::InvalidConfidence { node_id: id, confidence: n.confidence }]
    } else {
        seq![]
    }) + (if !supported_component(n.component_type) {
        seq![PlanIssueView::UnsupportedComponent { node_id: id, component: n.component_type }]
    } else {
        seq![]
    }) + (if n.component_type == COMPONENT_TMP_TEXT@ && n.text is None {
        seq![PlanIssueView::MissingTextPayload(id)]
    } else {
        seq![]
    });
    (issues, seen2)
}

/// The issues of a node and its descendants (the node first, then its
/// children in order), and the ids seen afterwards.
pub open spec fn node_issues(n: PlanNodeView, seen: Seq<Seq<char>>) -> (Seq<PlanIssueView>, Seq<Seq<char>>)
    decreases n, 1nat,
{
    let (own, seen1) = own_issues(n, seen);
    let (rest, seen2) = nodes_issues(n.children, seen1);
    (own + rest, seen2)
}

/// The issues of a sequence of nodes, in order.
pub open spec fn nodes_issues(ns: Seq<PlanNodeView>, seen: Seq<Seq<char>>) -> (Seq<PlanIssueView>, Seq<Seq<char>>)
    decreases ns, 0nat,
{
    if ns.len() == 0 {
        (seq![], seen)
    } else {
        let (a, s1) = nodes_issues(ns.drop_last(), seen);
        let (b, s2) = node_issues(ns.last(), s1);
        (a + b, s2)
    }
}

/// The issues of a plan: a blank version or document id, then those of its
/// nodes.
pub open spec fn plan_issues(version: Seq<char>, document_id: Seq<char>, nodes: Seq<PlanNodeView>) -> Seq<PlanIssueView> {
    (if blank(version) {
        seq![PlanIssueView::EmptyPlanVersion]
    } else {
        seq![]
    }) + (if blank(document_id) {
        seq![PlanIssueView::EmptyDocumentId]
    } else {
        seq![]
    }) + nodes_issues(nodes, seq![]).0
}

/// Whether `n` is `m` or one of its descendants.
pub open spec fn node_holds(m: PlanNodeView, n: PlanNodeView) -> bool
    decreases m, 1nat,
{
    m == n || nodes_hold(m.children, n)
}

/// Whether `n` is one of `ns` or one of their descendants.
pub open spec fn nodes_hold(ns: Seq<PlanNodeView>, n: PlanNodeView) -> bool
    decreases ns, 0nat,
{
    ns.len() > 0 && (nodes_hold(ns.drop_last(), n) || node_holds(ns.last(), n))
}

/// A text node without text to show.
pub open spec fn textless_text_node(n: PlanNodeView) -> bool {
    n.component_type == COMPONENT_TMP_TEXT@ && n.text is None
}

proof fn lemma_node_issues_report_text(m: PlanNodeView, n: PlanNodeView, seen: Seq<Seq<char>>)
    requires
        node_holds(m, n),
        textless_text_node(n),
    ensures
        node_issues(m, seen).0.contains(PlanIssueView::MissingTextPayload(n.node_id)),
    decreases m, 1nat,
{
    let (own, seen1) = own_issues(m, seen);
    let (rest, seen2) = nodes_issues(m.children, seen1);
    let issue = PlanIssueView::MissingTextPayload(n.node_id);
    if m == n {
        assert(own.last() == issue);
        assert((own + rest)[own.len() - 1] == issue);
    } else {
        lemma_nodes_issues_report_text(m.children, n, seen1);
        let j = choose|j: int| 0 <= j < rest.len() && rest[j] == issue;
        assert((own + rest)[own.len() + j] == issue);
    }
}

proof fn lemma_nodes_issues_report_text(ns: Seq<PlanNodeView>, n: PlanNodeView, seen: Seq<Seq<char>>)
    requires
        nodes_hold(ns, n),
        textless_text_node(n),
    ensures
        nodes_issues(ns, seen).0.contains(PlanIssueView::MissingTextPayload(n.node_id)),
    decreases ns, 0nat,
{
    let (a, s1) = nodes_issues(ns.drop_last(), seen);
    let (b, s2) = node_issues(ns.last(), s1);
    let issue = PlanIssueView::MissingTextPayload(n.node_id);
    if nodes_hold(ns.drop_last(), n) {
        lemma_nodes_issues_report_text(ns.drop_last(), n, seen);
        let j = choose|j: int| 0 <= j < a.len() && a[j] == issue;
        assert((a + b)[j] == issue);
    } else {
        lemma_node_issues_report_text(ns.last(), n, s1);
        let j = choose|j: int| 0 <= j < b.len() && b[j] == issue;
        assert((a + b)[a.len() + j] == issue);
    }
}

/// A plan with a text node, at any depth, that carries no text payload is
/// refused: its issues name that node as missing its text, so
/// `validate_plan` fails on it.
pub proof fn law_text_nodes_need_text(
    version: Seq<char>,
    document_id: Seq<char>,
    nodes: Seq<PlanNodeView>,
    n: PlanNodeView,
)
    requires
        nodes_hold(nodes, n),
        textless_text_node(n),
    ensures
        plan_issues(version, document_id, nodes).contains(PlanIssueView::MissingTextPayload(n.node_id)),
        plan_issues(version, document_id, nodes).len() > 0,
{
    lemma_nodes_issues_report_text(nodes, n, seq![]);
    let head = (if blank(version) {
        seq![PlanIssueView::EmptyPlanVersion]
    } else {
        seq![]
    }) + (if blank(document_id) {
        seq![PlanIssueView::EmptyDocumentId]
    } else {
        seq![]
    });
    let rest = nodes_issues(nodes, seq![]).0;
    let issue = PlanIssueView::MissingTextPayload(n.node_id);
    let j = choose|j: int| 0 <= j < rest.len() && rest[j] == issue;
    assert(plan_issues(version, document_id, nodes) == head + rest);
    assert((head + rest)[head.len() + j] == issue);
}

fn is_blank(s: &str) -> (r: bool)
    ensures
        r == blank(s@),
{
    let t = str_trim(s);
    t.as_str().is_empty()
}

fn is_supported_component(c: &str) -> (r: bool)
    ensures
        r == supported_component(c@),
{
    crate::photoshop::str_eq(c, COMPONENT_CONTAINER) || crate::photoshop::str_eq(c, COMPONENT_IMAGE_PLACEHOLDER)
        || crate::photoshop::str_eq(c, COMPONENT_TMP_TEXT) || crate::photoshop::str_eq(c, COMPONENT_BUTTON)
        || crate::photoshop::str_eq(c, COMPONENT_SCROLL_VIEW) || crate::photoshop::str_eq(c, COMPONENT_MASK_GROUP)
}

/// Appends what is wrong with a node itself (see `own_issues`).
fn push_own_issues(node: &PlanNode, seen: &mut Vec<String>, issues: &mut Vec<PlanIssue>)
    ensures
        issue_views(final(issues)@) == issue_views(old(issues)@) + own_issues(plan_view(*node), str_views(old(seen)@)).0,
        str_views(final(seen)@) == own_issues(plan_view(*node), str_views(old(seen)@)).1,
{
    let ghost v = plan_view(*node);
    let ghost i0 = issue_views(issues@);
    let ghost s0 = str_views(seen@);
    let id = node.node_id.as_str();
    if is_blank(id) {
        issues.push(PlanIssue::EmptyNodeId);
    } else if list_contains(seen, id) {
        issues.push(PlanIssue::DuplicateNodeId(owned(id)));
    } else {
        seen.push(owned(id));
    }
    if node.source_layer_ids.len() == 0 {
        issues.push(PlanIssue::MissingSourceLayerIds(owned(id)));
    }
    if !(node.confidence <= 0x3F80_0000 || node.confidence == 0x8000_0000) {
        issues.push(PlanIssue::InvalidConfidence { node_id: owned(id), confidence: node.confidence });
    }
    if !is_supported_component(node.component_type.as_str()) {
        issues.push(
            PlanIssue::UnsupportedComponent { node_id: owned(id), component: node.component_type.clone() },
        );
    }
    if crate::photoshop::str_eq(node.component_type.as_str(), COMPONENT_TMP_TEXT) && node.text.is_none() {
        issues.push(PlanIssue::MissingTextPayload(owned(id)));
    }
    proof {
        assert(v.source_layer_ids.len() == node.source_layer_ids@.len());
        assert(issue_views(issues@) =~= i0 + own_issues(v, s0).0);
        assert(str_views(seen@) =~= own_issues(v, s0).1);
    }
}

/// Checks a node and its descendants, appending what is wrong to `issues`
/// and the non-blank ids met to `seen`.
fn validate_node(node: &PlanNode, seen: &mut Vec<String>, issues: &mut Vec<PlanIssue>)
    ensures
        issue_views(final(issues)@) == issue_views(old(issues)@) + node_issues(plan_view(*node), str_views(old(seen)@)).0,
        str_views(final(seen)@) == node_issues(plan_view(*node), str_views(old(seen)@)).1,
    decreases node,
{
    let ghost v = plan_view(*node);
    let ghost i0 = issue_views(issues@);
    let ghost s0 = str_views(seen@);
    push_own_issues(node, seen, issues);
    let ghost i1 = issue_views(issues@);
    let ghost s1 = str_views(seen@);
    proof {
        lemma_plan_views(node.children@);
    }
    let mut k: usize = 0;
    while k < node.children.len()
        invariant
            k <= node.children@.len(),
            v == plan_view(*node),
            plan_views(node.children@).len() == node.children@.len(),
            forall|j: int| 0 <= j < node.children@.len() ==> #[trigger] plan_views(node.children@)[j] == plan_view(node.children@[j]),
            issue_views(issues@) == i1 + nodes_issues(v.children.subrange(0, k as int), s1).0,
            str_views(seen@) == nodes_issues(v.children.subrange(0, k as int), s1).1,
        decreases node.children.len() - k,
    {
        assert(decreases_to!(*node => node.children));
        assert(decreases_to!(node.children => node.children@));
        assert(decreases_to!(node.children@ => node.children@[k as int]));
        let ghost before_i = issue_views(issues@);
        validate_node(&node.children[k], seen, issues);
        proof {
            let pre = v.children.subrange(0, k as int);
            let post = v.children.subrange(0, k + 1);
            assert(post.drop_last() =~= pre);
            assert(post.last() == plan_view(node.children@[k as int]));
            assert(issue_views(issues@) =~= i1 + nodes_issues(post, s1).0);
        }
        k = k + 1;
    }
    proof {
        assert(v.children.subrange(0, k as int) =~= v.children);
        assert(issue_views(issues@) =~= i0 + node_issues(v, s0).0);
    }
}

/// Checks a plan (see `plan_issues`): it is valid when nothing is wrong
/// with it, and otherwise refused with every issue found, in order.
pub fn validate_plan(plan: &UiPlan) -> (r: Result<(), OrchestratorError>)
    ensures
        plan_issues(plan.plan_version@, plan.source_bundle.document_id@, plan_views(plan.nodes@)).len() == 0
            <==> r is Ok,
        r matches Err(OrchestratorError::PlanValidation(v)) ==> issue_views(v@) == plan_issues(
            plan.plan_version@,
            plan.source_bundle.document_id@,
            plan_views(plan.nodes@),
        ),
        r is Err ==> r matches Err(OrchestratorError::PlanValidation(_)),
        forall|n: PlanNodeView|
            nodes_hold(plan_views(plan.nodes@), n) && #[trigger] textless_text_node(n) ==> r is Err,
{
    proof {
        assert forall|n: PlanNodeView|
            nodes_hold(plan_views(plan.nodes@), n) && #[trigger] textless_text_node(n) implies plan_issues(
            plan.plan_version@,
            plan.source_bundle.document_id@,
            plan_views(plan.nodes@),
        ).len() > 0 by {
            law_text_nodes_need_text(
                plan.plan_version@,
                plan.source_bundle.document_id@,
                plan_views(plan.nodes@),
                n,
            );
        }
    }
    let mut issues: Vec<PlanIssue> = Vec::new();
    let mut seen: Vec<String> = Vec::new();
    if is_blank(plan.plan_version.as_str()) {
        issues.push(PlanIssue::EmptyPlanVersion);
    }
    if is_blank(plan.source_bundle.document_id.as_str()) {
        issues.push(PlanIssue::EmptyDocumentId);
    }
    let ghost i1 = issue_views(issues@);
    let ghost nv = plan_views(plan.nodes@);
    proof {
        lemma_plan_views(plan.nodes@);
        assert(str_views(seen@) =~= Seq::<Seq<char>>::empty());
        assert(nv.subrange(0, 0) =~= Seq::<PlanNodeView>::empty());
        assert(issue_views(issues@) =~= i1 + nodes_issues(nv.subrange(0, 0), seq![]).0);
    }
    let mut k: usize = 0;
    while k < plan.nodes.len()
        invariant
            k <= plan.nodes@.len(),
            nv == plan_views(plan.nodes@),
            nv.len() == plan.nodes@.len(),
            forall|j: int| 0 <= j < plan.nodes@.len() ==> #[trigger] nv[j] == plan_view(plan.nodes@[j]),
            issue_views(issues@) == i1 + nodes_issues(nv.subrange(0, k as int), seq![]).0,
            str_views(seen@) == nodes_issues(nv.subrange(0, k as int), seq![]).1,
        decreases plan.nodes.len() - k,
    {
        validate_node(&plan.nodes[k], &mut seen, &mut issues);
        proof {
            let post = nv.subrange(0, k + 1);
            assert(post.drop_last() =~= nv.subrange(0, k as int));
            assert(post.last() == plan_view(plan.nodes@[k as int]));
            assert(issue_views(issues@) =~= i1 + nodes_issues(post, seq![]).0);
        }
        k = k + 1;
    }
    proof {
        assert(nv.subrange(0, k as int) =~= nv);
        assert(issue_views(issues@) =~= plan_issues(
            plan.plan_version@,
            plan.source_bundle.document_id@,
            nv,
        ));
    }
    if issues.len() == 0 {
        Ok(())
    } else {
        Err(OrchestratorError::PlanValidation(issues))
    }
}

/// A name that std's `Path::join` adjoins as it is on every platform: it
/// does not start with `/` or `\\` (no root) and holds no `:` (no drive or
/// other prefix).
pub open spec fn plain_relative(name: Seq<char>) -> bool {
    &&& (name.len() == 0 || (name[0] != '/' && name[0] != '\\'))
    &&& forall|i: int| 0 <= i < name.len() ==> #[trigger] name[i] != ':'
}

/// A Windows verbatim path (`\\?\...`), which `Path::join` rebuilds from
/// its components.
pub open spec fn is_verbatim_path(base: Seq<char>) -> bool {
    base.len() >= 4 && base[0] == '\\' && base[1] == '\\' && base[2] == '?' && base[3] == '\\'
}

/// `base` and `name` with nothing, a `/` or a `\\` between them: what
/// joining a plain relative name gives on any platform.
pub open spec fn joined(base: Seq<char>, name: Seq<char>, r: Seq<char>) -> bool {
    r == base + name || r == base + seq!['/'] + name || r == base + seq!['\\'] + name
}

/// Calls std's `Path::join` and gives the path as text. A relative name
/// with no root and no prefix is appended to `base`, after the platform's
/// separator unless `base` is empty, already ends with a separator, or is
/// a bare drive; so the result is `base` and `name` with nothing, `/` or
/// `\\` between them. That is not stated of a verbatim `base`, which
/// `Path::join` rebuilds from its components, nor of a name with a root or
/// a prefix, which replaces part or all of `base` as the platform decides.
#[verifier::external_body]
pub(crate) fn join_path(base: &str, name: &str) -> (r: String)
    ensures
        plain_relative(name@) && !is_verbatim_path(base@) ==> joined(base@, name@, r@),
{
    std::path::Path::new(base).join(name).to_string_lossy().into_owned()
}

/// The plan file a path stands for: `ui_plan.json` joined to it (see
/// `join_path`) when it is a directory, else the path itself.
pub fn resolve_plan_path(input: &str, is_dir: bool) -> (r: String)
    ensures
        !is_dir ==> r@ == input@,
        is_dir && !is_verbatim_path(input@) ==> joined(input@, "ui_plan.json"@, r@),
{
    if is_dir {
        proof {
            reveal_strlit("ui_plan.json");
            assert(plain_relative("ui_plan.json"@));
        }
        join_path(input, "ui_plan.json")
    } else {
        owned(input)
    }
}

} // verus!

verus! {

/// How the confidence of the `i`-th issue is written: the text given for
/// it, or nothing.
pub open spec fn text_at(texts: Seq<Seq<char>>, i: int) -> Seq<char> {
    if 0 <= i < texts.len() {
        texts[i]
    } else {
        seq![]
    }
}

/// The lines of the first `k` issues, joined by line feeds.
pub open spec fn issue_lines(issues: Seq<PlanIssueView>, texts: Seq<Seq<char>>, k: int) -> Seq<char>
    decreases k,
{
    if k <= 0 {
        seq![]
    } else if k == 1 {
        issue_message(issues[0], text_at(texts, 0))
    } else {
        issue_lines(issues, texts, k - 1) + "\n"@ + issue_message(issues[k - 1], text_at(texts, k - 1))
    }
}

/// The line describing an orchestration error; `texts[i]` is how the
/// confidence of the `i`-th plan issue is written.
pub open spec fn spec_orchestrator_message(e: OrchestratorError, texts: Seq<Seq<char>>) -> Seq<char> {
    match e {
        OrchestratorError::MissingBundle(p) => "bundle directory not found: "@ + p@,
        OrchestratorError::MissingFile(p) => "missing required file: "@ + p@,
        OrchestratorError::ReadFile { path, message } => "failed to read "@ + path@ + ": "@ + message@,
        OrchestratorError::WriteFile { path, message } => "failed to write "@ + path@ + ": "@ + message@,
        OrchestratorError::ParseJson { path, message } => "failed to parse json from "@ + path@ + ": "@ + message@,
        OrchestratorError::PlanValidation(v) => "plan validation failed:\n"@ + issue_lines(
            issue_views(v@),
            texts,
            v@.len() as int,
        ),
    }
}

fn push_one(a: &str, b: &str) -> (r: String)
    ensures
        r@ == a@ + b@,
{
    let mut s = owned(a);
    push_str(&mut s, b);
    s
}

fn push_three(a: &str, b: &str, c: &str, d: &str) -> (r: String)
    ensures
        r@ == a@ + b@ + c@ + d@,
{
    let mut s = owned(a);
    push_str(&mut s, b);
    push_str(&mut s, c);
    push_str(&mut s, d);
    s
}

impl OrchestratorError {
    /// The line describing the error (see `spec_orchestrator_message`).
    pub fn message(&self, confidence_texts: &Vec<String>) -> (r: String)
        ensures
            r@ == spec_orchestrator_message(*self, str_views(confidence_texts@)),
    {
        match self {
            OrchestratorError::MissingBundle(p) => push_one("bundle directory not found: ", p.as_str()),
            OrchestratorError::MissingFile(p) => push_one("missing required file: ", p.as_str()),
            OrchestratorError::ReadFile { path, message } => push_three(
                "failed to read ",
                path.as_str(),
                ": ",
                message.as_str(),
            ),
            OrchestratorError::WriteFile { path, message } => push_three(
                "failed to write ",
                path.as_str(),
                ": ",
                message.as_str(),
            ),
            OrchestratorError::ParseJson { path, message } => push_three(
                "failed to parse json from ",
                path.as_str(),
                ": ",
                message.as_str(),
            ),
            OrchestratorError::PlanValidation(issues) => {
                let ghost iv = issue_views(issues@);
                let ghost tv = str_views(confidence_texts@);
                let mut s = owned("plan validation failed:\n");
                let ghost head = s@;
                let mut i: usize = 0;
                while i < issues.len()
                    invariant
                        i <= issues@.len(),
                        iv == issue_views(issues@),
                        tv == str_views(confidence_texts@),
                        s@ == head + issue_lines(iv, tv, i as int),
                    decreases issues.len() - i,
                {
                    if i > 0 {
                        push_str(&mut s, "\n");
                    }
                    let text = if i < confidence_texts.len() {
                        confidence_texts[i].as_str()
                    } else {
                        ""
                    };
                    proof {
                        reveal_strlit("");
                    }
                    assert(text@ == text_at(tv, i as int));
                    let line = issues[i].message(text);
                    assert(iv[i as int] == issues@[i as int]@);
                    push_str(&mut s, line.as_str());
                    i = i + 1;
                }
                s
            },
        }
    }
}

} // verus!
