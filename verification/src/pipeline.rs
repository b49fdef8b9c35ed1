use vstd::prelude::*;

use crate::errors::{spec_exit_code, AppError, AppErrorView};
use crate::manifest::ManifestWarning;
use crate::models::UiPlan;
use crate::report::{to_forward_slashes, warning_views};
use crate::text::{
    chars_of, decimal, is_ascii_alnum, is_unicode_whitespace, is_whitespace, owned, push_char,
    push_decimal_wide, push_str, replace_char, string_of_chars, ascii_lower, to_ascii_lower,
};
use crate::validation::{join_path, OrchestratorError};

verus! {

/// Why a run of the command line failed.
#[derive(Debug)]
pub enum CliError {
    Export(AppError),
    Orchestrator(OrchestratorError),
    Io { path: String, message: String },
}

/// The exit code of a failed run: that of the export error, else 1.
pub open spec fn spec_cli_exit_code(e: CliError) -> i32 {
    match e {
        CliError::Export(a) => spec_exit_code(a@),
        _ => 1,
    }
}

impl CliError {
    /// The process exit code (see `spec_cli_exit_code`).
    pub fn exit_code(&self) -> (c: i32)
        ensures
            c == spec_cli_exit_code(*self),
    {
        match self {
            CliError::Export(e) => e.exit_code(),
            CliError::Orchestrator(_) | CliError::Io { .. } => 1,
        }
    }
}

/// The arguments of `export`.
#[derive(Debug, Clone)]
pub struct ExportCommandArgs {
    pub input: String,
    pub out: String,
    pub with_preview: bool,
    pub include_hidden: bool,
    pub strict: bool,
    pub photoshop_path: Option<String>,
    pub photoshop_timeout_sec: u64,
}

/// The arguments of `plan`.
#[derive(Debug, Clone)]
pub struct PlanCommandArgs {
    pub bundle_dir: String,
    pub out: Option<String>,
}

/// The arguments of `validate`.
#[derive(Debug, Clone)]
pub struct ValidateCommandArgs {
    pub plan_path: String,
}

/// The arguments of `pipeline`.
#[derive(Debug, Clone)]
pub struct PipelineCommandArgs {
    pub input: String,
    pub cache_dir: String,
    pub include_hidden: bool,
    pub strict: bool,
    pub photoshop_path: Option<String>,
    pub photoshop_timeout_sec: u64,
}

/// How a pipeline bundle directory is named.
#[derive(Debug, Clone, Copy, PartialEq, Eq)]
pub enum BundleNaming {
    /// The input's stem, `-`, and the milliseconds since the Unix epoch.
    Timestamped,
}

/// A warning of a pipeline run.
#[derive(Debug, Clone)]
pub struct PipelineWarning {
    pub code: String,
    pub message: String,
}

/// What a pipeline run produced.
#[derive(Debug, Clone)]
pub struct PipelineResult {
    pub bundle_dir: String,
    pub plan_path: String,
    pub validation_report_path: String,
    pub document_id: String,
    pub warnings: Vec<PipelineWarning>,
}

/// The views of pipeline warnings.
pub open spec fn pipeline_warning_views(s: Seq<PipelineWarning>) -> Seq<(Seq<char>, Seq<char>)> {
    s.map_values(|w: PipelineWarning| (w.code@, w.message@))
}

/// What a pipeline run reports, from the bundle directory and the plan made
/// in it: the paths with forward slashes, the plan's document id and
/// warnings.
pub fn run_pipeline(
    bundle_dir: &str,
    plan_path: &str,
    report_path: &str,
    plan: &UiPlan,
) -> (r: PipelineResult)
    ensures
        r.bundle_dir@ == replace_char(bundle_dir@, '\\', "/"@),
        r.plan_path@ == replace_char(plan_path@, '\\', "/"@),
        r.validation_report_path@ == replace_char(report_path@, '\\', "/"@),
        r.document_id@ == plan.source_bundle.document_id@,
        pipeline_warning_views(r.warnings@) == warning_views(plan.warnings@),
{
    let mut warnings: Vec<PipelineWarning> = Vec::new();
    let mut i: usize = 0;
    while i < plan.warnings.len()
        invariant
            i <= plan.warnings@.len(),
            warnings@.len() == i,
            forall|k: int|
                0 <= k < i ==> (#[trigger] warnings@[k]).code@ == plan.warnings@[k].code@
                    && warnings@[k].message@ == plan.warnings@[k].message@,
        decreases plan.warnings.len() - i,
    {
        warnings.push(
            PipelineWarning { code: plan.warnings[i].code.clone(), message: plan.warnings[i].message.clone() },
        );
        i = i + 1;
    }
    assert(pipeline_warning_views(warnings@) =~= warning_views(plan.warnings@));
    PipelineResult {
        bundle_dir: to_forward_slashes(bundle_dir),
        plan_path: to_forward_slashes(plan_path),
        validation_report_path: to_forward_slashes(report_path),
        document_id: plan.source_bundle.document_id.clone(),
        warnings,
    }
}

/// The characters kept of a file stem, in order, with what they became:
/// ASCII letters and digits (lower-cased), `-` and `_` unless the same
/// character was just kept, and `_` for white space unless `_` was just
/// kept.
pub open spec fn segment_chars(s: Seq<char>) -> Seq<char>
    decreases s.len(),
{
    if s.len() == 0 {
        seq![]
    } else {
        let prev = segment_chars(s.drop_last());
        let c = s.last();
        let ends = |x: char| prev.len() > 0 && prev.last() == x;
        if is_ascii_alnum(c) {
            prev.push(ascii_lower(c))
        } else if (c == '-' || c == '_') && !ends(c) {
            prev.push(c)
        } else if is_unicode_whitespace(c) && !ends('_') {
            prev.push('_')
        } else {
            prev
        }
    }
}

pub open spec fn is_dash_or_underscore(c: char) -> bool {
    c == '-' || c == '_'
}

pub open spec fn trim_segment_start(s: Seq<char>) -> Seq<char>
    decreases s.len(),
{
    if s.len() > 0 && is_dash_or_underscore(s[0]) {
        trim_segment_start(s.drop_first())
    } else {
        s
    }
}

pub open spec fn trim_segment_end(s: Seq<char>) -> Seq<char>
    decreases s.len(),
{
    if s.len() > 0 && is_dash_or_underscore(s.last()) {
        trim_segment_end(s.drop_last())
    } else {
        s
    }
}

/// A bundle directory name segment made from a file stem (see
/// `segment_chars`), with `-` and `_` trimmed from both ends; `document`
/// when nothing is left.
pub open spec fn spec_sanitize_bundle_segment(s: Seq<char>) -> Seq<char> {
    let t = trim_segment_end(trim_segment_start(segment_chars(s)));
    if t.len() == 0 {
        "document"@
    } else {
        t
    }
}

/// A bundle directory name segment made from a file stem (see
/// `spec_sanitize_bundle_segment`).
pub fn sanitize_bundle_segment(value: &str) -> (r: String)
    ensures
        r@ == spec_sanitize_bundle_segment(value@),
{
    let cs = chars_of(value);
    let mut cleaned: Vec<char> = Vec::new();
    let mut i: usize = 0;
    while i < cs.len()
        invariant
            cs@ == value@,
            i <= cs@.len(),
            cleaned@ == segment_chars(value@.subrange(0, i as int)),
        decreases cs.len() - i,
    {
        assert(value@.subrange(0, i + 1).drop_last() =~= value@.subrange(0, i as int));
        let c = cs[i];
        let n = cleaned.len();
        if crate::text::ascii_alnum(c) {
            cleaned.push(to_ascii_lower(c));
        } else if (c == '-' || c == '_') && !(n > 0 && cleaned[n - 1] == c) {
            cleaned.push(c);
        } else if is_whitespace(c) && !(n > 0 && cleaned[n - 1] == '_') {
            cleaned.push('_');
        }
        i = i + 1;
    }
    assert(value@.subrange(0, cs@.len() as int) =~= value@);
    let ghost m = cleaned@;
    let mut lo: usize = 0;
    assert(m.subrange(0, m.len() as int) =~= m);
    while lo < cleaned.len() && (cleaned[lo] == '-' || cleaned[lo] == '_')
        invariant
            cleaned@ == m,
            lo <= m.len(),
            trim_segment_start(m) == trim_segment_start(m.subrange(lo as int, m.len() as int)),
        decreases cleaned.len() - lo,
    {
        assert(m.subrange(lo as int, m.len() as int).drop_first() =~= m.subrange(lo + 1, m.len() as int));
        lo = lo + 1;
    }
    let ghost mid = m.subrange(lo as int, m.len() as int);
    assert(trim_segment_start(mid) == mid);
    let mut hi: usize = cleaned.len();
    while hi > lo && (cleaned[hi - 1] == '-' || cleaned[hi - 1] == '_')
        invariant
            cleaned@ == m,
            lo <= hi <= m.len(),
            mid == m.subrange(lo as int, m.len() as int),
            trim_segment_end(mid) == trim_segment_end(m.subrange(lo as int, hi as int)),
        decreases hi,
    {
        assert(m.subrange(lo as int, hi as int).drop_last() =~= m.subrange(lo as int, hi - 1));
        hi = hi - 1;
    }
    let ghost t = m.subrange(lo as int, hi as int);
    assert(trim_segment_end(t) == t);
    if lo == hi {
        return owned("document");
    }
    let mut kept: Vec<char> = Vec::new();
    let mut k: usize = lo;
    while k < hi
        invariant
            cleaned@ == m,
            lo <= k <= hi <= m.len(),
            kept@ == m.subrange(lo as int, k as int),
        decreases hi - k,
    {
        kept.push(cleaned[k]);
        k = k + 1;
        assert(kept@ =~= m.subrange(lo as int, k as int));
    }
    string_of_chars(&kept)
}

/// The name of a pipeline bundle directory: the sanitized input stem
/// (`document` when the input has none), `-`, and the milliseconds since the
/// Unix epoch.
pub open spec fn spec_bundle_name(stem: Option<Seq<char>>, millis: u128) -> Seq<char> {
    spec_sanitize_bundle_segment(
        match stem {
            Some(s) => s,
            None => "document"@,
        },
    ) + seq!['-'] + decimal(millis as nat)
}

/// The name of a pipeline bundle directory (see `spec_bundle_name`).
pub fn pipeline_bundle_name(stem: Option<&str>, naming: BundleNaming, millis: u128) -> (r: String)
    ensures
        r@ == spec_bundle_name(
            match stem {
                Some(s) => Some(s@),
                None => None,
            },
            millis,
        ),
{
    let mut name = sanitize_bundle_segment(
        match stem {
            Some(s) => s,
            None => "document",
        },
    );
    match naming {
        BundleNaming::Timestamped => {
            push_char(&mut name, '-');
            push_decimal_wide(&mut name, millis);
        },
    }
    name
}

/// The directory a plan is written to: the one given, else `plan` joined
/// to the bundle directory (see `join_path`).
pub fn plan_out_dir(bundle_dir: &str, out: Option<&str>) -> (r: String)
    ensures
        out matches Some(o) ==> r@ == o@,
        out is None && !crate::validation::is_verbatim_path(bundle_dir@) ==> crate::validation::joined(
            bundle_dir@,
            "plan"@,
            r@,
        ),
{
    match out {
        Some(o) => owned(o),
        None => {
            proof {
                reveal_strlit("plan");
                assert(crate::validation::plain_relative("plan"@));
            }
            join_path(bundle_dir, "plan")
        },
    }
}

} // verus!

verus! {

/// A character a bundle directory name segment may hold.
pub open spec fn is_segment_char(c: char) -> bool {
    ('0' <= c && c <= '9') || ('a' <= c && c <= 'z') || c == '-' || c == '_'
}

proof fn lemma_segment_chars(s: Seq<char>)
    ensures
        forall|i: int| 0 <= i < segment_chars(s).len() ==> is_segment_char(#[trigger] segment_chars(s)[i]),
        forall|i: int|
            0 <= i < segment_chars(s).len() - 1 ==> !(is_dash_or_underscore(#[trigger] segment_chars(s)[i])
                && segment_chars(s)[i] == segment_chars(s)[i + 1]),
        (forall|i: int| 0 <= i < s.len() ==> !is_ascii_alnum(#[trigger] s[i])) ==> forall|i: int|
            0 <= i < segment_chars(s).len() ==> is_dash_or_underscore(#[trigger] segment_chars(s)[i]),
    decreases s.len(),
{
    if s.len() > 0 {
        let prev = segment_chars(s.drop_last());
        lemma_segment_chars(s.drop_last());
        let c = s.last();
        if is_ascii_alnum(c) {
            assert(is_segment_char(ascii_lower(c))) by {
                if 'A' <= c && c <= 'Z' {
                    assert(65 <= (c as u32) <= 90);
                }
            }
        }
        let r = segment_chars(s);
        assert(r == prev || r == prev.push(ascii_lower(c)) || r == prev.push(c) || r == prev.push('_'));
        assert forall|i: int| 0 <= i < r.len() implies is_segment_char(#[trigger] r[i]) by {
            if i < prev.len() {
                assert(r[i] == prev[i]);
            }
        }
        assert forall|i: int|
            0 <= i < r.len() - 1 implies !(is_dash_or_underscore(#[trigger] r[i]) && r[i] == r[i + 1]) by {
            if i + 1 < prev.len() {
                assert(r[i] == prev[i]);
                assert(r[i + 1] == prev[i + 1]);
            } else {
                assert(r.len() == prev.len() + 1);
                assert(r[i] == prev.last());
                if is_ascii_alnum(c) {
                    assert(!is_dash_or_underscore(ascii_lower(c))) by {
                        if 'A' <= c && c <= 'Z' {
                            assert(65 <= (c as u32) <= 90);
                        }
                    }
                }
            }
        }
        if forall|i: int| 0 <= i < s.len() ==> !is_ascii_alnum(#[trigger] s[i]) {
            assert(forall|i: int| 0 <= i < s.drop_last().len() ==> !is_ascii_alnum(#[trigger] s.drop_last()[i])) by {
                assert forall|i: int| 0 <= i < s.drop_last().len() implies !is_ascii_alnum(#[trigger] s.drop_last()[i]) by {
                    assert(s.drop_last()[i] == s[i]);
                }
            }
            assert(!is_ascii_alnum(s[s.len() - 1]));
            assert forall|i: int| 0 <= i < r.len() implies is_dash_or_underscore(#[trigger] r[i]) by {
                if i < prev.len() {
                    assert(r[i] == prev[i]);
                }
            }
        }
    }
}

proof fn lemma_trim_segment_start(s: Seq<char>)
    ensures
        trim_segment_start(s).len() <= s.len(),
        trim_segment_start(s) == s.subrange(s.len() - trim_segment_start(s).len(), s.len() as int),
        trim_segment_start(s).len() > 0 ==> !is_dash_or_underscore(trim_segment_start(s)[0]),
    decreases s.len(),
{
    if s.len() > 0 && is_dash_or_underscore(s[0]) {
        lemma_trim_segment_start(s.drop_first());
        let r = trim_segment_start(s.drop_first());
        assert(s.drop_first().subrange(s.drop_first().len() - r.len(), s.drop_first().len() as int) =~= s.subrange(
            s.len() - r.len(),
            s.len() as int,
        ));
    } else {
        assert(s.subrange(0, s.len() as int) =~= s);
    }
}

proof fn lemma_trim_segment_end(s: Seq<char>)
    ensures
        trim_segment_end(s).len() <= s.len(),
        trim_segment_end(s) == s.subrange(0, trim_segment_end(s).len() as int),
        trim_segment_end(s).len() > 0 ==> !is_dash_or_underscore(trim_segment_end(s).last()),
    decreases s.len(),
{
    if s.len() > 0 && is_dash_or_underscore(s.last()) {
        lemma_trim_segment_end(s.drop_last());
        let r = trim_segment_end(s.drop_last());
        assert(s.drop_last().subrange(0, r.len() as int) =~= s.subrange(0, r.len() as int));
    } else {
        assert(s.subrange(0, s.len() as int) =~= s);
    }
}

/// A bundle directory name segment is never empty, holds only ASCII small
/// letters, digits, `-` and `_`, neither starts nor ends with `-` or `_`,
/// never holds `--` or `__`, and is `document` when the stem has no ASCII
/// letter or digit.
pub proof fn law_bundle_segments_are_safe(stem: Seq<char>)
    ensures
        spec_sanitize_bundle_segment(stem).len() > 0,
        forall|i: int|
            0 <= i < spec_sanitize_bundle_segment(stem).len() ==> is_segment_char(
                #[trigger] spec_sanitize_bundle_segment(stem)[i],
            ),
        !is_dash_or_underscore(spec_sanitize_bundle_segment(stem)[0]),
        !is_dash_or_underscore(spec_sanitize_bundle_segment(stem).last()),
        forall|i: int|
            0 <= i < spec_sanitize_bundle_segment(stem).len() - 1 ==> !(is_dash_or_underscore(
                #[trigger] spec_sanitize_bundle_segment(stem)[i],
            ) && spec_sanitize_bundle_segment(stem)[i] == spec_sanitize_bundle_segment(stem)[i + 1]),
        (forall|i: int| 0 <= i < stem.len() ==> !is_ascii_alnum(#[trigger] stem[i])) ==> spec_sanitize_bundle_segment(
            stem,
        ) == "document"@,
{
    let m = segment_chars(stem);
    let a = trim_segment_start(m);
    let t = trim_segment_end(a);
    lemma_segment_chars(stem);
    lemma_trim_segment_start(m);
    lemma_trim_segment_end(a);
    reveal_strlit("document");
    if t.len() > 0 {
        assert forall|i: int| 0 <= i < t.len() implies is_segment_char(#[trigger] t[i]) by {
            assert(t[i] == a[i]);
            assert(a[i] == m[m.len() - a.len() + i]);
        }
        assert(t[0] == a[0]);
        let off = m.len() - a.len();
        assert forall|i: int| 0 <= i < t.len() - 1 implies !(is_dash_or_underscore(#[trigger] t[i]) && t[i] == t[
            i + 1
        ]) by {
            assert(t[i] == a[i] && a[i] == m[off + i]);
            assert(t[i + 1] == a[i + 1] && a[i + 1] == m[off + i + 1]);
        }
    }
    if forall|i: int| 0 <= i < stem.len() ==> !is_ascii_alnum(#[trigger] stem[i]) {
        if a.len() > 0 {
            assert(a[0] == m[m.len() - a.len()]);
        }
        assert(a.len() == 0);
        assert(t.len() == 0);
    }
}

} // verus!

verus! {

/// The line describing a failed run; `texts[i]` is how the confidence of
/// the `i`-th plan issue is written.
pub open spec fn spec_cli_message(e: CliError, texts: Seq<Seq<char>>) -> Seq<char> {
    match e {
        CliError::Export(a) => crate::errors::spec_error_message(a@),
        CliError::Orchestrator(o) => crate::validation::spec_orchestrator_message(o, texts),
        CliError::Io { path, message } => "failed to prepare pipeline output under "@ + path@ + ": "@ + message@,
    }
}

impl CliError {
    /// The line describing the failure (see `spec_cli_message`).
    pub fn message(&self, confidence_texts: &Vec<String>) -> (r: String)
        ensures
            r@ == spec_cli_message(*self, crate::hierarchy::str_views(confidence_texts@)),
    {
        match self {
            CliError::Export(e) => e.message(),
            CliError::Orchestrator(o) => o.message(confidence_texts),
            CliError::Io { path, message } => {
                let mut s = owned("failed to prepare pipeline output under ");
                push_str(&mut s, path.as_str());
                push_str(&mut s, ": ");
                push_str(&mut s, message.as_str());
                s
            },
        }
    }
}

} // verus!
