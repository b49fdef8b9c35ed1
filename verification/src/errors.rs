use vstd::prelude::*;

use crate::text::{decimal, owned, push_decimal, push_str};

verus! {

/// Why an export failed. `Io` carries the path and the operating system's
/// message; the others carry a description.
#[derive(Debug, Clone)]
pub enum AppError {
    Io { path: String, message: String },
    Json(String),
    Cli(String),
    UnsupportedPsd(String),
    PsdParse(String),
    StrictWarnings { warning_count: usize },
    Manifest(String),
    Photoshop(String),
}

/// An export error with its strings seen as character sequences.
pub enum AppErrorView {
    Io { path: Seq<char>, message: Seq<char> },
    Json(Seq<char>),
    Cli(Seq<char>),
    UnsupportedPsd(Seq<char>),
    PsdParse(Seq<char>),
    StrictWarnings { warning_count: nat },
    Manifest(Seq<char>),
    Photoshop(Seq<char>),
}

impl View for AppError {
    type V = AppErrorView;

    open spec fn view(&self) -> AppErrorView {
        match self {
            AppError::Io { path, message } => AppErrorView::Io { path: path@, message: message@ },
            AppError::Json(m) => AppErrorView::Json(m@),
            AppError::Cli(m) => AppErrorView::Cli(m@),
            AppError::UnsupportedPsd(m) => AppErrorView::UnsupportedPsd(m@),
            AppError::PsdParse(m) => AppErrorView::PsdParse(m@),
            AppError::StrictWarnings { warning_count } => AppErrorView::StrictWarnings {
                warning_count: *warning_count as nat,
            },
            AppError::Manifest(m) => AppErrorView::Manifest(m@),
            AppError::Photoshop(m) => AppErrorView::Photoshop(m@),
        }
    }
}

/// The process exit code for each kind of error.
pub open spec fn spec_exit_code(e: AppErrorView) -> i32 {
    match e {
        AppErrorView::Cli(_) => 2,
        AppErrorView::UnsupportedPsd(_) => 3,
        AppErrorView::PsdParse(_) => 4,
        AppErrorView::StrictWarnings { .. } => 5,
        AppErrorView::Manifest(_) => 6,
        AppErrorView::Photoshop(_) => 7,
        AppErrorView::Io { .. } => 1,
        AppErrorView::Json(_) => 1,
    }
}

impl AppError {
    /// The process exit code: 2 usage, 3 unsupported PSD, 4 parse failure,
    /// 5 strict-mode warnings, 6 manifest, 7 Photoshop, 1 I/O and JSON.
    pub fn exit_code(&self) -> (c: i32)
        ensures
            c == spec_exit_code(self@),
    {
        match self {
            AppError::Cli(_) => 2,
            AppError::UnsupportedPsd(_) => 3,
            AppError::PsdParse(_) => 4,
            AppError::StrictWarnings { .. } => 5,
            AppError::Manifest(_) => 6,
            AppError::Photoshop(_) => 7,
            AppError::Io { .. } | AppError::Json(_) => 1,
        }
    }

    /// An I/O error on `path`.
    pub fn io(path: String, message: String) -> (e: AppError)
        ensures
            e@ == (AppErrorView::Io { path: path@, message: message@ }),
    {
        AppError::Io { path, message }
    }
}

/// The line describing an error.
pub open spec fn spec_error_message(e: AppErrorView) -> Seq<char> {
    match e {
        AppErrorView::Io { path, message } => "failed to read or write "@ + path + ": "@ + message,
        AppErrorView::Json(m) => "failed to serialize manifest: "@ + m,
        AppErrorView::Cli(m) => "invalid CLI usage: "@ + m,
        AppErrorView::UnsupportedPsd(m) => "unsupported PSD: "@ + m,
        AppErrorView::PsdParse(m) => "failed to parse PSD: "@ + m,
        AppErrorView::StrictWarnings { warning_count } => "strict mode aborted export because "@ + decimal(
            warning_count,
        ) + " warning(s) were raised"@,
        AppErrorView::Manifest(m) => "manifest generation failed: "@ + m,
        AppErrorView::Photoshop(m) => "photoshop raster export failed: "@ + m,
    }
}

impl AppError {
    /// The line describing the error (see `spec_error_message`).
    pub fn message(&self) -> (r: String)
        ensures
            r@ == spec_error_message(self@),
    {
        let (head, tail) = match self {
            AppError::Io { path, message } => {
                let mut s = owned("failed to read or write ");
                push_str(&mut s, path.as_str());
                push_str(&mut s, ": ");
                push_str(&mut s, message.as_str());
                return s;
            },
            AppError::Json(m) => ("failed to serialize manifest: ", m),
            AppError::Cli(m) => ("invalid CLI usage: ", m),
            AppError::UnsupportedPsd(m) => ("unsupported PSD: ", m),
            AppError::PsdParse(m) => ("failed to parse PSD: ", m),
            AppError::StrictWarnings { warning_count } => {
                let mut s = owned("strict mode aborted export because ");
                push_decimal(&mut s, *warning_count as u64);
                push_str(&mut s, " warning(s) were raised");
                return s;
            },
            AppError::Manifest(m) => ("manifest generation failed: ", m),
            AppError::Photoshop(m) => ("photoshop raster export failed: ", m),
        };
        let mut s = owned(head);
        push_str(&mut s, tail.as_str());
        s
    }
}

} // verus!
