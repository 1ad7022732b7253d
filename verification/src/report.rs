//! The diagnostic model: a [`Report`] describes one problem or
//! occurrence in the code and holds one or more [`Remark`]s, each with
//! a description and an optional code [`Snippet`].

use vstd::prelude::*;
use crate::pos::Span;

verus! {

/// A report can either be an `Error` or a `Warning`.
#[derive(Clone, Copy, PartialEq, Eq, Structural, Hash, Debug)]
pub enum ReportKind {
    /// Something went very wrong and will stop further processing.
    Error,
    /// Something important should be fixed, but doesn't stop
    /// processing.
    Warning,
}

/// Kinds of remarks.
#[derive(Clone, Copy, PartialEq, Eq, Structural, Hash, Debug)]
pub enum RemarkKind {
    /// Something went very wrong and will stop further processing.
    Error,
    /// Something important should be fixed, but doesn't stop
    /// processing.
    Warning,
    /// Additional information about an error or a warning.
    Note,
}

/// Reference to source text to display with a remark: either a plain
/// highlight of a span, or a suggested substitution for it.
#[derive(Clone, PartialEq, Eq, Debug)]
pub enum Snippet {
    /// Highlight the spanned source text as it is.
    Orig(Span),
    /// Show the spanned source text replaced by `with`.
    Replace { span: Span, with: String },
}

/// Mathematical model of a [`Snippet`].
pub enum SnippetModel {
    Orig(Span),
    Replace(Span, Seq<char>),
}

impl View for Snippet {
    type V = SnippetModel;

    open spec fn view(&self) -> SnippetModel {
        match self {
            Snippet::Orig(s) => SnippetModel::Orig(*s),
            Snippet::Replace { span, with } => SnippetModel::Replace(*span, with@),
        }
    }
}

impl DeepView for Snippet {
    type V = SnippetModel;

    open spec fn deep_view(&self) -> SnippetModel {
        self.view()
    }
}

/// The model of an optional snippet.
pub open spec fn snippet_opt_view(s: Option<Snippet>) -> Option<SnippetModel> {
    match s {
        Some(sn) => Some(sn@),
        None => None,
    }
}

/// Part of a [`Report`] that describes the occurrence with an optional
/// code snippet.
#[derive(Clone, PartialEq, Eq, Debug)]
pub struct Remark {
    pub kind: RemarkKind,
    /// Remark description.
    pub desc: String,
    pub snippet: Option<Snippet>,
}

/// Mathematical model of a [`Remark`].
pub struct RemarkModel {
    pub kind: RemarkKind,
    pub desc: Seq<char>,
    pub snippet: Option<SnippetModel>,
}

impl View for Remark {
    type V = RemarkModel;

    open spec fn view(&self) -> RemarkModel {
        RemarkModel { kind: self.kind, desc: self.desc@, snippet: snippet_opt_view(self.snippet) }
    }
}

impl DeepView for Remark {
    type V = RemarkModel;

    open spec fn deep_view(&self) -> RemarkModel {
        self.view()
    }
}

impl Remark {
    /// Creates a remark of the given kind.
    pub fn new(kind: RemarkKind, desc: String, snippet: Option<Snippet>) -> (r: Remark)
        ensures
            r@ == (RemarkModel { kind, desc: desc@, snippet: snippet_opt_view(snippet) }),
    {
        Remark { kind, desc, snippet }
    }

    /// Creates an error remark.
    pub fn error(desc: String, snippet: Option<Snippet>) -> (r: Remark)
        ensures
            r@ == (RemarkModel {
                kind: RemarkKind::Error,
                desc: desc@,
                snippet: snippet_opt_view(snippet),
            }),
    {
        Remark { kind: RemarkKind::Error, desc, snippet }
    }

    /// Creates a warning remark.
    pub fn warning(desc: String, snippet: Option<Snippet>) -> (r: Remark)
        ensures
            r@ == (RemarkModel {
                kind: RemarkKind::Warning,
                desc: desc@,
                snippet: snippet_opt_view(snippet),
            }),
    {
        Remark { kind: RemarkKind::Warning, desc, snippet }
    }

    /// Creates a note remark.
    pub fn note(desc: String, snippet: Option<Snippet>) -> (r: Remark)
        ensures
            r@ == (RemarkModel {
                kind: RemarkKind::Note,
                desc: desc@,
                snippet: snippet_opt_view(snippet),
            }),
    {
        Remark { kind: RemarkKind::Note, desc, snippet }
    }
}

/// Describes some kind of problem or occurrence in the code. Contains
/// one or more remarks with descriptions and separate code spans.
///
/// All spans reference an external file map which needs to be provided
/// when printing; see the `print` module.
#[derive(Clone, PartialEq, Eq, Debug)]
pub struct Report {
    /// Kind of the report (usually the same as the first remark kind).
    pub kind: ReportKind,
    /// Span of the main code snippet; may be the dummy span.
    pub span: Span,
    /// List of remarks describing the report, in render order.
    pub remarks: Vec<Remark>,
}

/// Mathematical model of a [`Report`].
pub struct ReportModel {
    pub kind: ReportKind,
    pub span: Span,
    pub remarks: Seq<RemarkModel>,
}

impl View for Report {
    type V = ReportModel;

    open spec fn view(&self) -> ReportModel {
        ReportModel { kind: self.kind, span: self.span, remarks: self.remarks.deep_view() }
    }
}

impl Report {
    /// Creates an error report with one message and one span: its one
    /// remark is an error remark carrying a plain highlight of the
    /// span.
    pub fn simple_error(msg: String, span: Span) -> (r: Report)
        ensures
            r@ == (ReportModel {
                kind: ReportKind::Error,
                span,
                remarks: seq![
                    RemarkModel {
                        kind: RemarkKind::Error,
                        desc: msg@,
                        snippet: Some(SnippetModel::Orig(span)),
                    },
                ],
            }),
    {
        let remark = Remark { kind: RemarkKind::Error, desc: msg, snippet: Some(Snippet::Orig(span)) };
        let ghost model = remark@;
        let mut remarks: Vec<Remark> = Vec::new();
        remarks.push(remark);
        proof {
            assert(remarks.deep_view() =~= seq![model]);
        }
        Report { kind: ReportKind::Error, span, remarks }
    }

    /// Creates a warning report with one message and one span: its one
    /// remark is a warning remark carrying a plain highlight of the
    /// span.
    pub fn simple_warning(msg: String, span: Span) -> (r: Report)
        ensures
            r@ == (ReportModel {
                kind: ReportKind::Warning,
                span,
                remarks: seq![
                    RemarkModel {
                        kind: RemarkKind::Warning,
                        desc: msg@,
                        snippet: Some(SnippetModel::Orig(span)),
                    },
                ],
            }),
    {
        let remark = Remark {
            kind: RemarkKind::Warning,
            desc: msg,
            snippet: Some(Snippet::Orig(span)),
        };
        let ghost model = remark@;
        let mut remarks: Vec<Remark> = Vec::new();
        remarks.push(remark);
        proof {
            assert(remarks.deep_view() =~= seq![model]);
        }
        Report { kind: ReportKind::Warning, span, remarks }
    }

    /// Appends a note without a span/code snippet to the existing
    /// report. Insertion order is kept: it is the render order.
    pub fn with_note(self, msg: String) -> (r: Report)
        ensures
            r@.kind == self@.kind,
            r@.span == self@.span,
            r@.remarks == self@.remarks.push(
                RemarkModel { kind: RemarkKind::Note, desc: msg@, snippet: None },
            ),
    {
        self.with_remark(Remark { kind: RemarkKind::Note, desc: msg, snippet: None })
    }

    /// Appends a note with a span/code snippet to the existing report.
    /// Insertion order is kept: it is the render order.
    pub fn with_span_note(self, msg: String, span: Span) -> (r: Report)
        ensures
            r@.kind == self@.kind,
            r@.span == self@.span,
            r@.remarks == self@.remarks.push(
                (RemarkModel {
                    kind: RemarkKind::Note,
                    desc: msg@,
                    snippet: Some(SnippetModel::Orig(span)),
                }),
            ),
    {
        self.with_remark(
            Remark { kind: RemarkKind::Note, desc: msg, snippet: Some(Snippet::Orig(span)) },
        )
    }

    /// Appends an arbitrary remark to the existing report. Insertion
    /// order is kept: it is the render order.
    pub fn with_remark(self, remark: Remark) -> (r: Report)
        ensures
            r@.kind == self@.kind,
            r@.span == self@.span,
            r@.remarks == self@.remarks.push(remark@),
    {
        let ghost model = remark@;
        let ghost pre = self.remarks.deep_view();
        let mut remarks = self.remarks;
        remarks.push(remark);
        proof {
            assert(remarks.deep_view() =~= pre.push(model));
        }
        Report { kind: self.kind, span: self.span, remarks }
    }
}

} // verus!
