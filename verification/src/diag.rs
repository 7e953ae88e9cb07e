//! Source spans and the diagnostic sink that the scanner reports errors to.

use vstd::prelude::*;

verus! {

broadcast use vstd::string::group_string_axioms;

/// A range of byte offsets into the original source text, used to point
/// diagnostics at the exact characters a parameter occupied.
#[derive(Clone, Copy, Debug, PartialEq, Eq, Structural)]
pub struct Span {
    /// Byte offset of the first character covered by the span.
    pub lo: usize,
    /// Byte offset one past the last character covered by the span.
    pub hi: usize,
}

impl Span {
    /// A span never ends before it starts.
    pub open spec fn wf(self) -> bool {
        self.lo <= self.hi
    }

    /// Number of bytes the span covers.
    pub open spec fn spec_len(self) -> int {
        self.hi - self.lo
    }
}

/// The single error taxonomy of the scanner: a template whose brackets do
/// not pair up as `<` followed by a later `>`.
#[derive(Clone, Copy, Debug, PartialEq, Eq, Structural)]
pub enum ErrorKind {
    MalformedParameters,
}

impl ErrorKind {
    /// The human-readable message attached to every report of this kind.
    pub fn message(&self) -> (s: String)
        ensures
            s@ == "malformed parameters"@,
    {
        "malformed parameters".to_string()
    }
}

/// One diagnostic: an error kind and the span it is reported against.
#[derive(Clone, Copy, Debug, PartialEq, Eq, Structural)]
pub struct Report {
    pub span: Span,
    pub kind: ErrorKind,
}

/// The error sink. The scanner reports malformed templates here as a side
/// effect; the caller inspects the sink after the sequence is exhausted to
/// learn whether the scan failed.
pub struct Diagnostics {
    reports: Vec<Report>,
}

impl View for Diagnostics {
    type V = Seq<Report>;

    closed spec fn view(&self) -> Seq<Report> {
        self.reports@
    }
}

impl Diagnostics {
    /// An empty sink with no reports.
    pub fn new() -> (d: Diagnostics)
        ensures
            d@ == Seq::<Report>::empty(),
    {
        Diagnostics { reports: Vec::new() }
    }

    /// Record one error against a span, keeping every earlier report.
    pub fn span_err(&mut self, span: Span, kind: ErrorKind)
        ensures
            final(self)@ == old(self)@.push((Report { span: span, kind: kind })),
    {
        self.reports.push(Report { span: span, kind: kind });
    }

    /// How many reports the sink has received.
    pub fn len(&self) -> (n: usize)
        ensures
            n == self@.len(),
    {
        self.reports.len()
    }

    /// Whether any error has been reported.
    pub fn has_errors(&self) -> (b: bool)
        ensures
            b == (self@.len() > 0),
    {
        self.reports.len() > 0
    }

    /// The `i`th report, in the order the reports were made.
    pub fn report(&self, i: usize) -> (r: &Report)
        requires
            i < self@.len(),
        ensures
            *r == self@[i as int],
    {
        &self.reports[i]
    }
}

} // verus!
