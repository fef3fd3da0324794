use vstd::prelude::*;

use crate::text::{join, joined, texts};

verus! {

/// How serious a diagnostic is. Only `Error` makes a document invalid.
#[derive(Debug, Clone, Copy, PartialEq, Eq, Structural)]
pub enum Severity {
    Error,
    Warning,
    Advisory,
}

impl Severity {
    /// The lower-case name of the severity.
    pub open spec fn text(self) -> Seq<char> {
        match self {
            Severity::Error => "error"@,
            Severity::Warning => "warning"@,
            Severity::Advisory => "advisory"@,
        }
    }

    /// Renders the severity as its lower-case name.
    pub fn to_string(&self) -> (s: String)
        ensures
            s@ == self.text(),
    {
        match self {
            Severity::Error => String::from_str("error"),
            Severity::Warning => String::from_str("warning"),
            Severity::Advisory => String::from_str("advisory"),
        }
    }
}

/// The rule that a diagnostic reports on.
#[derive(Debug, Clone, Copy, PartialEq, Eq, Structural)]
pub enum Rule {
    SchemaValidation,
    DuplicateNodeId,
    DanglingEdge,
    TrunkCycle,
    GeneralCycle,
    OrphanNode,
}

impl Rule {
    /// The kebab-case identifier of the rule.
    pub open spec fn text(self) -> Seq<char> {
        match self {
            Rule::SchemaValidation => "schema-validation"@,
            Rule::DuplicateNodeId => "duplicate-node-id"@,
            Rule::DanglingEdge => "dangling-edge"@,
            Rule::TrunkCycle => "trunk-cycle"@,
            Rule::GeneralCycle => "general-cycle"@,
            Rule::OrphanNode => "orphan-node"@,
        }
    }

    /// Renders the rule as its kebab-case identifier.
    pub fn to_string(&self) -> (s: String)
        ensures
            s@ == self.text(),
    {
        match self {
            Rule::SchemaValidation => String::from_str("schema-validation"),
            Rule::DuplicateNodeId => String::from_str("duplicate-node-id"),
            Rule::DanglingEdge => String::from_str("dangling-edge"),
            Rule::TrunkCycle => String::from_str("trunk-cycle"),
            Rule::GeneralCycle => String::from_str("general-cycle"),
            Rule::OrphanNode => String::from_str("orphan-node"),
        }
    }
}

/// The part of a document that a diagnostic points at.
#[derive(Debug, Clone)]
pub enum Location {
    Root,
    Node(String),
    Edge { source: String, target: String },
    Path(Vec<String>),
}

/// The mathematical value of a [`Location`].
pub enum LocationView {
    Root,
    Node(Seq<char>),
    Edge { source: Seq<char>, target: Seq<char> },
    Path(Seq<Seq<char>>),
}

impl LocationView {
    /// The rendering of a location for display.
    pub open spec fn text(self) -> Seq<char> {
        match self {
            LocationView::Root => "(document root)"@,
            LocationView::Node(id) => "node '"@ + id + "'"@,
            LocationView::Edge { source, target } => "edge '"@ + source + "' -> '"@ + target
                + "'"@,
            LocationView::Path(ids) => "path: "@ + joined(ids, " -> "@),
        }
    }
}

impl View for Location {
    type V = LocationView;

    open spec fn view(&self) -> LocationView {
        match self {
            Location::Root => LocationView::Root,
            Location::Node(id) => LocationView::Node(id@),
            Location::Edge { source, target } => LocationView::Edge {
                source: source@,
                target: target@,
            },
            Location::Path(ids) => LocationView::Path(texts(ids@)),
        }
    }
}

impl Location {
    /// Renders the location for display.
    pub fn to_string(&self) -> (s: String)
        ensures
            s@ == self@.text(),
    {
        match self {
            Location::Root => String::from_str("(document root)"),
            Location::Node(id) => {
                let mut s = String::from_str("node '");
                s.append(id.as_str());
                s.append("'");
                s
            },
            Location::Edge { source, target } => {
                let mut s = String::from_str("edge '");
                s.append(source.as_str());
                s.append("' -> '");
                s.append(target.as_str());
                s.append("'");
                s
            },
            Location::Path(ids) => {
                let mut s = String::from_str("path: ");
                let list = join(ids, " -> ");
                s.append(list.as_str());
                s
            },
        }
    }
}

/// One reported issue.
#[derive(Debug, Clone)]
pub struct Diagnostic {
    pub rule: Rule,
    pub message: String,
    pub location: Location,
    pub severity: Severity,
}

/// The mathematical value of a [`Diagnostic`].
pub struct DiagnosticView {
    pub rule: Rule,
    pub message: Seq<char>,
    pub location: LocationView,
    pub severity: Severity,
}

impl DiagnosticView {
    /// The one-line rendering of a diagnostic.
    pub open spec fn text(self) -> Seq<char> {
        "["@ + self.severity.text() + "] "@ + self.rule.text() + ": "@ + self.message + " (at "@
            + self.location.text() + ")"@
    }
}

impl View for Diagnostic {
    type V = DiagnosticView;

    open spec fn view(&self) -> DiagnosticView {
        DiagnosticView {
            rule: self.rule,
            message: self.message@,
            location: self.location@,
            severity: self.severity,
        }
    }
}

impl Diagnostic {
    /// Renders the diagnostic on one line.
    pub fn to_string(&self) -> (s: String)
        ensures
            s@ == self@.text(),
    {
        let mut s = String::from_str("[");
        let severity = self.severity.to_string();
        s.append(severity.as_str());
        s.append("] ");
        let rule = self.rule.to_string();
        s.append(rule.as_str());
        s.append(": ");
        s.append(self.message.as_str());
        s.append(" (at ");
        let location = self.location.to_string();
        s.append(location.as_str());
        s.append(")");
        s
    }
}

/// The views of a sequence of diagnostics.
pub open spec fn diagnostic_views(v: Seq<Diagnostic>) -> Seq<DiagnosticView> {
    v.map_values(|d: Diagnostic| d@)
}

/// Summary counts of a document.
#[derive(Debug, Clone, Copy, PartialEq, Eq, Structural)]
pub struct DocumentStats {
    pub node_count: usize,
    pub edge_count: usize,
    pub trunk_length: usize,
    pub branch_count: usize,
    pub tier: u8,
}

/// The outcome of validating one document.
#[derive(Debug)]
pub struct ValidationResult {
    pub is_valid: bool,
    pub errors: Vec<Diagnostic>,
    pub warnings: Vec<Diagnostic>,
    pub advisories: Vec<Diagnostic>,
    pub stats: DocumentStats,
}

/// The mathematical value of a [`ValidationResult`].
pub struct ValidationResultView {
    pub is_valid: bool,
    pub errors: Seq<DiagnosticView>,
    pub warnings: Seq<DiagnosticView>,
    pub advisories: Seq<DiagnosticView>,
    pub stats: DocumentStats,
}

impl View for ValidationResult {
    type V = ValidationResultView;

    open spec fn view(&self) -> ValidationResultView {
        ValidationResultView {
            is_valid: self.is_valid,
            errors: diagnostic_views(self.errors@),
            warnings: diagnostic_views(self.warnings@),
            advisories: diagnostic_views(self.advisories@),
            stats: self.stats,
        }
    }
}

} // verus!
