//! Compiler diagnostics: a code, a severity, a message and an optional
//! source locator.

use vstd::prelude::*;

verus! {

/// How serious a diagnostic is.
#[derive(Debug, Clone, Copy, PartialEq, Eq, Structural)]
pub enum DiagnosticSeverity {
    Error,
    Warning,
}

/// A structured locator naming the document element a diagnostic is about,
/// resolved to a line/column span by the caller that holds the source text.
#[derive(Debug, Clone)]
pub enum SpanKey {
    ImportAlias { alias: String },
    InitiatingEvent { tree: String, field: String },
    NodeField { tree: String, id: String, field: String },
    TopEvent { tree: String, field: String },
    BasicEventField { tree: String, id: String, field: String },
    BranchField { tree: String, id: String, branch: usize, field: String },
    Node { tree: String, id: String },
    BasicEvent { tree: String, id: String },
    Gate { tree: String, id: String },
    GateInput { tree: String, id: String, idx: usize },
    GateField { tree: String, id: String, field: String },
    Transfer { tree: String, id: String, field: String },
    FaultTree { tree: String },
}

/// The mathematical value of a [`SpanKey`]: every string taken by its
/// characters.
pub enum SpanKeyView {
    ImportAlias { alias: Seq<char> },
    InitiatingEvent { tree: Seq<char>, field: Seq<char> },
    NodeField { tree: Seq<char>, id: Seq<char>, field: Seq<char> },
    TopEvent { tree: Seq<char>, field: Seq<char> },
    BasicEventField { tree: Seq<char>, id: Seq<char>, field: Seq<char> },
    BranchField { tree: Seq<char>, id: Seq<char>, branch: nat, field: Seq<char> },
    Node { tree: Seq<char>, id: Seq<char> },
    BasicEvent { tree: Seq<char>, id: Seq<char> },
    Gate { tree: Seq<char>, id: Seq<char> },
    GateInput { tree: Seq<char>, id: Seq<char>, idx: nat },
    GateField { tree: Seq<char>, id: Seq<char>, field: Seq<char> },
    Transfer { tree: Seq<char>, id: Seq<char>, field: Seq<char> },
    FaultTree { tree: Seq<char> },
}

impl View for SpanKey {
    type V = SpanKeyView;

    open spec fn view(&self) -> SpanKeyView {
        match self {
            SpanKey::ImportAlias { alias } => SpanKeyView::ImportAlias { alias: alias@ },
            SpanKey::InitiatingEvent { tree, field } => SpanKeyView::InitiatingEvent {
                tree: tree@,
                field: field@,
            },
            SpanKey::NodeField { tree, id, field } => SpanKeyView::NodeField {
                tree: tree@,
                id: id@,
                field: field@,
            },
            SpanKey::TopEvent { tree, field } => SpanKeyView::TopEvent { tree: tree@, field: field@ },
            SpanKey::BasicEventField { tree, id, field } => SpanKeyView::BasicEventField {
                tree: tree@,
                id: id@,
                field: field@,
            },
            SpanKey::BranchField { tree, id, branch, field } => SpanKeyView::BranchField {
                tree: tree@,
                id: id@,
                branch: *branch as nat,
                field: field@,
            },
            SpanKey::Node { tree, id } => SpanKeyView::Node { tree: tree@, id: id@ },
            SpanKey::BasicEvent { tree, id } => SpanKeyView::BasicEvent { tree: tree@, id: id@ },
            SpanKey::Gate { tree, id } => SpanKeyView::Gate { tree: tree@, id: id@ },
            SpanKey::GateInput { tree, id, idx } => SpanKeyView::GateInput {
                tree: tree@,
                id: id@,
                idx: *idx as nat,
            },
            SpanKey::GateField { tree, id, field } => SpanKeyView::GateField {
                tree: tree@,
                id: id@,
                field: field@,
            },
            SpanKey::Transfer { tree, id, field } => SpanKeyView::Transfer {
                tree: tree@,
                id: id@,
                field: field@,
            },
            SpanKey::FaultTree { tree } => SpanKeyView::FaultTree { tree: tree@ },
        }
    }
}

/// One finding about a document.
#[derive(Debug, Clone)]
pub struct Diagnostic {
    pub code: String,
    pub severity: DiagnosticSeverity,
    pub message: String,
    pub line: Option<u32>,
    pub column: Option<u32>,
    pub end_line: Option<u32>,
    pub end_column: Option<u32>,
    /// Structured locator used to resolve source positions.
    pub key: Option<SpanKey>,
}

/// The mathematical value of a [`Diagnostic`].
pub struct DiagnosticView {
    pub code: Seq<char>,
    pub severity: DiagnosticSeverity,
    pub message: Seq<char>,
    pub line: Option<u32>,
    pub column: Option<u32>,
    pub end_line: Option<u32>,
    pub end_column: Option<u32>,
    pub key: Option<SpanKeyView>,
}

pub open spec fn key_view(k: Option<SpanKey>) -> Option<SpanKeyView> {
    match k {
        Some(k) => Some(k@),
        None => None,
    }
}

impl View for Diagnostic {
    type V = DiagnosticView;

    open spec fn view(&self) -> DiagnosticView {
        DiagnosticView {
            code: self.code@,
            severity: self.severity,
            message: self.message@,
            line: self.line,
            column: self.column,
            end_line: self.end_line,
            end_column: self.end_column,
            key: key_view(self.key),
        }
    }
}

/// An error with no position and no locator.
pub open spec fn error_view(code: Seq<char>, message: Seq<char>) -> DiagnosticView {
    DiagnosticView {
        code,
        severity: DiagnosticSeverity::Error,
        message,
        line: None,
        column: None,
        end_line: None,
        end_column: None,
        key: None,
    }
}

/// A warning with no position and no locator.
pub open spec fn warning_view(code: Seq<char>, message: Seq<char>) -> DiagnosticView {
    DiagnosticView { severity: DiagnosticSeverity::Warning, ..error_view(code, message) }
}

/// `d` with the locator `key` attached.
pub open spec fn located(d: DiagnosticView, key: SpanKeyView) -> DiagnosticView {
    DiagnosticView { key: Some(key), ..d }
}

/// The values of a sequence of diagnostics.
pub open spec fn views(ds: Seq<Diagnostic>) -> Seq<DiagnosticView> {
    ds.map_values(|d: Diagnostic| d@)
}

/// Whether some diagnostic in `ds` is an error.
pub open spec fn has_error(ds: Seq<DiagnosticView>) -> bool {
    exists|i: int| 0 <= i < ds.len() && ds[i].severity == DiagnosticSeverity::Error
}

impl Diagnostic {
    pub fn error(code: &str, message: String) -> (d: Diagnostic)
        ensures
            d@ == error_view(code@, message@),
    {
        Diagnostic {
            code: code.to_owned(),
            severity: DiagnosticSeverity::Error,
            message,
            line: None,
            column: None,
            end_line: None,
            end_column: None,
            key: None,
        }
    }

    pub fn warning(code: &str, message: String) -> (d: Diagnostic)
        ensures
            d@ == warning_view(code@, message@),
    {
        Diagnostic {
            code: code.to_owned(),
            severity: DiagnosticSeverity::Warning,
            message,
            line: None,
            column: None,
            end_line: None,
            end_column: None,
            key: None,
        }
    }

    pub fn with_position(self, line: u32, column: u32) -> (d: Diagnostic)
        ensures
            d@ == (DiagnosticView { line: Some(line), column: Some(column), ..self@ }),
    {
        let mut d = self;
        d.line = Some(line);
        d.column = Some(column);
        d
    }

    /// Attach a structured source locator so the caller can resolve the span.
    pub fn at(self, key: SpanKey) -> (d: Diagnostic)
        ensures
            d@ == located(self@, key@),
    {
        let mut d = self;
        d.key = Some(key);
        d
    }

    pub fn is_error(&self) -> (b: bool)
        ensures
            b == (self.severity == DiagnosticSeverity::Error),
    {
        match self.severity {
            DiagnosticSeverity::Error => true,
            DiagnosticSeverity::Warning => false,
        }
    }
}

/// An error located at `key`.
pub fn error_at(code: &str, message: String, key: SpanKey) -> (d: Diagnostic)
    ensures
        d@ == located(error_view(code@, message@), key@),
{
    Diagnostic::error(code, message).at(key)
}

/// A warning located at `key`.
pub fn warning_at(code: &str, message: String, key: SpanKey) -> (d: Diagnostic)
    ensures
        d@ == located(warning_view(code@, message@), key@),
{
    Diagnostic::warning(code, message).at(key)
}

/// Append `d` to `out`.
pub fn push_diag(out: &mut Vec<Diagnostic>, d: Diagnostic)
    ensures
        views(final(out)@) == views(old(out)@).push(d@),
{
    out.push(d);
    assert(views(out@) =~= views(old(out)@).push(d@));
}

/// Append every diagnostic of `more` to `out`, in order.
pub fn extend_diags(out: &mut Vec<Diagnostic>, more: Vec<Diagnostic>)
    ensures
        views(final(out)@) == views(old(out)@) + views(more@),
{
    let ghost m = more@;
    let mut more = more;
    out.append(&mut more);
    assert(views(out@) =~= views(old(out)@) + views(m));
}

/// Whether any diagnostic in `ds` is an error.
pub fn any_error(ds: &Vec<Diagnostic>) -> (b: bool)
    ensures
        b == has_error(views(ds@)),
{
    let mut i: usize = 0;
    while i < ds.len()
        invariant
            i <= ds.len(),
            forall|j: int| 0 <= j < i ==> ds@[j].severity != DiagnosticSeverity::Error,
        decreases ds.len() - i,
    {
        if ds[i].is_error() {
            assert(views(ds@)[i as int].severity == DiagnosticSeverity::Error);
            return true;
        }
        i = i + 1;
    }
    assert forall|j: int| 0 <= j < views(ds@).len() implies views(ds@)[j].severity
        != DiagnosticSeverity::Error by {
        assert(views(ds@)[j] == ds@[j]@);
    }
    false
}

} // verus!

verus! {

/// Taking one more element of `s` adds that element's image to a flat map.
pub proof fn lemma_flat_map_step<A, B>(s: Seq<A>, f: spec_fn(A) -> Seq<B>, i: int)
    requires
        0 <= i < s.len(),
    ensures
        s.take(i + 1).flat_map(f) == s.take(i).flat_map(f) + f(s[i]),
{
    assert(s.take(i + 1) =~= s.take(i).push(s[i]));
    s.take(i).lemma_flat_map_push(f, s[i]);
}

/// The flat map over no elements is empty.
pub proof fn lemma_flat_map_empty<A, B>(s: Seq<A>, f: spec_fn(A) -> Seq<B>)
    ensures
        s.take(0).flat_map(f) == Seq::<B>::empty(),
{
    assert(s.take(0).map_values(f) =~= Seq::<Seq<B>>::empty());
    assert(s.take(0).map_values(f).flatten() =~= Seq::<B>::empty());
}

/// Taking the whole sequence is the sequence.
pub proof fn lemma_take_all<A>(s: Seq<A>)
    ensures
        s.take(s.len() as int) == s,
{
    assert(s.take(s.len() as int) =~= s);
}

} // verus!

verus! {

/// The position part of a diagnostic line: ` (<line>:<column>)`, one-based,
/// where both are known.
pub open spec fn position_text(d: DiagnosticView) -> Seq<char> {
    match (d.line, d.column) {
        (Some(l), Some(c)) => " ("@ + crate::text::decimal((l + 1) as nat) + ":"@
            + crate::text::decimal((c + 1) as nat) + ")"@,
        _ => Seq::empty(),
    }
}

/// `[ERROR] <code><position>: <message>` (or `[WARNING] ...`), the line
/// the command line prints for a diagnostic.
pub open spec fn line_text(d: DiagnosticView) -> Seq<char> {
    let level = if d.severity == DiagnosticSeverity::Error {
        "ERROR"@
    } else {
        "WARNING"@
    };
    "["@ + level + "] "@ + d.code + position_text(d) + ": "@ + d.message
}

/// The printed line of a diagnostic.
pub fn diagnostic_line(d: &Diagnostic) -> (s: String)
    ensures
        s@ == line_text(d@),
{
    let level = if d.is_error() {
        "ERROR"
    } else {
        "WARNING"
    };
    let position = match (d.line, d.column) {
        (Some(l), Some(c)) => {
            let ls = crate::text::decimal_string(l as u64 + 1);
            let cs = crate::text::decimal_string(c as u64 + 1);
            crate::text::cat5(" (", ls.as_str(), ":", cs.as_str(), ")")
        },
        _ => String::new(),
    };
    let head = crate::text::cat5("[", level, "] ", d.code.as_str(), position.as_str());
    let r = crate::text::cat3(head.as_str(), ": ", d.message.as_str());
    assert(position@ == position_text(d@));
    r
}

} // verus!
