//! Static typing of branch conditions against the schema of the
//! initiating message (V-204, V-207, V-208), and the keyword paths the
//! supplements define (E-135, E-143, E-163, E-173).

use vstd::prelude::*;
use crate::diagnostic::{
    error_view, located, views, push_diag, extend_diags, error_at, lemma_flat_map_step,
    lemma_flat_map_empty, lemma_take_all, Diagnostic, DiagnosticView, SpanKey, SpanKeyView,
};
use crate::ecel::{
    BoolExpr, Comparator, Comparison, Condition, FuncName, Literal, Operand, PathExpr, PathSegment,
    QuantifierExpr, ValueExpr,
};
use crate::model::{Branch, Document, EventTreeEntry, Node, NodeEntry};
use crate::text::{decimal, decimal_string, owned, same, cat, cat3, cat5};
use crate::validate::{declares, message_ref_resolves, message_resolves};

verus! {

/// The static type of an ECEL value.
#[derive(Debug)]
pub enum EcelType {
    Number,
    String,
    Bool,
    Null,
    Array(Box<EcelType>),
    Object,
    Unknown,
}

/// How a type is written in diagnostics.
pub open spec fn type_text(t: EcelType) -> Seq<char>
    decreases t,
{
    match t {
        EcelType::Number => "Number"@,
        EcelType::String => "String"@,
        EcelType::Bool => "Bool"@,
        EcelType::Null => "Null"@,
        EcelType::Array(inner) => "Array("@ + type_text(*inner) + ")"@,
        EcelType::Object => "Object"@,
        EcelType::Unknown => "Unknown"@,
    }
}

pub fn type_string(t: &EcelType) -> (s: String)
    ensures
        s@ == type_text(*t),
    decreases t,
{
    match t {
        EcelType::Number => owned("Number"),
        EcelType::String => owned("String"),
        EcelType::Bool => owned("Bool"),
        EcelType::Null => owned("Null"),
        EcelType::Array(inner) => cat3("Array(", type_string(inner).as_str(), ")"),
        EcelType::Object => owned("Object"),
        EcelType::Unknown => owned("Unknown"),
    }
}

/// Whether two types are the same.
pub fn same_type(a: &EcelType, b: &EcelType) -> (r: bool)
    ensures
        r == (*a == *b),
    decreases a,
{
    match (a, b) {
        (EcelType::Number, EcelType::Number) => true,
        (EcelType::String, EcelType::String) => true,
        (EcelType::Bool, EcelType::Bool) => true,
        (EcelType::Null, EcelType::Null) => true,
        (EcelType::Object, EcelType::Object) => true,
        (EcelType::Unknown, EcelType::Unknown) => true,
        (EcelType::Array(x), EcelType::Array(y)) => same_type(x, y),
        _ => false,
    }
}

/// The mathematical value of a path segment.
pub enum SegmentView {
    Field(Seq<char>),
    Wildcard,
    Index(u64),
    QuotedKey(Seq<char>),
}

impl View for PathSegment {
    type V = SegmentView;

    open spec fn view(&self) -> SegmentView {
        match self {
            PathSegment::Field(f) => SegmentView::Field(f@),
            PathSegment::Wildcard => SegmentView::Wildcard,
            PathSegment::Index(i) => SegmentView::Index(*i),
            PathSegment::QuotedKey(k) => SegmentView::QuotedKey(k@),
        }
    }
}

/// The segments of a path, by value.
pub open spec fn path_view(p: PathExpr) -> Seq<SegmentView> {
    p.segments@.map_values(|s: PathSegment| s@)
}

/// What the schema of a tree's initiating message says at a path.
#[derive(Debug)]
pub enum SchemaLookup {
    /// The message's schema could not be resolved.
    Unresolvable,
    /// The path does not exist in the schema.
    Absent,
    /// The path exists: its type, and its `format` when it has one.
    Present(EcelType, Option<String>),
}

/// One resolved path of the schema of tree `tree`'s initiating message.
#[derive(Debug)]
pub struct PathSchema {
    pub tree: String,
    pub path: Vec<PathSegment>,
    pub lookup: SchemaLookup,
}

/// The schema lookups of the documents' initiating messages. A path of a
/// tree that no entry lists is absent from its schema; the first entry
/// for a path decides.
#[derive(Debug)]
pub struct MessageSchemas {
    pub entries: Vec<PathSchema>,
}

/// The index of the first entry for path `p` of tree `tree`, or the number
/// of entries.
pub open spec fn schema_index(s: MessageSchemas, tree: Seq<char>, p: Seq<SegmentView>, n: int) -> int
    decreases n,
{
    if n <= 0 {
        0
    } else {
        let k = schema_index(s, tree, p, n - 1);
        if k < n - 1 {
            k
        } else {
            let e = s.entries@[n - 1];
            if e.tree@ == tree && e.path@.map_values(|x: PathSegment| x@) == p {
                n - 1
            } else {
                n
            }
        }
    }
}

/// The schema lookup of path `p` in tree `tree`.
pub open spec fn lookup(s: MessageSchemas, tree: Seq<char>, p: Seq<SegmentView>) -> SchemaLookup {
    let k = schema_index(s, tree, p, s.entries@.len() as int);
    if 0 <= k < s.entries@.len() {
        s.entries@[k].lookup
    } else {
        SchemaLookup::Absent
    }
}

fn same_segment(a: &PathSegment, b: &PathSegment) -> (r: bool)
    ensures
        r == (a@ == b@),
{
    match (a, b) {
        (PathSegment::Field(x), PathSegment::Field(y)) => same(x.as_str(), y.as_str()),
        (PathSegment::Wildcard, PathSegment::Wildcard) => true,
        (PathSegment::Index(x), PathSegment::Index(y)) => *x == *y,
        (PathSegment::QuotedKey(x), PathSegment::QuotedKey(y)) => same(x.as_str(), y.as_str()),
        _ => false,
    }
}

fn same_path(a: &Vec<PathSegment>, b: &Vec<PathSegment>) -> (r: bool)
    ensures
        r == (a@.map_values(|x: PathSegment| x@) == b@.map_values(|x: PathSegment| x@)),
{
    let ghost av = a@.map_values(|x: PathSegment| x@);
    let ghost bv = b@.map_values(|x: PathSegment| x@);
    if a.len() != b.len() {
        assert(av.len() != bv.len());
        return false;
    }
    let mut i: usize = 0;
    while i < a.len()
        invariant
            a@.len() == b@.len(),
            i <= a@.len(),
            av == a@.map_values(|x: PathSegment| x@),
            bv == b@.map_values(|x: PathSegment| x@),
            forall|j: int| 0 <= j < i ==> av[j] == bv[j],
        decreases a.len() - i,
    {
        if !same_segment(&a[i], &b[i]) {
            assert(av[i as int] != bv[i as int]);
            return false;
        }
        i = i + 1;
    }
    assert(av =~= bv);
    true
}

/// The schema lookup of path `p` in tree `tree`.
pub fn lookup_path<'a>(s: &'a MessageSchemas, tree: &str, p: &PathExpr) -> (r: &'a SchemaLookup)
    ensures
        *r == lookup(*s, tree@, path_view(*p)),
{
    let ghost pv = path_view(*p);
    let mut i: usize = 0;
    while i < s.entries.len()
        invariant
            i <= s.entries@.len(),
            pv == path_view(*p),
            schema_index(*s, tree@, pv, i as int) == i,
        decreases s.entries.len() - i,
    {
        let e = &s.entries[i];
        if same(e.tree.as_str(), tree) && same_path(&e.path, &p.segments) {
            proof {
                assert(schema_index(*s, tree@, pv, i + 1) == i);
                lemma_schema_index_stable(*s, tree@, pv, i + 1, s.entries@.len() as int);
            }
            return &e.lookup;
        }
        i = i + 1;
    }
    let r = &SchemaLookup::Absent;
    r
}

pub proof fn lemma_schema_index_stable(
    s: MessageSchemas,
    tree: Seq<char>,
    p: Seq<SegmentView>,
    m: int,
    n: int,
)
    requires
        0 < m <= n,
        schema_index(s, tree, p, m) < m,
    ensures
        schema_index(s, tree, p, n) == schema_index(s, tree, p, m),
    decreases n - m,
{
    if m < n {
        lemma_schema_index_stable(s, tree, p, m, n - 1);
    }
}

// ---------------------------------------------------------------------------
// Paths
// ---------------------------------------------------------------------------

/// Whether path `p` starts with the keyword `kw`.
pub open spec fn rooted_at(p: PathExpr, kw: Seq<char>) -> bool {
    path_view(p).len() > 0 && path_view(p)[0] == SegmentView::Field(kw)
}

/// The type of a keyword path: `Bool` for exactly `<root>.<name>`, else
/// `Unknown`.
pub open spec fn keyword_path_type(p: PathExpr, name: Seq<char>) -> EcelType {
    let v = path_view(p);
    if v.len() == 2 && v[0] is Field && v[1] == SegmentView::Field(name) {
        EcelType::Bool
    } else {
        EcelType::Unknown
    }
}

/// How a segment is written in a path: `f`, `[*]`, `[3]`, `["k"]`.
pub open spec fn segment_text(s: SegmentView) -> Seq<char> {
    match s {
        SegmentView::Field(f) => f,
        SegmentView::Wildcard => "[*]"@,
        SegmentView::Index(i) => "["@ + decimal(i as nat) + "]"@,
        SegmentView::QuotedKey(k) => "[\""@ + k + "\"]"@,
    }
}

/// The first `n` segments written out, joined with `.`.
pub open spec fn path_text_upto(v: Seq<SegmentView>, n: int) -> Seq<char>
    decreases n,
{
    if n <= 0 {
        Seq::empty()
    } else if n == 1 {
        segment_text(v[0])
    } else {
        path_text_upto(v, n - 1) + "."@ + segment_text(v[n - 1])
    }
}

/// A path written out, segments joined with `.`.
pub open spec fn path_text(p: PathExpr) -> Seq<char> {
    path_text_upto(path_view(p), path_view(p).len() as int)
}

fn segment_string(s: &PathSegment) -> (r: String)
    ensures
        r@ == segment_text(s@),
{
    match s {
        PathSegment::Field(f) => owned(f.as_str()),
        PathSegment::Wildcard => owned("[*]"),
        PathSegment::Index(i) => cat3("[", decimal_string(*i).as_str(), "]"),
        PathSegment::QuotedKey(k) => cat3("[\"", k.as_str(), "\"]"),
    }
}

pub fn path_to_string(p: &PathExpr) -> (r: String)
    ensures
        r@ == path_text(*p),
{
    let ghost v = path_view(*p);
    let mut r = owned("");
    proof {
        reveal_strlit("");
    }
    let mut i: usize = 0;
    while i < p.segments.len()
        invariant
            i <= p.segments@.len(),
            v == path_view(*p),
            r@ == path_text_upto(v, i as int),
        decreases p.segments.len() - i,
    {
        let s = segment_string(&p.segments[i]);
        if i == 0 {
            r = s;
        } else {
            r = cat3(r.as_str(), ".", s.as_str());
        }
        i = i + 1;
    }
    r
}

fn rooted(p: &PathExpr, kw: &str) -> (b: bool)
    ensures
        b == rooted_at(*p, kw@),
{
    if p.segments.len() == 0 {
        return false;
    }
    match &p.segments[0] {
        PathSegment::Field(f) => same(f.as_str(), kw),
        _ => false,
    }
}

fn keyword_type(p: &PathExpr, name: &str) -> (t: EcelType)
    ensures
        t == keyword_path_type(*p, name@),
{
    if p.segments.len() != 2 {
        return EcelType::Unknown;
    }
    match (&p.segments[0], &p.segments[1]) {
        (PathSegment::Field(_), PathSegment::Field(n)) => {
            if same(n.as_str(), name) {
                EcelType::Bool
            } else {
                EcelType::Unknown
            }
        },
        _ => EcelType::Unknown,
    }
}

// ---------------------------------------------------------------------------
// Types of expressions
// ---------------------------------------------------------------------------

/// The type of a path, read from the schema of tree `tree`'s message.
pub open spec fn path_type(s: MessageSchemas, tree: Seq<char>, p: PathExpr) -> EcelType {
    if rooted_at(p, "reliability"@) {
        keyword_path_type(p, "in_range"@)
    } else if rooted_at(p, "performance"@) {
        keyword_path_type(p, "in_budget"@)
    } else if rooted_at(p, "safety"@) {
        keyword_path_type(p, "sil_maintained"@)
    } else if rooted_at(p, "security"@) {
        keyword_path_type(p, "control_effective"@)
    } else if path_view(p).len() <= 1 {
        EcelType::Object
    } else {
        match lookup(s, tree, path_view(p)) {
            SchemaLookup::Present(t, _) => t,
            _ => EcelType::Unknown,
        }
    }
}

/// The type a value expression evaluates to when it is valid.
pub open spec fn value_type(s: MessageSchemas, tree: Seq<char>, e: ValueExpr) -> EcelType {
    match e {
        ValueExpr::Path(p) => path_type(s, tree, p),
        ValueExpr::Call(f, _) => match f {
            FuncName::Lower => EcelType::String,
            FuncName::Upper => EcelType::String,
            _ => EcelType::Number,
        },
        _ => EcelType::Number,
    }
}

/// The type of a literal: an array takes its first item's type.
pub open spec fn literal_type(l: Literal) -> EcelType
    decreases l,
{
    match l {
        Literal::Number(_) => EcelType::Number,
        Literal::String(_) => EcelType::String,
        Literal::Bool(_) => EcelType::Bool,
        Literal::Null => EcelType::Null,
        Literal::Array(items) => EcelType::Array(
            Box::new(
                if items@.len() > 0 {
                    literal_type(items@[0])
                } else {
                    EcelType::Unknown
                },
            ),
        ),
    }
}

pub open spec fn operand_type(s: MessageSchemas, tree: Seq<char>, o: Operand) -> EcelType {
    match o {
        Operand::Value(v) => value_type(s, tree, v),
        Operand::Literal(l) => literal_type(l),
    }
}

fn path_type_of(s: &MessageSchemas, tree: &str, p: &PathExpr) -> (t: EcelType)
    ensures
        t == path_type(*s, tree@, *p),
{
    if rooted(p, "reliability") {
        keyword_type(p, "in_range")
    } else if rooted(p, "performance") {
        keyword_type(p, "in_budget")
    } else if rooted(p, "safety") {
        keyword_type(p, "sil_maintained")
    } else if rooted(p, "security") {
        keyword_type(p, "control_effective")
    } else if p.segments.len() <= 1 {
        EcelType::Object
    } else {
        match lookup_path(s, tree, p) {
            SchemaLookup::Present(t, _) => copy_type(t),
            _ => EcelType::Unknown,
        }
    }
}

fn copy_type(t: &EcelType) -> (r: EcelType)
    ensures
        r == *t,
    decreases t,
{
    match t {
        EcelType::Number => EcelType::Number,
        EcelType::String => EcelType::String,
        EcelType::Bool => EcelType::Bool,
        EcelType::Null => EcelType::Null,
        EcelType::Array(inner) => EcelType::Array(Box::new(copy_type(inner))),
        EcelType::Object => EcelType::Object,
        EcelType::Unknown => EcelType::Unknown,
    }
}

fn value_type_of(s: &MessageSchemas, tree: &str, e: &ValueExpr) -> (t: EcelType)
    ensures
        t == value_type(*s, tree@, *e),
{
    match e {
        ValueExpr::Path(p) => path_type_of(s, tree, p),
        ValueExpr::Call(f, _) => match f {
            FuncName::Lower => EcelType::String,
            FuncName::Upper => EcelType::String,
            _ => EcelType::Number,
        },
        _ => EcelType::Number,
    }
}

fn literal_type_of(l: &Literal) -> (t: EcelType)
    ensures
        t == literal_type(*l),
    decreases l,
{
    match l {
        Literal::Number(_) => EcelType::Number,
        Literal::String(_) => EcelType::String,
        Literal::Bool(_) => EcelType::Bool,
        Literal::Null => EcelType::Null,
        Literal::Array(items) => {
            if items.len() > 0 {
                EcelType::Array(Box::new(literal_type_of(&items[0])))
            } else {
                EcelType::Array(Box::new(EcelType::Unknown))
            }
        },
    }
}

fn operand_type_of(s: &MessageSchemas, tree: &str, o: &Operand) -> (t: EcelType)
    ensures
        t == operand_type(*s, tree@, *o),
{
    match o {
        Operand::Value(v) => value_type_of(s, tree, v),
        Operand::Literal(l) => literal_type_of(l),
    }
}

/// Whether a schema `format` is a temporal one.
pub open spec fn temporal(f: Seq<char>) -> bool {
    f == "date-time"@ || f == "date"@ || f == "time"@
}

/// Whether an operand is a bare path whose schema has a temporal format.
pub open spec fn temporal_operand(s: MessageSchemas, tree: Seq<char>, o: Operand) -> bool {
    match o {
        Operand::Value(ValueExpr::Path(p)) => match lookup(s, tree, path_view(p)) {
            SchemaLookup::Present(_, Some(f)) => temporal(f@),
            _ => false,
        },
        _ => false,
    }
}

fn is_temporal_operand(s: &MessageSchemas, tree: &str, o: &Operand) -> (b: bool)
    ensures
        b == temporal_operand(*s, tree@, *o),
{
    match o {
        Operand::Value(ValueExpr::Path(p)) => match lookup_path(s, tree, p) {
            SchemaLookup::Present(_, Some(f)) => same(f.as_str(), "date-time") || same(
                f.as_str(),
                "date",
            ) || same(f.as_str(), "time"),
            _ => false,
        },
        _ => false,
    }
}

} // verus!

verus! {

// ---------------------------------------------------------------------------
// Diagnostics
// ---------------------------------------------------------------------------

/// The prefix of a condition diagnostic: `barrier '<node>' branch <i>: `.
pub open spec fn bprefix(node: Seq<char>, bi: nat) -> Seq<char> {
    "barrier '"@ + node + "' branch "@ + decimal(bi) + ": "@
}

/// An error about the condition of branch `bi` of barrier `node`.
pub open spec fn cond_err(
    code: Seq<char>,
    tree: Seq<char>,
    node: Seq<char>,
    bi: nat,
    rest: Seq<char>,
) -> Seq<DiagnosticView> {
    seq![
        located(
            error_view(code, bprefix(node, bi) + rest),
            SpanKeyView::BranchField { tree, id: node, branch: bi, field: "condition"@ },
        ),
    ]
}

/// The diagnostics of a keyword path `p` (rooted at `root`, whose one valid
/// form is `<root>.<name>`): its supplement `supp` (and, when `needs_live`,
/// `etdl.live-reliability` too) must be declared, the path must be the
/// valid form, and it must be the whole condition.
pub open spec fn keyword_diags(
    doc: Document,
    code: Seq<char>,
    supp: Seq<char>,
    needs_live: bool,
    root: Seq<char>,
    name: Seq<char>,
    p: PathExpr,
    top: bool,
    tree: Seq<char>,
    node: Seq<char>,
    bi: nat,
) -> Seq<DiagnosticView> {
    if !declares(doc, supp) {
        cond_err(
            code,
            tree,
            node,
            bi,
            "'"@ + path_text(p) + "' requires the document to declare supplement "@ + supp,
        )
    } else if needs_live && !declares(doc, "etdl.live-reliability"@) {
        cond_err(
            code,
            tree,
            node,
            bi,
            "'"@ + path_text(p)
                + "' also requires the document to declare supplement etdl.live-reliability"@,
        )
    } else if keyword_path_type(p, name) is Unknown {
        cond_err(
            code,
            tree,
            node,
            bi,
            "'"@ + root + "' path must be exactly '"@ + root + "."@ + name + "', got '"@
                + path_text(p) + "'"@,
        )
    } else if !top {
        cond_err(
            code,
            tree,
            node,
            bi,
            "'"@ + root + "."@ + name
                + "' must be the entire branch condition, not combined with &&/||/! \u{2014} split it into its own branch"@,
        )
    } else {
        Seq::empty()
    }
}

/// The diagnostics of a path operand.
pub open spec fn path_diags(
    doc: Document,
    p: PathExpr,
    top: bool,
    tree: Seq<char>,
    node: Seq<char>,
    bi: nat,
) -> Seq<DiagnosticView> {
    if rooted_at(p, "reliability"@) {
        keyword_diags(doc, "E-173"@, "etdl.live-reliability"@, false, "reliability"@,
            "in_range"@, p, top, tree, node, bi)
    } else if rooted_at(p, "performance"@) {
        keyword_diags(doc, "E-163"@, "etdl.performance"@, false, "performance"@, "in_budget"@, p,
            top, tree, node, bi)
    } else if rooted_at(p, "safety"@) {
        keyword_diags(doc, "E-135"@, "etdl.safety"@, true, "safety"@, "sil_maintained"@, p, top,
            tree, node, bi)
    } else if rooted_at(p, "security"@) {
        keyword_diags(doc, "E-143"@, "etdl.security"@, true, "security"@,
            "control_effective"@, p, top, tree, node, bi)
    } else {
        Seq::empty()
    }
}

pub open spec fn func_text(f: FuncName) -> Seq<char> {
    match f {
        FuncName::Length => "length"@,
        FuncName::Abs => "abs"@,
        FuncName::Lower => "lower"@,
        FuncName::Upper => "upper"@,
    }
}

pub open spec fn func_expects(f: FuncName) -> Seq<char> {
    match f {
        FuncName::Length => "string or array"@,
        FuncName::Abs => "number"@,
        FuncName::Lower => "string"@,
        FuncName::Upper => "string"@,
    }
}

/// Whether function `f` accepts an argument of type `t`.
pub open spec fn call_ok(f: FuncName, t: EcelType) -> bool {
    ||| t is Unknown
    ||| (f == FuncName::Length && (t is String || t is Array))
    ||| (f == FuncName::Abs && t is Number)
    ||| ((f == FuncName::Lower || f == FuncName::Upper) && t is String)
}

/// V-204 for an arithmetic operand that is neither a number nor unknown.
pub open spec fn arith_diags(
    s: MessageSchemas,
    e: ValueExpr,
    tree: Seq<char>,
    node: Seq<char>,
    bi: nat,
) -> Seq<DiagnosticView> {
    let t = value_type(s, tree, e);
    if t is Number || t is Unknown {
        Seq::empty()
    } else {
        cond_err("V-204"@, tree, node, bi, "arithmetic operand must be number, got "@ + type_text(t))
    }
}

/// The diagnostics of a value expression: keyword paths, function argument
/// types, arithmetic operand types, division by a literal zero.
pub open spec fn value_diags(
    doc: Document,
    s: MessageSchemas,
    e: ValueExpr,
    top: bool,
    tree: Seq<char>,
    node: Seq<char>,
    bi: nat,
) -> Seq<DiagnosticView>
    decreases e,
{
    match e {
        ValueExpr::Path(p) => path_diags(doc, p, top, tree, node, bi),
        ValueExpr::Number(_) => Seq::empty(),
        ValueExpr::Call(f, arg) => value_diags(doc, s, *arg, false, tree, node, bi) + if call_ok(
            f,
            value_type(s, tree, *arg),
        ) {
            Seq::empty()
        } else {
            cond_err(
                "V-204"@,
                tree,
                node,
                bi,
                func_text(f) + "() argument must be "@ + func_expects(f) + ", got "@ + type_text(
                    value_type(s, tree, *arg),
                ),
            )
        },
        ValueExpr::Add(a, b) => value_diags(doc, s, *a, false, tree, node, bi) + value_diags(
            doc,
            s,
            *b,
            false,
            tree,
            node,
            bi,
        ) + arith_diags(s, *a, tree, node, bi) + arith_diags(s, *b, tree, node, bi),
        ValueExpr::Sub(a, b) => value_diags(doc, s, *a, false, tree, node, bi) + value_diags(
            doc,
            s,
            *b,
            false,
            tree,
            node,
            bi,
        ) + arith_diags(s, *a, tree, node, bi) + arith_diags(s, *b, tree, node, bi),
        ValueExpr::Mul(a, b) => value_diags(doc, s, *a, false, tree, node, bi) + value_diags(
            doc,
            s,
            *b,
            false,
            tree,
            node,
            bi,
        ) + arith_diags(s, *a, tree, node, bi) + arith_diags(s, *b, tree, node, bi),
        ValueExpr::Div(a, b) => value_diags(doc, s, *a, false, tree, node, bi) + value_diags(
            doc,
            s,
            *b,
            false,
            tree,
            node,
            bi,
        ) + arith_diags(s, *a, tree, node, bi) + arith_diags(s, *b, tree, node, bi) + match *b {
            ValueExpr::Number(n) => if n.is_zero {
                cond_err("V-207"@, tree, node, bi, "division by literal zero"@)
            } else {
                Seq::empty()
            },
            _ => Seq::empty(),
        },
    }
}

fn cond_error(code: &str, tree: &str, node: &str, bi: usize, rest: &str) -> (r: Vec<Diagnostic>)
    ensures
        views(r@) == cond_err(code@, tree@, node@, bi as nat, rest@),
{
    let msg = cat5("barrier '", node, "' branch ", decimal_string(bi as u64).as_str(), ": ").concat(
        rest,
    );
    let key = SpanKey::BranchField {
        tree: owned(tree),
        id: owned(node),
        branch: bi,
        field: owned("condition"),
    };
    let mut r: Vec<Diagnostic> = Vec::new();
    push_diag(&mut r, error_at(code, msg, key));
    assert(views(r@) =~= cond_err(code@, tree@, node@, bi as nat, rest@));
    r
}

fn keyword_check(
    doc: &Document,
    code: &str,
    supp: &str,
    needs_live: bool,
    root: &str,
    name: &str,
    p: &PathExpr,
    top: bool,
    tree: &str,
    node: &str,
    bi: usize,
) -> (r: Vec<Diagnostic>)
    ensures
        views(r@) == keyword_diags(*doc, code@, supp@, needs_live, root@, name@, *p, top, tree@,
            node@, bi as nat),
{
    if !declares_supplement_exec(doc, supp) {
        let rest = cat3("'", path_to_string(p).as_str(), "' requires the document to declare supplement ").concat(supp);
        cond_error(code, tree, node, bi, rest.as_str())
    } else if needs_live && !declares_supplement_exec(doc, "etdl.live-reliability") {
        let rest = cat3("'", path_to_string(p).as_str(),
            "' also requires the document to declare supplement etdl.live-reliability");
        cond_error(code, tree, node, bi, rest.as_str())
    } else if let EcelType::Unknown = keyword_type(p, name) {
        let rest = cat5("'", root, "' path must be exactly '", root, ".").concat(name).concat(
            "', got '",
        ).concat(path_to_string(p).as_str()).concat("'");
        cond_error(code, tree, node, bi, rest.as_str())
    } else if !top {
        let rest = cat5("'", root, ".", name,
            "' must be the entire branch condition, not combined with &&/||/! \u{2014} split it into its own branch");
        cond_error(code, tree, node, bi, rest.as_str())
    } else {
        let r: Vec<Diagnostic> = Vec::new();
        assert(views(r@) =~= Seq::<DiagnosticView>::empty());
        r
    }
}

fn declares_supplement_exec(doc: &Document, id: &str) -> (b: bool)
    ensures
        b == declares(*doc, id@),
{
    crate::validate::declares_supplement(doc, id)
}

fn path_check(doc: &Document, p: &PathExpr, top: bool, tree: &str, node: &str, bi: usize) -> (r: Vec<
    Diagnostic,
>)
    ensures
        views(r@) == path_diags(*doc, *p, top, tree@, node@, bi as nat),
{
    if rooted(p, "reliability") {
        keyword_check(doc, "E-173", "etdl.live-reliability", false, "reliability", "in_range", p,
            top, tree, node, bi)
    } else if rooted(p, "performance") {
        keyword_check(doc, "E-163", "etdl.performance", false, "performance", "in_budget", p, top,
            tree, node, bi)
    } else if rooted(p, "safety") {
        keyword_check(doc, "E-135", "etdl.safety", true, "safety", "sil_maintained", p, top, tree,
            node, bi)
    } else if rooted(p, "security") {
        keyword_check(doc, "E-143", "etdl.security", true, "security", "control_effective", p,
            top, tree, node, bi)
    } else {
        let r: Vec<Diagnostic> = Vec::new();
        assert(views(r@) =~= Seq::<DiagnosticView>::empty());
        r
    }
}

fn func_name_str(f: FuncName) -> (s: &'static str)
    ensures
        s@ == func_text(f),
{
    match f {
        FuncName::Length => "length",
        FuncName::Abs => "abs",
        FuncName::Lower => "lower",
        FuncName::Upper => "upper",
    }
}

fn func_expected(f: FuncName) -> (s: &'static str)
    ensures
        s@ == func_expects(f),
{
    match f {
        FuncName::Length => "string or array",
        FuncName::Abs => "number",
        FuncName::Lower => "string",
        FuncName::Upper => "string",
    }
}

fn arith_check(s: &MessageSchemas, e: &ValueExpr, tree: &str, node: &str, bi: usize) -> (r: Vec<
    Diagnostic,
>)
    ensures
        views(r@) == arith_diags(*s, *e, tree@, node@, bi as nat),
{
    let t = value_type_of(s, tree, e);
    match t {
        EcelType::Number | EcelType::Unknown => {
            let r: Vec<Diagnostic> = Vec::new();
            assert(views(r@) =~= Seq::<DiagnosticView>::empty());
            r
        },
        _ => {
            let rest = cat("arithmetic operand must be number, got ", type_string(&t).as_str());
            cond_error("V-204", tree, node, bi, rest.as_str())
        },
    }
}

/// Check a value expression: keyword paths (E-135, E-143, E-163, E-173),
/// function argument types and arithmetic operand types (V-204), division
/// by a literal zero (V-207).
pub fn check_value_expr(
    doc: &Document,
    s: &MessageSchemas,
    e: &ValueExpr,
    top: bool,
    tree: &str,
    node: &str,
    bi: usize,
) -> (r: Vec<Diagnostic>)
    ensures
        views(r@) == value_diags(*doc, *s, *e, top, tree@, node@, bi as nat),
    decreases e,
{
    match e {
        ValueExpr::Path(p) => path_check(doc, p, top, tree, node, bi),
        ValueExpr::Number(_) => {
            let r: Vec<Diagnostic> = Vec::new();
            assert(views(r@) =~= Seq::<DiagnosticView>::empty());
            r
        },
        ValueExpr::Call(f, arg) => {
            let mut r = check_value_expr(doc, s, arg, false, tree, node, bi);
            let t = value_type_of(s, tree, arg);
            let ok = match t {
                EcelType::Unknown => true,
                EcelType::String => match f {
                    FuncName::Abs => false,
                    _ => true,
                },
                EcelType::Array(_) => match f {
                    FuncName::Length => true,
                    _ => false,
                },
                EcelType::Number => match f {
                    FuncName::Abs => true,
                    _ => false,
                },
                _ => false,
            };
            assert(ok == call_ok(*f, t));
            if !ok {
                let rest = cat5(func_name_str(*f), "() argument must be ", func_expected(*f),
                    ", got ", type_string(&t).as_str());
                let more = cond_error("V-204", tree, node, bi, rest.as_str());
                extend_diags(&mut r, more);
            }
            assert(views(r@) =~= value_diags(*doc, *s, *e, top, tree@, node@, bi as nat));
            r
        },
        ValueExpr::Add(a, b) | ValueExpr::Sub(a, b) | ValueExpr::Mul(a, b) | ValueExpr::Div(
            a,
            b,
        ) => {
            let mut r = check_value_expr(doc, s, a, false, tree, node, bi);
            let more = check_value_expr(doc, s, b, false, tree, node, bi);
            extend_diags(&mut r, more);
            let more = arith_check(s, a, tree, node, bi);
            extend_diags(&mut r, more);
            let more = arith_check(s, b, tree, node, bi);
            extend_diags(&mut r, more);
            if let ValueExpr::Div(_, d) = e {
                if let ValueExpr::Number(n) = &**d {
                    if n.is_zero {
                        let more = cond_error("V-207", tree, node, bi, "division by literal zero");
                        extend_diags(&mut r, more);
                    }
                }
            }
            assert(views(r@) =~= value_diags(*doc, *s, *e, top, tree@, node@, bi as nat));
            r
        },
    }
}

} // verus!

verus! {

pub open spec fn op_text(op: Comparator) -> Seq<char> {
    match op {
        Comparator::Eq => "Eq"@,
        Comparator::Neq => "Neq"@,
        Comparator::Gt => "Gt"@,
        Comparator::Gte => "Gte"@,
        Comparator::Lt => "Lt"@,
        Comparator::Lte => "Lte"@,
        Comparator::In => "In"@,
        Comparator::Matches => "Matches"@,
    }
}

fn op_str(op: Comparator) -> (s: &'static str)
    ensures
        s@ == op_text(op),
{
    match op {
        Comparator::Eq => "Eq",
        Comparator::Neq => "Neq",
        Comparator::Gt => "Gt",
        Comparator::Gte => "Gte",
        Comparator::Lt => "Lt",
        Comparator::Lte => "Lte",
        Comparator::In => "In",
        Comparator::Matches => "Matches",
    }
}

pub open spec fn operand_diags(
    doc: Document,
    s: MessageSchemas,
    o: Operand,
    top: bool,
    tree: Seq<char>,
    node: Seq<char>,
    bi: nat,
) -> Seq<DiagnosticView> {
    match o {
        Operand::Value(v) => value_diags(doc, s, v, top, tree, node, bi),
        Operand::Literal(_) => Seq::empty(),
    }
}

/// V-204 for an ordering operand of type `t` that is neither a number nor
/// unknown.
pub open spec fn ordering_diags(t: EcelType, tree: Seq<char>, node: Seq<char>, bi: nat) -> Seq<
    DiagnosticView,
> {
    if t is Number || t is Unknown {
        Seq::empty()
    } else {
        cond_err(
            "V-204"@,
            tree,
            node,
            bi,
            "ordering comparison requires number (or matching date-time/date/time strings), got "@
                + type_text(t),
        )
    }
}

/// The diagnostics of a comparison: those of its operands, then the type
/// rule of its operator (V-204): `==`/`!=` need equal types unless one is
/// unknown or null; ordering needs numbers (or two temporal strings); `in`
/// needs an array on the right; `matches` a string on the left.
pub open spec fn comparison_diags(
    doc: Document,
    s: MessageSchemas,
    c: Comparison,
    top: bool,
    tree: Seq<char>,
    node: Seq<char>,
    bi: nat,
) -> Seq<DiagnosticView> {
    let lt = operand_type(s, tree, c.left);
    let rt = operand_type(s, tree, c.right);
    operand_diags(doc, s, c.left, top, tree, node, bi) + operand_diags(
        doc,
        s,
        c.right,
        top,
        tree,
        node,
        bi,
    ) + match c.op {
        Comparator::Eq | Comparator::Neq => if lt != rt && !(lt is Unknown) && !(rt is Unknown)
            && !(lt is Null) && !(rt is Null) {
            cond_err(
                "V-204"@,
                tree,
                node,
                bi,
                "type mismatch in comparison "@ + c.left_text@ + " "@ + op_text(c.op) + " "@
                    + c.right_text@ + ": left "@ + type_text(lt) + ", right "@ + type_text(rt),
            )
        } else {
            Seq::empty()
        },
        Comparator::In => if rt is Array || rt is Unknown {
            Seq::empty()
        } else {
            cond_err(
                "V-204"@,
                tree,
                node,
                bi,
                "'in' right operand must be array, got "@ + type_text(rt),
            )
        },
        Comparator::Matches => if lt is String || lt is Unknown {
            Seq::empty()
        } else {
            cond_err(
                "V-204"@,
                tree,
                node,
                bi,
                "'matches' left operand must be string, got "@ + type_text(lt),
            )
        },
        _ => if lt is String && rt is String && temporal_operand(s, tree, c.left)
            && temporal_operand(s, tree, c.right) {
            Seq::empty()
        } else {
            ordering_diags(lt, tree, node, bi) + ordering_diags(rt, tree, node, bi)
        },
    }
}

/// The diagnostics of a quantifier: V-204 when its path is not an array
/// (or unknown), then those of its comparison.
pub open spec fn quantifier_diags(
    doc: Document,
    s: MessageSchemas,
    q: QuantifierExpr,
    tree: Seq<char>,
    node: Seq<char>,
    bi: nat,
) -> Seq<DiagnosticView> {
    let t = path_type(s, tree, q.path);
    (if t is Array || t is Unknown {
        Seq::empty()
    } else {
        cond_err(
            "V-204"@,
            tree,
            node,
            bi,
            "quantifier requires an array-typed path, got "@ + type_text(t),
        )
    }) + comparison_diags(doc, s, q.comparison, false, tree, node, bi)
}

/// V-208 when the path of `defined()` is absent from the schema.
pub open spec fn defined_diags(
    s: MessageSchemas,
    p: PathExpr,
    tree: Seq<char>,
    node: Seq<char>,
    bi: nat,
) -> Seq<DiagnosticView> {
    if lookup(s, tree, path_view(p)) is Absent {
        cond_err(
            "V-208"@,
            tree,
            node,
            bi,
            "defined() path does not resolve against the resolved AsyncAPI schema"@,
        )
    } else {
        Seq::empty()
    }
}

/// The diagnostics of a boolean expression; `top` holds only for the whole
/// condition of a branch.
pub open spec fn bool_diags(
    doc: Document,
    s: MessageSchemas,
    e: BoolExpr,
    top: bool,
    tree: Seq<char>,
    node: Seq<char>,
    bi: nat,
) -> Seq<DiagnosticView>
    decreases e,
{
    match e {
        BoolExpr::And(a, b) => bool_diags(doc, s, *a, false, tree, node, bi) + bool_diags(
            doc,
            s,
            *b,
            false,
            tree,
            node,
            bi,
        ),
        BoolExpr::Or(a, b) => bool_diags(doc, s, *a, false, tree, node, bi) + bool_diags(
            doc,
            s,
            *b,
            false,
            tree,
            node,
            bi,
        ),
        BoolExpr::Not(a) => bool_diags(doc, s, *a, false, tree, node, bi),
        BoolExpr::Comparison(c) => comparison_diags(doc, s, c, top, tree, node, bi),
        BoolExpr::Quantifier(q) => quantifier_diags(doc, s, q, tree, node, bi),
        BoolExpr::Defined(p) => defined_diags(s, p, tree, node, bi),
    }
}

fn empty_diags() -> (r: Vec<Diagnostic>)
    ensures
        views(r@) == Seq::<DiagnosticView>::empty(),
{
    let r: Vec<Diagnostic> = Vec::new();
    assert(views(r@) =~= Seq::<DiagnosticView>::empty());
    r
}

fn operand_check(
    doc: &Document,
    s: &MessageSchemas,
    o: &Operand,
    top: bool,
    tree: &str,
    node: &str,
    bi: usize,
) -> (r: Vec<Diagnostic>)
    ensures
        views(r@) == operand_diags(*doc, *s, *o, top, tree@, node@, bi as nat),
{
    match o {
        Operand::Value(v) => check_value_expr(doc, s, v, top, tree, node, bi),
        Operand::Literal(_) => empty_diags(),
    }
}

fn ordering_check(t: &EcelType, tree: &str, node: &str, bi: usize) -> (r: Vec<Diagnostic>)
    ensures
        views(r@) == ordering_diags(*t, tree@, node@, bi as nat),
{
    match t {
        EcelType::Number | EcelType::Unknown => empty_diags(),
        _ => {
            let rest = cat(
                "ordering comparison requires number (or matching date-time/date/time strings), got ",
                type_string(t).as_str(),
            );
            cond_error("V-204", tree, node, bi, rest.as_str())
        },
    }
}

/// Check a comparison: its operands, then its operator's type rule (V-204).
pub fn check_comparison_type(
    doc: &Document,
    s: &MessageSchemas,
    c: &Comparison,
    top: bool,
    tree: &str,
    node: &str,
    bi: usize,
) -> (r: Vec<Diagnostic>)
    ensures
        views(r@) == comparison_diags(*doc, *s, *c, top, tree@, node@, bi as nat),
{
    let mut r = operand_check(doc, s, &c.left, top, tree, node, bi);
    let more = operand_check(doc, s, &c.right, top, tree, node, bi);
    extend_diags(&mut r, more);
    let lt = operand_type_of(s, tree, &c.left);
    let rt = operand_type_of(s, tree, &c.right);
    let ghost head = views(r@);
    match c.op {
        Comparator::Eq | Comparator::Neq => {
            let unknown_or_null = match (&lt, &rt) {
                (EcelType::Unknown, _) | (_, EcelType::Unknown) | (EcelType::Null, _) | (
                    _,
                    EcelType::Null,
                ) => true,
                _ => false,
            };
            if !same_type(&lt, &rt) && !unknown_or_null {
                let rest = cat5("type mismatch in comparison ", c.left_text.as_str(), " ",
                    op_str(c.op), " ").concat(c.right_text.as_str()).concat(": left ").concat(
                    type_string(&lt).as_str(),
                ).concat(", right ").concat(type_string(&rt).as_str());
                let more = cond_error("V-204", tree, node, bi, rest.as_str());
                extend_diags(&mut r, more);
            }
        },
        Comparator::In => {
            match rt {
                EcelType::Array(_) | EcelType::Unknown => {},
                _ => {
                    let rest = cat("'in' right operand must be array, got ", type_string(&rt).as_str());
                    let more = cond_error("V-204", tree, node, bi, rest.as_str());
                    extend_diags(&mut r, more);
                },
            }
        },
        Comparator::Matches => {
            match lt {
                EcelType::String | EcelType::Unknown => {},
                _ => {
                    let rest = cat("'matches' left operand must be string, got ",
                        type_string(&lt).as_str());
                    let more = cond_error("V-204", tree, node, bi, rest.as_str());
                    extend_diags(&mut r, more);
                },
            }
        },
        _ => {
            let both_strings = match (&lt, &rt) {
                (EcelType::String, EcelType::String) => true,
                _ => false,
            };
            let both_temporal = both_strings && is_temporal_operand(s, tree, &c.left)
                && is_temporal_operand(s, tree, &c.right);
            if !both_temporal {
                let more = ordering_check(&lt, tree, node, bi);
                extend_diags(&mut r, more);
                let more = ordering_check(&rt, tree, node, bi);
                extend_diags(&mut r, more);
            }
        },
    }
    assert(views(r@) =~= comparison_diags(*doc, *s, *c, top, tree@, node@, bi as nat));
    r
}

fn quantifier_check(
    doc: &Document,
    s: &MessageSchemas,
    q: &QuantifierExpr,
    tree: &str,
    node: &str,
    bi: usize,
) -> (r: Vec<Diagnostic>)
    ensures
        views(r@) == quantifier_diags(*doc, *s, *q, tree@, node@, bi as nat),
{
    let t = path_type_of(s, tree, &q.path);
    let mut r = match t {
        EcelType::Array(_) | EcelType::Unknown => empty_diags(),
        _ => {
            let rest = cat("quantifier requires an array-typed path, got ", type_string(&t).as_str());
            cond_error("V-204", tree, node, bi, rest.as_str())
        },
    };
    let more = check_comparison_type(doc, s, &q.comparison, false, tree, node, bi);
    extend_diags(&mut r, more);
    r
}

fn defined_check(s: &MessageSchemas, p: &PathExpr, tree: &str, node: &str, bi: usize) -> (r: Vec<
    Diagnostic,
>)
    ensures
        views(r@) == defined_diags(*s, *p, tree@, node@, bi as nat),
{
    match lookup_path(s, tree, p) {
        SchemaLookup::Absent => cond_error("V-208", tree, node, bi,
            "defined() path does not resolve against the resolved AsyncAPI schema"),
        _ => empty_diags(),
    }
}

/// Check a boolean expression; `top` holds only for a branch's whole
/// condition.
pub fn check_bool_expr(
    doc: &Document,
    s: &MessageSchemas,
    e: &BoolExpr,
    top: bool,
    tree: &str,
    node: &str,
    bi: usize,
) -> (r: Vec<Diagnostic>)
    ensures
        views(r@) == bool_diags(*doc, *s, *e, top, tree@, node@, bi as nat),
    decreases e,
{
    match e {
        BoolExpr::And(a, b) | BoolExpr::Or(a, b) => {
            let mut r = check_bool_expr(doc, s, a, false, tree, node, bi);
            let more = check_bool_expr(doc, s, b, false, tree, node, bi);
            extend_diags(&mut r, more);
            r
        },
        BoolExpr::Not(a) => check_bool_expr(doc, s, a, false, tree, node, bi),
        BoolExpr::Comparison(c) => check_comparison_type(doc, s, c, top, tree, node, bi),
        BoolExpr::Quantifier(q) => quantifier_check(doc, s, q, tree, node, bi),
        BoolExpr::Defined(p) => defined_check(s, p, tree, node, bi),
    }
}

/// The diagnostics of the conditions of the first `n` branches of barrier
/// `node`; default branches have none.
pub open spec fn branches_typeck(
    doc: Document,
    s: MessageSchemas,
    tree: Seq<char>,
    node: Seq<char>,
    bs: Seq<Branch>,
    n: int,
) -> Seq<DiagnosticView>
    decreases n,
{
    if n <= 0 {
        Seq::empty()
    } else {
        branches_typeck(doc, s, tree, node, bs, n - 1) + match bs[n - 1].condition {
            Condition::Expr(e) => bool_diags(doc, s, e, true, tree, node, (n - 1) as nat),
            Condition::Default => Seq::empty(),
        }
    }
}

pub open spec fn node_typeck(doc: Document, s: MessageSchemas, tree: Seq<char>, e: NodeEntry) -> Seq<
    DiagnosticView,
> {
    match e.node {
        Node::Barrier(b) => branches_typeck(doc, s, tree, e.id@, b.branches@, b.branches@.len() as int),
        _ => Seq::empty(),
    }
}

/// The condition diagnostics of event tree `e`: none when its initiating
/// message does not resolve.
pub open spec fn tree_typeck(
    doc: Document,
    reg: crate::model::AsyncApiRegistry,
    s: MessageSchemas,
    e: EventTreeEntry,
) -> Seq<DiagnosticView> {
    if message_ref_resolves(doc, reg, e.tree.initiating_event.message) {
        e.tree.nodes@.flat_map(|n: NodeEntry| node_typeck(doc, s, e.name@, n))
    } else {
        Seq::empty()
    }
}

/// The condition diagnostics of every event tree.
pub open spec fn condition_diags(
    doc: Document,
    reg: crate::model::AsyncApiRegistry,
    s: MessageSchemas,
) -> Seq<DiagnosticView> {
    doc.event_trees@.flat_map(|e: EventTreeEntry| tree_typeck(doc, reg, s, e))
}

fn node_typeck_check(doc: &Document, s: &MessageSchemas, tree: &str, e: &NodeEntry) -> (r: Vec<
    Diagnostic,
>)
    ensures
        views(r@) == node_typeck(*doc, *s, tree@, *e),
{
    match &e.node {
        Node::Barrier(b) => {
            let mut r = empty_diags();
            let mut i: usize = 0;
            while i < b.branches.len()
                invariant
                    i <= b.branches@.len(),
                    views(r@) == branches_typeck(*doc, *s, tree@, e.id@, b.branches@, i as int),
                decreases b.branches.len() - i,
            {
                match &b.branches[i].condition {
                    Condition::Expr(x) => {
                        let more = check_bool_expr(doc, s, x, true, tree, e.id.as_str(), i);
                        extend_diags(&mut r, more);
                    },
                    Condition::Default => {
                        assert(views(r@) =~= views(r@) + Seq::<DiagnosticView>::empty());
                    },
                }
                i = i + 1;
            }
            r
        },
        _ => empty_diags(),
    }
}

/// Type-check every branch condition of every event tree whose initiating
/// message resolves, against the schema of that message.
pub fn type_check_conditions(
    doc: &Document,
    registry: &crate::model::AsyncApiRegistry,
    schemas: &MessageSchemas,
    diagnostics: &mut Vec<Diagnostic>,
)
    ensures
        views(final(diagnostics)@) == views(old(diagnostics)@) + condition_diags(
            *doc,
            *registry,
            *schemas,
        ),
{
    let ts = &doc.event_trees;
    let ghost f = |e: EventTreeEntry| tree_typeck(*doc, *registry, *schemas, e);
    proof {
        lemma_flat_map_empty(ts@, f);
    }
    let mut i: usize = 0;
    while i < ts.len()
        invariant
            i <= ts@.len(),
            ts@ == doc.event_trees@,
            f == (|e: EventTreeEntry| tree_typeck(*doc, *registry, *schemas, e)),
            views(diagnostics@) == views(old(diagnostics)@) + ts@.take(i as int).flat_map(f),
        decreases ts.len() - i,
    {
        let e = &ts[i];
        let ghost before = views(diagnostics@);
        if message_resolves(doc, registry, &e.tree.initiating_event.message) {
            let ns = &e.tree.nodes;
            let ghost g = |n: NodeEntry| node_typeck(*doc, *schemas, e.name@, n);
            proof {
                lemma_flat_map_empty(ns@, g);
            }
            let mut j: usize = 0;
            while j < ns.len()
                invariant
                    j <= ns@.len(),
                    ns@ == e.tree.nodes@,
                    g == (|n: NodeEntry| node_typeck(*doc, *schemas, e.name@, n)),
                    views(diagnostics@) == before + ns@.take(j as int).flat_map(g),
                decreases ns.len() - j,
            {
                let more = node_typeck_check(doc, schemas, e.name.as_str(), &ns[j]);
                extend_diags(diagnostics, more);
                proof {
                    lemma_flat_map_step(ns@, g, j as int);
                }
                j = j + 1;
            }
            proof {
                lemma_take_all(ns@);
            }
        }
        proof {
            assert(views(diagnostics@) =~= before + f(ts@[i as int]));
            lemma_flat_map_step(ts@, f, i as int);
        }
        i = i + 1;
    }
    proof {
        lemma_take_all(ts@);
    }
}

} // verus!

verus! {

/// The part of a JSON Schema that decides an ECEL type: its `type` when
/// that is a string, its `items` schema, and whether it has a non-empty
/// `properties` object.
#[derive(Debug)]
pub struct SchemaNode {
    pub declared_type: Option<String>,
    pub items: Option<Box<SchemaNode>>,
    pub has_properties: bool,
}

/// The ECEL type a schema describes: by its `type` (`integer` and `number`
/// are numbers; an array's element type is its `items` type, or unknown),
/// else an object where it has properties, an array of unknown where it
/// has `items`, else unknown.
pub open spec fn schema_type(n: SchemaNode) -> EcelType
    decreases n,
{
    let fallback = if n.has_properties {
        EcelType::Object
    } else if n.items is Some {
        EcelType::Array(Box::new(EcelType::Unknown))
    } else {
        EcelType::Unknown
    };
    match n.declared_type {
        Some(t) => if t@ == "string"@ {
            EcelType::String
        } else if t@ == "integer"@ || t@ == "number"@ {
            EcelType::Number
        } else if t@ == "boolean"@ {
            EcelType::Bool
        } else if t@ == "null"@ {
            EcelType::Null
        } else if t@ == "array"@ {
            match n.items {
                Some(b) => EcelType::Array(Box::new(schema_type(*b))),
                None => EcelType::Array(Box::new(EcelType::Unknown)),
            }
        } else if t@ == "object"@ {
            EcelType::Object
        } else {
            fallback
        },
        None => fallback,
    }
}

/// The ECEL type of a message payload schema; see [`schema_type`].
pub fn schema_to_ecel_type(n: &SchemaNode) -> (r: EcelType)
    ensures
        r == schema_type(*n),
    decreases n,
{
    match &n.declared_type {
        Some(t) => {
            let t = t.as_str();
            if same(t, "string") {
                return EcelType::String;
            } else if same(t, "integer") || same(t, "number") {
                return EcelType::Number;
            } else if same(t, "boolean") {
                return EcelType::Bool;
            } else if same(t, "null") {
                return EcelType::Null;
            } else if same(t, "array") {
                return match &n.items {
                    Some(b) => EcelType::Array(Box::new(schema_to_ecel_type(b))),
                    None => EcelType::Array(Box::new(EcelType::Unknown)),
                };
            } else if same(t, "object") {
                return EcelType::Object;
            }
        },
        None => {},
    }
    if n.has_properties {
        EcelType::Object
    } else if n.items.is_some() {
        EcelType::Array(Box::new(EcelType::Unknown))
    } else {
        EcelType::Unknown
    }
}

} // verus!
