//! Compiler integration for the Performance Supplement (`etdl.performance`).

use vstd::prelude::*;
use crate::diagnostic::{error_view, warning_view, views, push_diag, Diagnostic, DiagnosticView};
use crate::extension::{ExtensionInfo, SupplementDescriptor, make_descriptor, string_views};
use crate::model::{Document, Measure, Node};
use crate::refs::{node_target, node_target_of, pointer_parts, pointer_parts_of, tree_names, tree_position};
use crate::safety::{err, is_barrier};
use crate::text::{signed_decimal, signed_decimal_string, same, cat, cat3, cat5, cat7};
use crate::validate::{declares, declares_supplement};

verus! {

/// The supplement id this module implements.
pub open spec fn performance_id() -> Seq<char> {
    "etdl.performance"@
}

/// What the `performance` extension's descriptor holds.
pub open spec fn performance_descriptor(d: SupplementDescriptor) -> bool {
    &&& d.summary@ == "Declared latency/concurrency/throughput requirements (p50Ms/p95Ms/p99Ms, maxConcurrency, expectedRatePerSecond) for an Operation or a whole Event Tree, structurally enforced by generated code and validated live by a linked Barrier via performance.in_budget (barrierChecks)."@
    &&& d.schema.is_some() && d.schema.unwrap()@ == "etdl.performance/1.0"@
    &&& string_views(d.diagnostic_codes@) == seq!["E-160"@, "E-161"@, "E-162"@, "E-163"@, "W-413"@, "W-415"@]
    &&& string_views(d.required_supplements@) == Seq::<Seq<char>>::empty()
}

/// The built-in extension for `etdl.performance`.
#[derive(Debug, Default)]
pub struct PerformanceExtension;

impl PerformanceExtension {
    pub fn new() -> Self {
        PerformanceExtension
    }

    pub fn id(&self) -> (s: &'static str)
        ensures
            s@ == performance_id(),
    {
        "etdl.performance"
    }

    pub fn version(&self) -> (s: &'static str)
        ensures
            s@ == "1.0"@,
    {
        "1.0"
    }

    /// Self-reported description of this supplement.
    pub fn descriptor(&self) -> (d: SupplementDescriptor)
        ensures
            performance_descriptor(d),
    {
        let codes: [&str; 6] = ["E-160", "E-161", "E-162", "E-163", "W-413", "W-415"];
        let required: [&str; 0] = [];
        let d = make_descriptor(
            "Declared latency/concurrency/throughput requirements (p50Ms/p95Ms/p99Ms, maxConcurrency, expectedRatePerSecond) for an Operation or a whole Event Tree, structurally enforced by generated code and validated live by a linked Barrier via performance.in_budget (barrierChecks).",
            Some("etdl.performance/1.0"),
            &codes,
            &required,
        );
        assert(codes@.map_values(|x: &str| x@) =~= seq!["E-160"@, "E-161"@, "E-162"@, "E-163"@, "W-413"@, "W-415"@]);
        assert(required@.map_values(|x: &str| x@) =~= Seq::<Seq<char>>::empty());
        d
    }

    /// This extension's registry entry.
    pub fn info(&self) -> (e: ExtensionInfo)
        ensures
            e.id@ == performance_id(),
            e.version@ == "1.0"@,
            performance_descriptor(e.descriptor),
    {
        ExtensionInfo {
            id: crate::text::owned(self.id()),
            version: crate::text::owned(self.version()),
            descriptor: self.descriptor(),
        }
    }
}

} // verus!

verus! {

/// One budget under `x-performance.budgets`.
#[derive(Debug, Clone)]
pub struct Budget {
    pub id: String,
    pub node_ref: String,
    pub p50_ms: Measure,
    pub p95_ms: Measure,
    pub p99_ms: Measure,
    pub max_concurrency: Option<i64>,
    pub expected_rate_per_second: Option<Measure>,
    /// Whether `p50Ms > p95Ms` or `p95Ms > p99Ms`, as floating-point
    /// comparison decides.
    pub percentiles_out_of_order: bool,
}

/// One barrier check under `x-performance.barrierChecks`.
#[derive(Debug, Clone)]
pub struct BarrierCheck {
    pub id: String,
    pub node_ref: String,
    pub budget_ref: String,
}

/// Every budget and barrier check that passed its checks.
#[derive(Debug, Clone)]
pub struct PerformanceData {
    pub budgets: Vec<Budget>,
    pub barrier_checks: Vec<BarrierCheck>,
}

/// The `x-performance` field, deserialized: each list, or the text of the
/// error deserializing it gave; `None` for an absent list.
#[derive(Debug, Clone)]
pub struct PerformanceManifest {
    pub budgets: Option<Result<Vec<Budget>, String>>,
    pub barrier_checks: Option<Result<Vec<BarrierCheck>, String>>,
}

/// Whether a budget's `nodeRef` names an event tree
/// (`#/eventTrees/<tree>`) or an Operation node of one.
pub open spec fn budget_target_ok(doc: Document, r: Seq<char>) -> bool {
    match pointer_parts(r, "/eventTrees/"@) {
        Some(p) => (p.len() == 1 && p[0].len() > 0 && tree_names(doc).contains(p[0]))
            || node_target(doc, r) matches Some(Node::Operation(_)),
        None => false,
    }
}

pub fn resolve_node_ref(doc: &Document, node_ref: &str) -> (b: bool)
    ensures
        b == budget_target_ok(*doc, node_ref@),
{
    match pointer_parts_of(node_ref, "/eventTrees/") {
        Some(p) => {
            let ghost pv = p@.map_values(|s: &str| s@);
            let whole_tree = p.len() == 1 && p[0].unicode_len() > 0 && tree_position(doc, p[0])
                < doc.event_trees.len();
            proof {
                if p@.len() == 1 {
                    assert(pv[0] == p@[0]@);
                    crate::model::lemma_index_of(tree_names(*doc), pv[0]);
                }
            }
            let op = match node_target_of(doc, node_ref) {
                Some(Node::Operation(_)) => true,
                _ => false,
            };
            whole_tree || op
        },
        None => false,
    }
}

pub open spec fn budget_ids(bs: Seq<Budget>) -> Seq<Seq<char>> {
    bs.map_values(|b: Budget| b.id@)
}

pub open spec fn budget_refs(bs: Seq<Budget>) -> Seq<Seq<char>> {
    bs.map_values(|b: Budget| b.node_ref@)
}

/// E-160 for a percentile that is not a positive, finite number.
pub open spec fn percentile_diag(id: Seq<char>, field: Seq<char>, m: Measure) -> Seq<DiagnosticView> {
    if m.finite && m.positive {
        Seq::empty()
    } else {
        err(
            "E-160"@,
            "x-performance: budget '"@ + id + "': "@ + field
                + " must be a positive, finite number (got "@ + m.text@ + ")"@,
        )
    }
}

/// E-160 for a repeated id or an unresolved `nodeRef` of budget `i`.
pub open spec fn budget_head_diags(doc: Document, bs: Seq<Budget>, i: int) -> Seq<DiagnosticView> {
    let b = bs[i];
    let id = b.id@;
    (if budget_ids(bs).take(i).contains(id) {
        err("E-160"@, "x-performance: duplicate budget id '"@ + id + "'"@)
    } else {
        Seq::empty()
    }) + (if !budget_target_ok(doc, b.node_ref@) {
        err(
            "E-160"@,
            "x-performance: budget '"@ + id + "': nodeRef '"@ + b.node_ref@
                + "' does not resolve to an Event Tree or an Operation node"@,
        )
    } else {
        Seq::empty()
    })
}

/// E-160 for each percentile of `b` that is not a positive, finite number.
pub open spec fn percentiles_diags(b: Budget) -> Seq<DiagnosticView> {
    percentile_diag(b.id@, "p50Ms"@, b.p50_ms) + percentile_diag(b.id@, "p95Ms"@, b.p95_ms)
        + percentile_diag(b.id@, "p99Ms"@, b.p99_ms)
}

/// E-160 for a non-positive `maxConcurrency` or a non-positive or
/// non-finite `expectedRatePerSecond`.
pub open spec fn limits_diags(b: Budget) -> Seq<DiagnosticView> {
    let id = b.id@;
    (match b.max_concurrency {
        Some(c) => if c <= 0 {
            err(
                "E-160"@,
                "x-performance: budget '"@ + id + "': maxConcurrency must be positive (got "@
                    + signed_decimal(c as int) + ")"@,
            )
        } else {
            Seq::empty()
        },
        None => Seq::empty(),
    }) + (match b.expected_rate_per_second {
        Some(r) => if r.finite && r.positive {
            Seq::empty()
        } else {
            err(
                "E-160"@,
                "x-performance: budget '"@ + id
                    + "': expectedRatePerSecond must be a positive, finite number (got "@ + r.text@
                    + ")"@,
            )
        },
        None => Seq::empty(),
    })
}

/// E-161 for percentiles out of order, then W-413 for a `nodeRef` an
/// earlier budget declares.
pub open spec fn budget_tail_diags(bs: Seq<Budget>, i: int) -> Seq<DiagnosticView> {
    let b = bs[i];
    let id = b.id@;
    (if b.percentiles_out_of_order {
        err(
            "E-161"@,
            "x-performance: budget '"@ + id + "': percentile ordering violated (p50Ms="@
                + b.p50_ms.text@ + ", p95Ms="@ + b.p95_ms.text@ + ", p99Ms="@ + b.p99_ms.text@
                + ")"@,
        )
    } else {
        Seq::empty()
    }) + (if budget_refs(bs).take(i).contains(b.node_ref@) {
        seq![
            warning_view(
                "W-413"@,
                "x-performance: nodeRef '"@ + b.node_ref@
                    + "' is declared by more than one budget; only one is meaningfully authoritative"@,
            ),
        ]
    } else {
        Seq::empty()
    })
}

/// The diagnostics of budget `i`.
pub open spec fn budget_diags(doc: Document, bs: Seq<Budget>, i: int) -> Seq<DiagnosticView> {
    budget_head_diags(doc, bs, i) + percentiles_diags(bs[i]) + limits_diags(bs[i])
        + budget_tail_diags(bs, i)
}

pub open spec fn budget_ok(doc: Document, bs: Seq<Budget>, i: int) -> bool {
    let b = bs[i];
    &&& !budget_ids(bs).take(i).contains(b.id@)
    &&& budget_target_ok(doc, b.node_ref@)
    &&& b.p50_ms.finite && b.p50_ms.positive
    &&& b.p95_ms.finite && b.p95_ms.positive
    &&& b.p99_ms.finite && b.p99_ms.positive
    &&& (b.max_concurrency matches Some(c) ==> c > 0)
    &&& (b.expected_rate_per_second matches Some(r) ==> r.finite && r.positive)
    &&& !b.percentiles_out_of_order
}

pub open spec fn budgets_diags(doc: Document, bs: Seq<Budget>, n: int) -> Seq<DiagnosticView>
    decreases n,
{
    if n <= 0 {
        Seq::empty()
    } else {
        budgets_diags(doc, bs, n - 1) + budget_diags(doc, bs, n - 1)
    }
}

pub open spec fn valid_budgets(doc: Document, bs: Seq<Budget>, n: int) -> Seq<Budget>
    decreases n,
{
    if n <= 0 {
        Seq::empty()
    } else {
        valid_budgets(doc, bs, n - 1) + if budget_ok(doc, bs, n - 1) {
            seq![bs[n - 1]]
        } else {
            Seq::empty()
        }
    }
}

pub open spec fn check_ids(cs: Seq<BarrierCheck>) -> Seq<Seq<char>> {
    cs.map_values(|c: BarrierCheck| c.id@)
}

pub open spec fn check_refs(cs: Seq<BarrierCheck>) -> Seq<Seq<char>> {
    cs.map_values(|c: BarrierCheck| c.node_ref@)
}

/// The diagnostics of barrier check `i`, given the ids of the accepted
/// budgets.
pub open spec fn barrier_check_diags(
    doc: Document,
    valid_ids: Seq<Seq<char>>,
    cs: Seq<BarrierCheck>,
    i: int,
) -> Seq<DiagnosticView> {
    let c = cs[i];
    (if check_ids(cs).take(i).contains(c.id@) {
        err("E-162"@, "x-performance: duplicate barrierChecks id '"@ + c.id@ + "'"@)
    } else {
        Seq::empty()
    }) + (if !is_barrier(node_target(doc, c.node_ref@)) {
        err(
            "E-162"@,
            "x-performance: barrierChecks '"@ + c.id@ + "': nodeRef '"@ + c.node_ref@
                + "' does not resolve to a Barrier node"@,
        )
    } else {
        Seq::empty()
    }) + (if !valid_ids.contains(c.budget_ref@) {
        err(
            "E-162"@,
            "x-performance: barrierChecks '"@ + c.id@ + "': budgetRef '"@ + c.budget_ref@
                + "' does not resolve to a declared budget"@,
        )
    } else {
        Seq::empty()
    }) + (if check_refs(cs).take(i).contains(c.node_ref@) {
        seq![
            warning_view(
                "W-415"@,
                "x-performance: nodeRef '"@ + c.node_ref@
                    + "' is declared by more than one barrierChecks entry; only one is meaningfully authoritative"@,
            ),
        ]
    } else {
        Seq::empty()
    })
}

pub open spec fn barrier_check_ok(
    doc: Document,
    valid_ids: Seq<Seq<char>>,
    cs: Seq<BarrierCheck>,
    i: int,
) -> bool {
    let c = cs[i];
    &&& !check_ids(cs).take(i).contains(c.id@)
    &&& is_barrier(node_target(doc, c.node_ref@))
    &&& valid_ids.contains(c.budget_ref@)
}

pub open spec fn barrier_checks_diags(
    doc: Document,
    valid_ids: Seq<Seq<char>>,
    cs: Seq<BarrierCheck>,
    n: int,
) -> Seq<DiagnosticView>
    decreases n,
{
    if n <= 0 {
        Seq::empty()
    } else {
        barrier_checks_diags(doc, valid_ids, cs, n - 1) + barrier_check_diags(
            doc,
            valid_ids,
            cs,
            n - 1,
        )
    }
}

pub open spec fn valid_barrier_checks(
    doc: Document,
    valid_ids: Seq<Seq<char>>,
    cs: Seq<BarrierCheck>,
    n: int,
) -> Seq<BarrierCheck>
    decreases n,
{
    if n <= 0 {
        Seq::empty()
    } else {
        valid_barrier_checks(doc, valid_ids, cs, n - 1) + if barrier_check_ok(
            doc,
            valid_ids,
            cs,
            n - 1,
        ) {
            seq![cs[n - 1]]
        } else {
            Seq::empty()
        }
    }
}

/// The accepted budgets, the accepted barrier checks and the diagnostics
/// of the performance validation.
pub open spec fn performance_outcome(doc: Document, manifest: Option<PerformanceManifest>) -> (
    Seq<Budget>,
    Seq<BarrierCheck>,
    Seq<DiagnosticView>,
) {
    if !declares(doc, "etdl.performance"@) || manifest is None {
        (Seq::empty(), Seq::empty(), Seq::empty())
    } else {
        let m = manifest->0;
        let (bs, bd) = match m.budgets {
            None => (Seq::<Budget>::empty(), Seq::<DiagnosticView>::empty()),
            Some(Err(e)) => (
                Seq::<Budget>::empty(),
                err("E-160"@, "x-performance: invalid budget manifest: "@ + e@),
            ),
            Some(Ok(v)) => (
                valid_budgets(doc, v@, v@.len() as int),
                budgets_diags(doc, v@, v@.len() as int),
            ),
        };
        let ids = budget_ids(bs);
        let (cs, cd) = match m.barrier_checks {
            None => (Seq::<BarrierCheck>::empty(), Seq::<DiagnosticView>::empty()),
            Some(Err(e)) => (
                Seq::<BarrierCheck>::empty(),
                err("E-162"@, "x-performance: invalid barrierChecks manifest: "@ + e@),
            ),
            Some(Ok(v)) => (
                valid_barrier_checks(doc, ids, v@, v@.len() as int),
                barrier_checks_diags(doc, ids, v@, v@.len() as int),
            ),
        };
        (bs, cs, bd + cd)
    }
}

} // verus!

verus! {

fn push_error(out: &mut Vec<Diagnostic>, code: &str, msg: String)
    ensures
        views(final(out)@) == views(old(out)@) + err(code@, msg@),
{
    push_diag(out, Diagnostic::error(code, msg));
    assert(views(out@) =~= views(old(out)@) + err(code@, msg@));
}

fn budget_field_among(bs: &Vec<Budget>, n: usize, x: &str, by_ref: bool) -> (b: bool)
    requires
        n <= bs@.len(),
    ensures
        b == (if by_ref {
            budget_refs(bs@).take(n as int).contains(x@)
        } else {
            budget_ids(bs@).take(n as int).contains(x@)
        }),
{
    let ghost ks = if by_ref {
        budget_refs(bs@)
    } else {
        budget_ids(bs@)
    };
    let mut i: usize = 0;
    while i < n
        invariant
            n <= bs@.len(),
            i <= n,
            ks == (if by_ref {
                budget_refs(bs@)
            } else {
                budget_ids(bs@)
            }),
            forall|j: int| 0 <= j < i ==> ks[j] != x@,
        decreases n - i,
    {
        let k = if by_ref {
            bs[i].node_ref.as_str()
        } else {
            bs[i].id.as_str()
        };
        assert(ks[i as int] == k@);
        if same(k, x) {
            assert(ks.take(n as int)[i as int] == x@);
            return true;
        }
        i = i + 1;
    }
    false
}

fn check_field_among(cs: &Vec<BarrierCheck>, n: usize, x: &str, by_ref: bool) -> (b: bool)
    requires
        n <= cs@.len(),
    ensures
        b == (if by_ref {
            check_refs(cs@).take(n as int).contains(x@)
        } else {
            check_ids(cs@).take(n as int).contains(x@)
        }),
{
    let ghost ks = if by_ref {
        check_refs(cs@)
    } else {
        check_ids(cs@)
    };
    let mut i: usize = 0;
    while i < n
        invariant
            n <= cs@.len(),
            i <= n,
            ks == (if by_ref {
                check_refs(cs@)
            } else {
                check_ids(cs@)
            }),
            forall|j: int| 0 <= j < i ==> ks[j] != x@,
        decreases n - i,
    {
        let k = if by_ref {
            cs[i].node_ref.as_str()
        } else {
            cs[i].id.as_str()
        };
        assert(ks[i as int] == k@);
        if same(k, x) {
            assert(ks.take(n as int)[i as int] == x@);
            return true;
        }
        i = i + 1;
    }
    false
}

fn check_percentile(id: &str, field: &str, m: &Measure, out: &mut Vec<Diagnostic>) -> (ok: bool)
    ensures
        views(final(out)@) == views(old(out)@) + percentile_diag(id@, field@, *m),
        ok == (m.finite && m.positive),
{
    if m.finite && m.positive {
        assert(views(out@) =~= views(old(out)@) + percentile_diag(id@, field@, *m));
        true
    } else {
        push_error(out, "E-160", cat5("x-performance: budget '", id, "': ", field,
            " must be a positive, finite number (got ").concat(m.text.as_str()).concat(")"));
        false
    }
}

fn check_budget_head(doc: &Document, bs: &Vec<Budget>, i: usize, out: &mut Vec<Diagnostic>) -> (ok: bool)
    requires
        i < bs@.len(),
    ensures
        views(final(out)@) == views(old(out)@) + budget_head_diags(*doc, bs@, i as int),
        ok == (!budget_ids(bs@).take(i as int).contains(bs@[i as int].id@) && budget_target_ok(
            *doc,
            bs@[i as int].node_ref@,
        )),
{
    let b = &bs[i];
    let id = b.id.as_str();
    let ghost d0 = views(out@);
    let dup = budget_field_among(bs, i, id, false);
    if dup {
        push_error(out, "E-160", cat3("x-performance: duplicate budget id '", id, "'"));
    }
    let target = resolve_node_ref(doc, b.node_ref.as_str());
    if !target {
        push_error(out, "E-160", cat5("x-performance: budget '", id, "': nodeRef '",
            b.node_ref.as_str(), "' does not resolve to an Event Tree or an Operation node"));
    }
    assert(views(out@) =~= d0 + budget_head_diags(*doc, bs@, i as int));
    !dup && target
}

fn check_limits(b: &Budget, out: &mut Vec<Diagnostic>) -> (ok: bool)
    ensures
        views(final(out)@) == views(old(out)@) + limits_diags(*b),
        ok == ((b.max_concurrency matches Some(c) ==> c > 0) && (b.expected_rate_per_second matches Some(
            r,
        ) ==> r.finite && r.positive)),
{
    let id = b.id.as_str();
    let ghost d0 = views(out@);
    let mut conc_ok = true;
    match b.max_concurrency {
        Some(mc) => {
            if mc <= 0 {
                push_error(out, "E-160", cat3("x-performance: budget '", id,
                    "': maxConcurrency must be positive (got ").concat(
                    signed_decimal_string(mc).as_str(),
                ).concat(")"));
                conc_ok = false;
            }
        },
        None => {},
    }
    let mut rate_ok = true;
    match &b.expected_rate_per_second {
        Some(r) => {
            if !(r.finite && r.positive) {
                push_error(out, "E-160", cat3("x-performance: budget '", id,
                    "': expectedRatePerSecond must be a positive, finite number (got ").concat(
                    r.text.as_str(),
                ).concat(")"));
                rate_ok = false;
            }
        },
        None => {},
    }
    assert(views(out@) =~= d0 + limits_diags(*b));
    conc_ok && rate_ok
}

fn check_budget_tail(bs: &Vec<Budget>, i: usize, out: &mut Vec<Diagnostic>)
    requires
        i < bs@.len(),
    ensures
        views(final(out)@) == views(old(out)@) + budget_tail_diags(bs@, i as int),
{
    let b = &bs[i];
    let id = b.id.as_str();
    let ghost d0 = views(out@);
    if b.percentiles_out_of_order {
        push_error(out, "E-161", cat7("x-performance: budget '", id,
            "': percentile ordering violated (p50Ms=", b.p50_ms.text.as_str(), ", p95Ms=",
            b.p95_ms.text.as_str(), ", p99Ms=").concat(b.p99_ms.text.as_str()).concat(")"));
    }
    if budget_field_among(bs, i, b.node_ref.as_str(), true) {
        push_diag(out, Diagnostic::warning("W-413", cat3("x-performance: nodeRef '",
            b.node_ref.as_str(),
            "' is declared by more than one budget; only one is meaningfully authoritative")));
    }
    assert(views(out@) =~= d0 + budget_tail_diags(bs@, i as int));
}

#[verifier::spinoff_prover]
#[verifier::rlimit(40)]
fn check_budget(doc: &Document, bs: &Vec<Budget>, i: usize, out: &mut Vec<Diagnostic>) -> (ok: bool)
    requires
        i < bs@.len(),
    ensures
        views(final(out)@) == views(old(out)@) + budget_diags(*doc, bs@, i as int),
        ok == budget_ok(*doc, bs@, i as int),
{
    let b = &bs[i];
    let ghost d0 = views(out@);
    let h = check_budget_head(doc, bs, i, out);
    let ghost d1 = views(out@);
    let a = check_percentile(b.id.as_str(), "p50Ms", &b.p50_ms, out);
    let c = check_percentile(b.id.as_str(), "p95Ms", &b.p95_ms, out);
    let d = check_percentile(b.id.as_str(), "p99Ms", &b.p99_ms, out);
    assert(views(out@) =~= d1 + percentiles_diags(*b));
    let ghost d2 = views(out@);
    let l = check_limits(b, out);
    let ghost d3 = views(out@);
    check_budget_tail(bs, i, out);
    assert(views(out@) =~= d0 + budget_diags(*doc, bs@, i as int));
    h && a && c && d && l && !b.percentiles_out_of_order
}

fn contains_budget_id(bs: &Vec<Budget>, x: &str) -> (b: bool)
    ensures
        b == budget_ids(bs@).contains(x@),
{
    let r = budget_field_among(bs, bs.len(), x, false);
    assert(budget_ids(bs@).take(bs@.len() as int) =~= budget_ids(bs@));
    r
}

fn check_barrier_check(
    doc: &Document,
    valid: &Vec<Budget>,
    cs: &Vec<BarrierCheck>,
    i: usize,
    out: &mut Vec<Diagnostic>,
) -> (ok: bool)
    requires
        i < cs@.len(),
    ensures
        views(final(out)@) == views(old(out)@) + barrier_check_diags(
            *doc,
            budget_ids(valid@),
            cs@,
            i as int,
        ),
        ok == barrier_check_ok(*doc, budget_ids(valid@), cs@, i as int),
{
    let c = &cs[i];
    let id = c.id.as_str();
    let ghost d0 = views(out@);
    let dup = check_field_among(cs, i, id, false);
    if dup {
        push_error(out, "E-162", cat3("x-performance: duplicate barrierChecks id '", id, "'"));
    }
    let is_b = match node_target_of(doc, c.node_ref.as_str()) {
        Some(Node::Barrier(_)) => true,
        _ => false,
    };
    if !is_b {
        push_error(out, "E-162", cat5("x-performance: barrierChecks '", id, "': nodeRef '",
            c.node_ref.as_str(), "' does not resolve to a Barrier node"));
    }
    let known = contains_budget_id(valid, c.budget_ref.as_str());
    if !known {
        push_error(out, "E-162", cat5("x-performance: barrierChecks '", id, "': budgetRef '",
            c.budget_ref.as_str(), "' does not resolve to a declared budget"));
    }
    if check_field_among(cs, i, c.node_ref.as_str(), true) {
        push_diag(out, Diagnostic::warning("W-415", cat3("x-performance: nodeRef '",
            c.node_ref.as_str(),
            "' is declared by more than one barrierChecks entry; only one is meaningfully authoritative")));
    }
    assert(views(out@) =~= d0 + barrier_check_diags(*doc, budget_ids(valid@), cs@, i as int));
    !dup && is_b && known
}

/// Validate the budgets and barrier checks of `x-performance` (given as
/// deserialized by the caller), when the document declares
/// `etdl.performance`: E-160 repeated ids, unresolved `nodeRef`s,
/// non-positive or non-finite numbers, an undeserializable list; E-161
/// percentiles out of order; W-413 several budgets for one node; E-162
/// repeated barrier check ids, `nodeRef`s that name no Barrier node,
/// `budgetRef`s that name no accepted budget, an undeserializable list;
/// W-415 several barrier checks for one barrier. Returns what passed, with
/// the diagnostics.
pub fn parse_and_validate_performance(doc: &Document, manifest: Option<PerformanceManifest>) -> (r: (
    PerformanceData,
    Vec<Diagnostic>,
))
    ensures
        r.0.budgets@ == performance_outcome(*doc, manifest).0,
        r.0.barrier_checks@ == performance_outcome(*doc, manifest).1,
        views(r.1@) == performance_outcome(*doc, manifest).2,
{
    let mut diagnostics: Vec<Diagnostic> = Vec::new();
    let mut data = PerformanceData { budgets: Vec::new(), barrier_checks: Vec::new() };
    assert(views(diagnostics@) =~= Seq::<DiagnosticView>::empty());
    if !declares_supplement(doc, "etdl.performance") {
        return (data, diagnostics);
    }
    let m = match manifest {
        Some(m) => m,
        None => {
            return (data, diagnostics);
        },
    };
    let PerformanceManifest { budgets, barrier_checks } = m;
    let mut valid: Vec<Budget> = Vec::new();
    match budgets {
        Some(Ok(v)) => {
            let ghost all = v@;
            let mut ok: Vec<bool> = Vec::new();
            let mut i: usize = 0;
            while i < v.len()
                invariant
                    i <= v@.len(),
                    all == v@,
                    ok@.len() == i,
                    forall|j: int| 0 <= j < i ==> ok@[j] == budget_ok(*doc, all, j),
                    views(diagnostics@) == budgets_diags(*doc, all, i as int),
                decreases v.len() - i,
            {
                let b = check_budget(doc, &v, i, &mut diagnostics);
                ok.push(b);
                i = i + 1;
            }
            let mut rest = v;
            let mut k: usize = 0;
            while k < ok.len()
                invariant
                    ok@.len() == all.len(),
                    k <= all.len(),
                    forall|j: int| 0 <= j < all.len() ==> ok@[j] == budget_ok(*doc, all, j),
                    rest@ == all.skip(k as int),
                    valid@ == valid_budgets(*doc, all, k as int),
                decreases ok.len() - k,
            {
                assert(rest@.len() > 0 && rest@[0] == all[k as int]);
                let b = rest.remove(0);
                if ok[k] {
                    valid.push(b);
                }
                assert(rest@ =~= all.skip(k + 1));
                assert(valid@ =~= valid_budgets(*doc, all, k + 1));
                k = k + 1;
            }
        },
        Some(Err(e)) => {
            push_error(&mut diagnostics, "E-160", cat("x-performance: invalid budget manifest: ",
                e.as_str()));
        },
        None => {},
    }
    let ghost bd = views(diagnostics@);
    match barrier_checks {
        Some(Ok(v)) => {
            let ghost all = v@;
            let mut ok: Vec<bool> = Vec::new();
            let mut i: usize = 0;
            while i < v.len()
                invariant
                    i <= v@.len(),
                    all == v@,
                    ok@.len() == i,
                    forall|j: int|
                        0 <= j < i ==> ok@[j] == barrier_check_ok(*doc, budget_ids(valid@), all, j),
                    views(diagnostics@) == bd + barrier_checks_diags(
                        *doc,
                        budget_ids(valid@),
                        all,
                        i as int,
                    ),
                decreases v.len() - i,
            {
                let b = check_barrier_check(doc, &valid, &v, i, &mut diagnostics);
                ok.push(b);
                i = i + 1;
            }
            let mut rest = v;
            let mut k: usize = 0;
            while k < ok.len()
                invariant
                    ok@.len() == all.len(),
                    k <= all.len(),
                    forall|j: int|
                        0 <= j < all.len() ==> ok@[j] == barrier_check_ok(
                            *doc,
                            budget_ids(valid@),
                            all,
                            j,
                        ),
                    rest@ == all.skip(k as int),
                    data.barrier_checks@ == valid_barrier_checks(
                        *doc,
                        budget_ids(valid@),
                        all,
                        k as int,
                    ),
                decreases ok.len() - k,
            {
                assert(rest@.len() > 0 && rest@[0] == all[k as int]);
                let c = rest.remove(0);
                if ok[k] {
                    data.barrier_checks.push(c);
                }
                assert(rest@ =~= all.skip(k + 1));
                assert(data.barrier_checks@ =~= valid_barrier_checks(
                    *doc,
                    budget_ids(valid@),
                    all,
                    k + 1,
                ));
                k = k + 1;
            }
        },
        Some(Err(e)) => {
            push_error(&mut diagnostics, "E-162", cat("x-performance: invalid barrierChecks manifest: ",
                e.as_str()));
        },
        None => {},
    }
    data.budgets = valid;
    assert(views(diagnostics@) =~= performance_outcome(*doc, manifest).2);
    (data, diagnostics)
}

/// What running the performance extension yields: the budgets and barrier
/// checks it read.
#[derive(Debug)]
pub struct PerformanceResult {
    pub budgets: Vec<Budget>,
    pub barrier_checks: Vec<BarrierCheck>,
}

impl PerformanceResult {
    pub fn extension_id(&self) -> (s: &'static str)
        ensures
            s@ == performance_id(),
    {
        "etdl.performance"
    }
}

} // verus!
