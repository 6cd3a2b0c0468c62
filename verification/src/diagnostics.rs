//! Compiler integration for the Diagnostics Supplement (`etdl.diagnostics`).

use vstd::prelude::*;
use crate::diagnostic::{error_view, warning_view, views, push_diag, Diagnostic, DiagnosticView};
use crate::extension::{ExtensionInfo, SupplementDescriptor, make_descriptor, string_views};
use crate::event_rules::node_ids;
use crate::fault_rules::gates_of;
use crate::fault_structure::{fault_tree_names, gate_ids, be_ids};
use crate::model::{Document, EventTreeEntry, FaultTreeEntry, Node, Operation, index_of, lemma_index_of};
use crate::refs::{node_target, node_target_of, pointer_parts, pointer_parts_of};
use crate::safety::err;
use crate::text::{strip_all, strip_prefix, before, strip_all_prefix, strip_one_prefix, before_char, same, cat, cat3, cat5};
use crate::validate::{declares, declares_supplement};

verus! {

/// The supplement id this module implements.
pub open spec fn diagnostics_id() -> Seq<char> {
    "etdl.diagnostics"@
}

/// What the `diagnostics` extension's descriptor holds.
pub open spec fn diagnostics_descriptor(d: SupplementDescriptor) -> bool {
    &&& d.summary@ == "Declared telemetry-span-to-Fault-Tree-cause correlations and monitored-node anomaly rules; structural metadata only, no automated correlation or inference."@
    &&& d.schema.is_some() && d.schema.unwrap()@ == "etdl.diagnostics/1.0"@
    &&& string_views(d.diagnostic_codes@) == seq!["E-150"@, "E-151"@, "E-152"@, "W-412"@]
    &&& string_views(d.required_supplements@) == Seq::<Seq<char>>::empty()
}

/// The built-in extension for `etdl.diagnostics`.
#[derive(Debug, Default)]
pub struct DiagnosticsExtension;

impl DiagnosticsExtension {
    pub fn new() -> Self {
        DiagnosticsExtension
    }

    pub fn id(&self) -> (s: &'static str)
        ensures
            s@ == diagnostics_id(),
    {
        "etdl.diagnostics"
    }

    pub fn version(&self) -> (s: &'static str)
        ensures
            s@ == "1.0"@,
    {
        "1.0"
    }

    /// Self-reported description of this supplement.
    pub fn descriptor(&self) -> (d: SupplementDescriptor)
        ensures
            diagnostics_descriptor(d),
    {
        let codes: [&str; 4] = ["E-150", "E-151", "E-152", "W-412"];
        let required: [&str; 0] = [];
        let d = make_descriptor(
            "Declared telemetry-span-to-Fault-Tree-cause correlations and monitored-node anomaly rules; structural metadata only, no automated correlation or inference.",
            Some("etdl.diagnostics/1.0"),
            &codes,
            &required,
        );
        assert(codes@.map_values(|x: &str| x@) =~= seq!["E-150"@, "E-151"@, "E-152"@, "W-412"@]);
        assert(required@.map_values(|x: &str| x@) =~= Seq::<Seq<char>>::empty());
        d
    }

    /// This extension's registry entry.
    pub fn info(&self) -> (e: ExtensionInfo)
        ensures
            e.id@ == diagnostics_id(),
            e.version@ == "1.0"@,
            diagnostics_descriptor(e.descriptor),
    {
        ExtensionInfo {
            id: crate::text::owned(self.id()),
            version: crate::text::owned(self.version()),
            descriptor: self.descriptor(),
        }
    }
}

} // verus!

verus! {

/// One correlation under `x-diagnostics.correlations`.
#[derive(Debug, Clone)]
pub struct Correlation {
    pub id: String,
    pub span_attribute: String,
    pub span_value: String,
    pub cause_ref: String,
    pub description: Option<String>,
}

/// One anomaly rule under `x-diagnostics.anomalyRules`.
#[derive(Debug, Clone)]
pub struct AnomalyRule {
    pub id: String,
    pub monitors: String,
    pub description: Option<String>,
}

/// Every correlation and anomaly rule that passed its checks.
#[derive(Debug, Clone)]
pub struct DiagnosticsData {
    pub correlations: Vec<Correlation>,
    pub anomaly_rules: Vec<AnomalyRule>,
}

/// The `x-diagnostics` field, deserialized: each list, or the text of the
/// error deserializing it gave; `None` for an absent list.
#[derive(Debug, Clone)]
pub struct DiagnosticsManifest {
    pub correlations: Option<Result<Vec<Correlation>, String>>,
    pub anomaly_rules: Option<Result<Vec<AnomalyRule>, String>>,
}

/// The fault tree `<id>` of a `#/faultTrees/<id>/...` pointer.
pub open spec fn fault_tree_id_of(pointer: Seq<char>) -> Option<Seq<char>> {
    match strip_prefix(strip_all(pointer, "#"@), "/faultTrees/"@) {
        Some(after) => Some(before(after, '/')),
        None => None,
    }
}

/// The leading `<id>` segment of a `#/faultTrees/<id>/...` pointer.
pub fn fault_tree_id_from_pointer(pointer: &str) -> (r: Option<&str>)
    ensures
        match fault_tree_id_of(pointer@) {
            Some(id) => r is Some && r->0@ == id,
            None => r is None,
        },
{
    proof {
        reveal_strlit("#");
    }
    let rest = strip_all_prefix(pointer, "#");
    match strip_one_prefix(rest, "/faultTrees/") {
        Some(after) => Some(before_char(after, '/')),
        None => None,
    }
}

/// Whether `#/faultTrees/<tree>/gates/<gate>` or
/// `#/faultTrees/<tree>/basicEvents/<event>` names a gate or basic event.
pub open spec fn cause_target_ok(doc: Document, r: Seq<char>) -> bool {
    match pointer_parts(r, "/faultTrees/"@) {
        Some(p) => {
            let fts = match doc.fault_trees {
                Some(f) => f@,
                None => Seq::empty(),
            };
            let ti = index_of(fault_tree_names(doc), p[0]);
            p.len() == 3 && p[0].len() > 0 && p[2].len() > 0 && ti < fts.len() && (
            (p[1] == "gates"@ && fts[ti].tree.gates is Some && gate_ids(fts[ti].tree).contains(p[2]))
                || (p[1] == "basicEvents"@ && be_ids(fts[ti].tree).contains(p[2])))
        },
        None => false,
    }
}

/// Whether some event tree has a node named `id`.
pub open spec fn node_anywhere(doc: Document, id: Seq<char>) -> bool {
    exists|t: int| 0 <= t < doc.event_trees@.len() && #[trigger] node_ids(doc.event_trees@[t].tree).contains(id)
}

pub open spec fn correlation_ids(cs: Seq<Correlation>) -> Seq<Seq<char>> {
    cs.map_values(|c: Correlation| c.id@)
}

pub open spec fn rule_ids(rs: Seq<AnomalyRule>) -> Seq<Seq<char>> {
    rs.map_values(|r: AnomalyRule| r.id@)
}

/// The diagnostics of correlation `i`.
pub open spec fn correlation_diags(doc: Document, cs: Seq<Correlation>, i: int) -> Seq<
    DiagnosticView,
> {
    let c = cs[i];
    (if correlation_ids(cs).take(i).contains(c.id@) {
        err("E-151"@, "x-diagnostics: duplicate correlation id '"@ + c.id@ + "'"@)
    } else {
        Seq::empty()
    }) + (if !cause_target_ok(doc, c.cause_ref@) {
        err(
            "E-150"@,
            "x-diagnostics: correlation '"@ + c.id@ + "': causeRef '"@ + c.cause_ref@
                + "' does not resolve to a Gate or Basic Event"@,
        )
    } else {
        Seq::empty()
    }) + (if c.span_attribute@ == "etdl.node.id"@ && !node_anywhere(doc, c.span_value@) {
        err(
            "E-152"@,
            "x-diagnostics: correlation '"@ + c.id@
                + "': spanAttribute is 'etdl.node.id' but spanValue '"@ + c.span_value@
                + "' does not name a node in any declared eventTree"@,
        )
    } else {
        Seq::empty()
    })
}

pub open spec fn correlation_ok(doc: Document, cs: Seq<Correlation>, i: int) -> bool {
    let c = cs[i];
    &&& !correlation_ids(cs).take(i).contains(c.id@)
    &&& cause_target_ok(doc, c.cause_ref@)
    &&& !(c.span_attribute@ == "etdl.node.id"@ && !node_anywhere(doc, c.span_value@))
}

pub open spec fn correlations_diags(doc: Document, cs: Seq<Correlation>, n: int) -> Seq<
    DiagnosticView,
>
    decreases n,
{
    if n <= 0 {
        Seq::empty()
    } else {
        correlations_diags(doc, cs, n - 1) + correlation_diags(doc, cs, n - 1)
    }
}

pub open spec fn valid_correlations(doc: Document, cs: Seq<Correlation>, n: int) -> Seq<Correlation>
    decreases n,
{
    if n <= 0 {
        Seq::empty()
    } else {
        valid_correlations(doc, cs, n - 1) + if correlation_ok(doc, cs, n - 1) {
            seq![cs[n - 1]]
        } else {
            Seq::empty()
        }
    }
}

/// Whether an operation's failure probability is tied to no fault tree
/// that some accepted correlation points into.
pub open spec fn lacks_correlated_cause(op: Operation, corrs: Seq<Correlation>) -> bool {
    match op.on_failure_probability_source {
        None => true,
        Some(ps) => match fault_tree_id_of(ps@) {
            None => true,
            Some(id) => !exists|k: int|
                0 <= k < corrs.len() && #[trigger] fault_tree_id_of(corrs[k].cause_ref@) == Some(id),
        },
    }
}

/// The diagnostics of anomaly rule `i`, given the accepted correlations.
pub open spec fn rule_diags(
    doc: Document,
    corrs: Seq<Correlation>,
    rs: Seq<AnomalyRule>,
    i: int,
) -> Seq<DiagnosticView> {
    let r = rs[i];
    let node = node_target(doc, r.monitors@);
    (if rule_ids(rs).take(i).contains(r.id@) {
        err("E-151"@, "x-diagnostics: duplicate anomaly rule id '"@ + r.id@ + "'"@)
    } else {
        Seq::empty()
    }) + (if node is None {
        err(
            "E-150"@,
            "x-diagnostics: anomaly rule '"@ + r.id@ + "': monitors '"@ + r.monitors@
                + "' does not resolve to a node"@,
        )
    } else {
        Seq::empty()
    }) + match node {
        Some(Node::Operation(op)) => if lacks_correlated_cause(op, corrs) {
            seq![
                warning_view(
                    "W-412"@,
                    "x-diagnostics: anomaly rule '"@ + r.id@ + "': monitored Operation '"@
                        + r.monitors@ + "' has no correlated cause on record"@,
                ),
            ]
        } else {
            Seq::empty()
        },
        _ => Seq::empty(),
    }
}

pub open spec fn rule_ok(doc: Document, rs: Seq<AnomalyRule>, i: int) -> bool {
    !rule_ids(rs).take(i).contains(rs[i].id@) && node_target(doc, rs[i].monitors@) is Some
}

pub open spec fn rules_diags(
    doc: Document,
    corrs: Seq<Correlation>,
    rs: Seq<AnomalyRule>,
    n: int,
) -> Seq<DiagnosticView>
    decreases n,
{
    if n <= 0 {
        Seq::empty()
    } else {
        rules_diags(doc, corrs, rs, n - 1) + rule_diags(doc, corrs, rs, n - 1)
    }
}

pub open spec fn valid_rules(doc: Document, rs: Seq<AnomalyRule>, n: int) -> Seq<AnomalyRule>
    decreases n,
{
    if n <= 0 {
        Seq::empty()
    } else {
        valid_rules(doc, rs, n - 1) + if rule_ok(doc, rs, n - 1) {
            seq![rs[n - 1]]
        } else {
            Seq::empty()
        }
    }
}

/// The accepted correlations, the accepted anomaly rules and the
/// diagnostics of the diagnostics-supplement validation.
pub open spec fn diagnostics_outcome(doc: Document, manifest: Option<DiagnosticsManifest>) -> (
    Seq<Correlation>,
    Seq<AnomalyRule>,
    Seq<DiagnosticView>,
) {
    if !declares(doc, "etdl.diagnostics"@) || manifest is None {
        (Seq::empty(), Seq::empty(), Seq::empty())
    } else {
        let m = manifest->0;
        let (cs, cd) = match m.correlations {
            None => (Seq::<Correlation>::empty(), Seq::<DiagnosticView>::empty()),
            Some(Err(e)) => (
                Seq::<Correlation>::empty(),
                err("E-150"@, "x-diagnostics: invalid correlation manifest: "@ + e@),
            ),
            Some(Ok(v)) => (
                valid_correlations(doc, v@, v@.len() as int),
                correlations_diags(doc, v@, v@.len() as int),
            ),
        };
        let (rs, rd) = match m.anomaly_rules {
            None => (Seq::<AnomalyRule>::empty(), Seq::<DiagnosticView>::empty()),
            Some(Err(e)) => (
                Seq::<AnomalyRule>::empty(),
                err("E-150"@, "x-diagnostics: invalid anomaly rule manifest: "@ + e@),
            ),
            Some(Ok(v)) => (
                valid_rules(doc, v@, v@.len() as int),
                rules_diags(doc, cs, v@, v@.len() as int),
            ),
        };
        (cs, rs, cd + rd)
    }
}

} // verus!

verus! {

fn push_error(out: &mut Vec<Diagnostic>, code: &str, msg: String)
    ensures
        views(final(out)@) == views(old(out)@) + err(code@, msg@),
{
    push_diag(out, Diagnostic::error(code, msg));
    assert(views(out@) =~= views(old(out)@) + err(code@, msg@));
}

fn fault_tree_position(doc: &Document, name: &str) -> (r: usize)
    ensures
        r == index_of(fault_tree_names(*doc), name@),
{
    let ghost ids = fault_tree_names(*doc);
    match &doc.fault_trees {
        Some(fts) => {
            let mut i: usize = 0;
            while i < fts.len()
                invariant
                    i <= fts@.len(),
                    ids == fault_tree_names(*doc),
                    ids == fts@.map_values(|e: FaultTreeEntry| e.name@),
                    forall|j: int| 0 <= j < i ==> ids[j] != name@,
                decreases fts.len() - i,
            {
                if same(fts[i].name.as_str(), name) {
                    proof {
                        crate::model::lemma_index_of_is(ids, name@, i as int);
                    }
                    return i;
                }
                i = i + 1;
            }
            proof {
                crate::model::lemma_index_of_is(ids, name@, i as int);
            }
            i
        },
        None => {
            proof {
                crate::model::lemma_index_of_is(ids, name@, 0);
            }
            0
        },
    }
}

fn has_basic_event(ft: &crate::model::FaultTree, id: &str) -> (b: bool)
    ensures
        b == be_ids(*ft).contains(id@),
{
    let mut k: usize = 0;
    while k < ft.basic_events.len()
        invariant
            k <= ft.basic_events@.len(),
            forall|j: int| 0 <= j < k ==> be_ids(*ft)[j] != id@,
        decreases ft.basic_events.len() - k,
    {
        if same(ft.basic_events[k].id.as_str(), id) {
            assert(be_ids(*ft)[k as int] == id@);
            return true;
        }
        k = k + 1;
    }
    false
}

/// Whether a correlation's `causeRef` names a gate or basic event.
pub fn resolve_cause_ref(doc: &Document, cause_ref: &str) -> (b: bool)
    ensures
        b == cause_target_ok(*doc, cause_ref@),
{
    proof {
        reveal_strlit("gates");
        reveal_strlit("basicEvents");
    }
    match pointer_parts_of(cause_ref, "/faultTrees/") {
        Some(p) => {
            let ghost pv = p@.map_values(|s: &str| s@);
            if p.len() != 3 {
                return false;
            }
            assert(pv[0] == p@[0]@ && pv[1] == p@[1]@ && pv[2] == p@[2]@);
            if p[0].unicode_len() == 0 || p[2].unicode_len() == 0 {
                return false;
            }
            let fts = match &doc.fault_trees {
                Some(f) => f,
                None => {
                    return false;
                },
            };
            let ti = fault_tree_position(doc, p[0]);
            if ti >= fts.len() {
                return false;
            }
            let ft = &fts[ti].tree;
            if same(p[1], "gates") {
                match &ft.gates {
                    Some(gs) => {
                        let gi = crate::model::gate_position(gs, p[2]);
                        proof {
                            lemma_index_of(gate_ids(*ft), p[2]@);
                        }
                        gi < gs.len()
                    },
                    None => false,
                }
            } else if same(p[1], "basicEvents") {
                has_basic_event(ft, p[2])
            } else {
                false
            }
        },
        None => false,
    }
}

/// Whether some event tree has a node named `id`.
pub fn node_id_exists_anywhere(doc: &Document, id: &str) -> (b: bool)
    ensures
        b == node_anywhere(*doc, id@),
{
    let mut t: usize = 0;
    while t < doc.event_trees.len()
        invariant
            t <= doc.event_trees@.len(),
            forall|x: int| 0 <= x < t ==> !#[trigger] node_ids(doc.event_trees@[x].tree).contains(id@),
        decreases doc.event_trees.len() - t,
    {
        if crate::event_rules::has_node_named(&doc.event_trees[t].tree, id) {
            return true;
        }
        t = t + 1;
    }
    false
}

fn correlation_id_among(cs: &Vec<Correlation>, n: usize, id: &str) -> (b: bool)
    requires
        n <= cs@.len(),
    ensures
        b == correlation_ids(cs@).take(n as int).contains(id@),
{
    let mut i: usize = 0;
    while i < n
        invariant
            n <= cs@.len(),
            i <= n,
            forall|j: int| 0 <= j < i ==> cs@[j].id@ != id@,
        decreases n - i,
    {
        if same(cs[i].id.as_str(), id) {
            assert(correlation_ids(cs@).take(n as int)[i as int] == id@);
            return true;
        }
        i = i + 1;
    }
    false
}

fn rule_id_among(rs: &Vec<AnomalyRule>, n: usize, id: &str) -> (b: bool)
    requires
        n <= rs@.len(),
    ensures
        b == rule_ids(rs@).take(n as int).contains(id@),
{
    let mut i: usize = 0;
    while i < n
        invariant
            n <= rs@.len(),
            i <= n,
            forall|j: int| 0 <= j < i ==> rs@[j].id@ != id@,
        decreases n - i,
    {
        if same(rs[i].id.as_str(), id) {
            assert(rule_ids(rs@).take(n as int)[i as int] == id@);
            return true;
        }
        i = i + 1;
    }
    false
}

fn check_correlation(doc: &Document, cs: &Vec<Correlation>, i: usize, out: &mut Vec<Diagnostic>) -> (ok: bool)
    requires
        i < cs@.len(),
    ensures
        views(final(out)@) == views(old(out)@) + correlation_diags(*doc, cs@, i as int),
        ok == correlation_ok(*doc, cs@, i as int),
{
    let c = &cs[i];
    let id = c.id.as_str();
    let ghost d0 = views(out@);
    let dup = correlation_id_among(cs, i, id);
    if dup {
        push_error(out, "E-151", cat3("x-diagnostics: duplicate correlation id '", id, "'"));
    }
    let cause = resolve_cause_ref(doc, c.cause_ref.as_str());
    if !cause {
        push_error(out, "E-150", cat5("x-diagnostics: correlation '", id, "': causeRef '",
            c.cause_ref.as_str(), "' does not resolve to a Gate or Basic Event"));
    }
    let bad_span = same(c.span_attribute.as_str(), "etdl.node.id") && !node_id_exists_anywhere(
        doc,
        c.span_value.as_str(),
    );
    if bad_span {
        push_error(out, "E-152", cat5("x-diagnostics: correlation '", id,
            "': spanAttribute is 'etdl.node.id' but spanValue '", c.span_value.as_str(),
            "' does not name a node in any declared eventTree"));
    }
    assert(views(out@) =~= d0 + correlation_diags(*doc, cs@, i as int));
    !dup && cause && !bad_span
}

/// Whether an operation's failure probability is tied to no fault tree
/// that some correlation of `corrs` points into.
pub fn operation_lacks_correlated_cause(op: &Operation, corrs: &Vec<Correlation>) -> (b: bool)
    ensures
        b == lacks_correlated_cause(*op, corrs@),
{
    let ps = match &op.on_failure_probability_source {
        Some(p) => p,
        None => {
            return true;
        },
    };
    let ft_id = match fault_tree_id_from_pointer(ps.as_str()) {
        Some(id) => id,
        None => {
            return true;
        },
    };
    assert(fault_tree_id_of(ps@) == Some(ft_id@));
    let mut k: usize = 0;
    while k < corrs.len()
        invariant
            k <= corrs@.len(),
            op.on_failure_probability_source == Some(*ps),
            fault_tree_id_of(ps@) == Some(ft_id@),
            forall|j: int| 0 <= j < k ==> fault_tree_id_of(corrs@[j].cause_ref@) != Some(ft_id@),
        decreases corrs.len() - k,
    {
        match fault_tree_id_from_pointer(corrs[k].cause_ref.as_str()) {
            Some(other) => {
                if same(other, ft_id) {
                    assert(fault_tree_id_of(corrs@[k as int].cause_ref@) == Some(ft_id@));
                    assert(exists|j: int|
                        0 <= j < corrs@.len() && #[trigger] fault_tree_id_of(corrs@[j].cause_ref@)
                            == Some(ft_id@));
                    return false;
                }
            },
            None => {},
        }
        k = k + 1;
    }
    true
}

fn check_rule(
    doc: &Document,
    corrs: &Vec<Correlation>,
    rs: &Vec<AnomalyRule>,
    i: usize,
    out: &mut Vec<Diagnostic>,
) -> (ok: bool)
    requires
        i < rs@.len(),
    ensures
        views(final(out)@) == views(old(out)@) + rule_diags(*doc, corrs@, rs@, i as int),
        ok == rule_ok(*doc, rs@, i as int),
{
    let r = &rs[i];
    let id = r.id.as_str();
    let ghost d0 = views(out@);
    let dup = rule_id_among(rs, i, id);
    if dup {
        push_error(out, "E-151", cat3("x-diagnostics: duplicate anomaly rule id '", id, "'"));
    }
    let node = node_target_of(doc, r.monitors.as_str());
    let found = node.is_some();
    if !found {
        push_error(out, "E-150", cat5("x-diagnostics: anomaly rule '", id, "': monitors '",
            r.monitors.as_str(), "' does not resolve to a node"));
    }
    match node {
        Some(Node::Operation(op)) => {
            if operation_lacks_correlated_cause(op, corrs) {
                push_diag(out, Diagnostic::warning("W-412", cat5("x-diagnostics: anomaly rule '", id,
                    "': monitored Operation '", r.monitors.as_str(),
                    "' has no correlated cause on record")));
            }
        },
        _ => {},
    }
    assert(views(out@) =~= d0 + rule_diags(*doc, corrs@, rs@, i as int));
    !dup && found
}

/// Validate the correlations and anomaly rules of `x-diagnostics` (given
/// as deserialized by the caller), when the document declares
/// `etdl.diagnostics`: E-151 repeated ids; E-150 unresolved `causeRef`s or
/// `monitors`, or an undeserializable list; E-152 an `etdl.node.id` span
/// value naming no node; W-412 a monitored operation with no correlated
/// cause among the accepted correlations. Returns what passed, with the
/// diagnostics.
pub fn parse_and_validate_diagnostics(doc: &Document, manifest: Option<DiagnosticsManifest>) -> (r: (
    DiagnosticsData,
    Vec<Diagnostic>,
))
    ensures
        r.0.correlations@ == diagnostics_outcome(*doc, manifest).0,
        r.0.anomaly_rules@ == diagnostics_outcome(*doc, manifest).1,
        views(r.1@) == diagnostics_outcome(*doc, manifest).2,
{
    let mut diagnostics: Vec<Diagnostic> = Vec::new();
    let mut data = DiagnosticsData { correlations: Vec::new(), anomaly_rules: Vec::new() };
    assert(views(diagnostics@) =~= Seq::<DiagnosticView>::empty());
    if !declares_supplement(doc, "etdl.diagnostics") {
        return (data, diagnostics);
    }
    let m = match manifest {
        Some(m) => m,
        None => {
            return (data, diagnostics);
        },
    };
    let DiagnosticsManifest { correlations, anomaly_rules } = m;
    match correlations {
        Some(Ok(v)) => {
            let ghost all = v@;
            let mut ok: Vec<bool> = Vec::new();
            let mut i: usize = 0;
            while i < v.len()
                invariant
                    i <= v@.len(),
                    all == v@,
                    ok@.len() == i,
                    forall|j: int| 0 <= j < i ==> ok@[j] == correlation_ok(*doc, all, j),
                    views(diagnostics@) == correlations_diags(*doc, all, i as int),
                decreases v.len() - i,
            {
                let b = check_correlation(doc, &v, i, &mut diagnostics);
                ok.push(b);
                i = i + 1;
            }
            let mut rest = v;
            let mut k: usize = 0;
            while k < ok.len()
                invariant
                    ok@.len() == all.len(),
                    k <= all.len(),
                    forall|j: int| 0 <= j < all.len() ==> ok@[j] == correlation_ok(*doc, all, j),
                    rest@ == all.skip(k as int),
                    data.correlations@ == valid_correlations(*doc, all, k as int),
                    data.anomaly_rules@ == Seq::<AnomalyRule>::empty(),
                decreases ok.len() - k,
            {
                assert(rest@.len() > 0 && rest@[0] == all[k as int]);
                let c = rest.remove(0);
                if ok[k] {
                    data.correlations.push(c);
                }
                assert(rest@ =~= all.skip(k + 1));
                assert(data.correlations@ =~= valid_correlations(*doc, all, k + 1));
                k = k + 1;
            }
        },
        Some(Err(e)) => {
            push_error(&mut diagnostics, "E-150", cat("x-diagnostics: invalid correlation manifest: ",
                e.as_str()));
        },
        None => {},
    }
    let ghost cd = views(diagnostics@);
    let ghost cs = data.correlations@;
    match anomaly_rules {
        Some(Ok(v)) => {
            let ghost all = v@;
            let mut ok: Vec<bool> = Vec::new();
            let mut i: usize = 0;
            while i < v.len()
                invariant
                    i <= v@.len(),
                    all == v@,
                    ok@.len() == i,
                    forall|j: int| 0 <= j < i ==> ok@[j] == rule_ok(*doc, all, j),
                    views(diagnostics@) == cd + rules_diags(*doc, data.correlations@, all, i as int),
                decreases v.len() - i,
            {
                let b = check_rule(doc, &data.correlations, &v, i, &mut diagnostics);
                ok.push(b);
                i = i + 1;
            }
            let mut rest = v;
            let mut k: usize = 0;
            while k < ok.len()
                invariant
                    ok@.len() == all.len(),
                    k <= all.len(),
                    forall|j: int| 0 <= j < all.len() ==> ok@[j] == rule_ok(*doc, all, j),
                    rest@ == all.skip(k as int),
                    data.anomaly_rules@ == valid_rules(*doc, all, k as int),
                    data.correlations@ == cs,
                decreases ok.len() - k,
            {
                assert(rest@.len() > 0 && rest@[0] == all[k as int]);
                let r = rest.remove(0);
                if ok[k] {
                    data.anomaly_rules.push(r);
                }
                assert(rest@ =~= all.skip(k + 1));
                assert(data.anomaly_rules@ =~= valid_rules(*doc, all, k + 1));
                k = k + 1;
            }
        },
        Some(Err(e)) => {
            push_error(&mut diagnostics, "E-150", cat("x-diagnostics: invalid anomaly rule manifest: ",
                e.as_str()));
        },
        None => {},
    }
    assert(views(diagnostics@) =~= diagnostics_outcome(*doc, manifest).2);
    (data, diagnostics)
}

} // verus!

verus! {

/// What the diagnostics extension's processing step yields.
#[derive(Debug)]
pub struct DiagnosticsResult {
    pub correlations: Vec<Correlation>,
    pub anomaly_rules: Vec<AnomalyRule>,
}

impl DiagnosticsResult {
    pub fn extension_id(&self) -> (s: &'static str)
        ensures
            s@ == diagnostics_id(),
    {
        "etdl.diagnostics"
    }
}

} // verus!
