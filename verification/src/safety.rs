//! Compiler integration for the Safety Supplement (`etdl.safety`).

use vstd::prelude::*;
use crate::diagnostic::{error_view, warning_view, views, push_diag, Diagnostic, DiagnosticView};
use crate::extension::{ExtensionInfo, SupplementDescriptor, make_descriptor, string_views};
use crate::model::{Document, Node};
use crate::refs::{node_target, node_target_of};
use crate::sorted::{sorted_seq, insert_sorted, lemma_is_sorted_seq};
use crate::stdlib::{join, join_strings};
use crate::text::{signed_decimal, signed_decimal_string, owned, same, cat, cat3, cat5, cat7};
use crate::validate::{declares, declares_supplement, list_contains};

verus! {

/// The supplement id this module implements.
pub open spec fn safety_id() -> Seq<char> {
    "etdl.safety"@
}

/// What the `safety` extension's descriptor holds.
pub open spec fn safety_descriptor(d: SupplementDescriptor) -> bool {
    &&& d.summary@ == "Hazard classification against a severity/likelihood risk matrix, and Safety Integrity Level/independence declarations on core Barrier nodes; no new probability mathematics."@
    &&& d.schema.is_some() && d.schema.unwrap()@ == "etdl.safety/1.0"@
    &&& string_views(d.diagnostic_codes@) == seq!["E-130"@, "E-131"@, "E-132"@, "W-410"@]
    &&& string_views(d.required_supplements@) == Seq::<Seq<char>>::empty()
}

/// The built-in extension for `etdl.safety`.
#[derive(Debug, Default)]
pub struct SafetyExtension;

impl SafetyExtension {
    pub fn new() -> Self {
        SafetyExtension
    }

    pub fn id(&self) -> (s: &'static str)
        ensures
            s@ == safety_id(),
    {
        "etdl.safety"
    }

    pub fn version(&self) -> (s: &'static str)
        ensures
            s@ == "1.0"@,
    {
        "1.0"
    }

    /// Self-reported description of this supplement.
    pub fn descriptor(&self) -> (d: SupplementDescriptor)
        ensures
            safety_descriptor(d),
    {
        let codes: [&str; 4] = ["E-130", "E-131", "E-132", "W-410"];
        let required: [&str; 0] = [];
        let d = make_descriptor(
            "Hazard classification against a severity/likelihood risk matrix, and Safety Integrity Level/independence declarations on core Barrier nodes; no new probability mathematics.",
            Some("etdl.safety/1.0"),
            &codes,
            &required,
        );
        assert(codes@.map_values(|x: &str| x@) =~= seq!["E-130"@, "E-131"@, "E-132"@, "W-410"@]);
        assert(required@.map_values(|x: &str| x@) =~= Seq::<Seq<char>>::empty());
        d
    }

    /// This extension's registry entry.
    pub fn info(&self) -> (e: ExtensionInfo)
        ensures
            e.id@ == safety_id(),
            e.version@ == "1.0"@,
            safety_descriptor(e.descriptor),
    {
        ExtensionInfo {
            id: crate::text::owned(self.id()),
            version: crate::text::owned(self.version()),
            descriptor: self.descriptor(),
        }
    }
}

} // verus!

verus! {

// ---------------------------------------------------------------------------
// Hazards and safety barriers
// ---------------------------------------------------------------------------

#[derive(Debug, Clone, Copy, PartialEq, Eq, Structural)]
pub enum Severity {
    Catastrophic,
    Critical,
    Marginal,
    Negligible,
}

#[derive(Debug, Clone, Copy, PartialEq, Eq, Structural)]
pub enum Likelihood {
    Frequent,
    Probable,
    Occasional,
    Remote,
    Improbable,
}

pub open spec fn severity_of(s: Seq<char>) -> Option<Severity> {
    if s == "catastrophic"@ {
        Some(Severity::Catastrophic)
    } else if s == "critical"@ {
        Some(Severity::Critical)
    } else if s == "marginal"@ {
        Some(Severity::Marginal)
    } else if s == "negligible"@ {
        Some(Severity::Negligible)
    } else {
        None
    }
}

pub open spec fn likelihood_of(s: Seq<char>) -> Option<Likelihood> {
    if s == "frequent"@ {
        Some(Likelihood::Frequent)
    } else if s == "probable"@ {
        Some(Likelihood::Probable)
    } else if s == "occasional"@ {
        Some(Likelihood::Occasional)
    } else if s == "remote"@ {
        Some(Likelihood::Remote)
    } else if s == "improbable"@ {
        Some(Likelihood::Improbable)
    } else {
        None
    }
}

pub fn parse_severity(s: &str) -> (r: Option<Severity>)
    ensures
        r == severity_of(s@),
{
    if same(s, "catastrophic") {
        Some(Severity::Catastrophic)
    } else if same(s, "critical") {
        Some(Severity::Critical)
    } else if same(s, "marginal") {
        Some(Severity::Marginal)
    } else if same(s, "negligible") {
        Some(Severity::Negligible)
    } else {
        None
    }
}

pub fn parse_likelihood(s: &str) -> (r: Option<Likelihood>)
    ensures
        r == likelihood_of(s@),
{
    if same(s, "frequent") {
        Some(Likelihood::Frequent)
    } else if same(s, "probable") {
        Some(Likelihood::Probable)
    } else if same(s, "occasional") {
        Some(Likelihood::Occasional)
    } else if same(s, "remote") {
        Some(Likelihood::Remote)
    } else if same(s, "improbable") {
        Some(Likelihood::Improbable)
    } else {
        None
    }
}

/// The risk matrix: severity by likelihood gives the Risk Index (1 worst,
/// 4 least).
pub open spec fn risk_matrix(s: Severity, l: Likelihood) -> i64 {
    match s {
        Severity::Catastrophic => match l {
            Likelihood::Remote | Likelihood::Improbable => 2,
            _ => 1,
        },
        Severity::Critical => match l {
            Likelihood::Frequent | Likelihood::Probable => 1,
            Likelihood::Improbable => 3,
            _ => 2,
        },
        Severity::Marginal => match l {
            Likelihood::Frequent => 1,
            Likelihood::Probable => 2,
            Likelihood::Improbable => 4,
            _ => 3,
        },
        Severity::Negligible => match l {
            Likelihood::Frequent => 2,
            Likelihood::Probable => 3,
            _ => 4,
        },
    }
}

pub fn risk_matrix_value(severity: Severity, likelihood: Likelihood) -> (r: i64)
    ensures
        r == risk_matrix(severity, likelihood),
        1 <= r <= 4,
{
    match (severity, likelihood) {
        (Severity::Catastrophic, Likelihood::Frequent) => 1,
        (Severity::Catastrophic, Likelihood::Probable) => 1,
        (Severity::Catastrophic, Likelihood::Occasional) => 1,
        (Severity::Catastrophic, Likelihood::Remote) => 2,
        (Severity::Catastrophic, Likelihood::Improbable) => 2,
        (Severity::Critical, Likelihood::Frequent) => 1,
        (Severity::Critical, Likelihood::Probable) => 1,
        (Severity::Critical, Likelihood::Occasional) => 2,
        (Severity::Critical, Likelihood::Remote) => 2,
        (Severity::Critical, Likelihood::Improbable) => 3,
        (Severity::Marginal, Likelihood::Frequent) => 1,
        (Severity::Marginal, Likelihood::Probable) => 2,
        (Severity::Marginal, Likelihood::Occasional) => 3,
        (Severity::Marginal, Likelihood::Remote) => 3,
        (Severity::Marginal, Likelihood::Improbable) => 4,
        (Severity::Negligible, Likelihood::Frequent) => 2,
        (Severity::Negligible, Likelihood::Probable) => 3,
        (Severity::Negligible, Likelihood::Occasional) => 4,
        (Severity::Negligible, Likelihood::Remote) => 4,
        (Severity::Negligible, Likelihood::Improbable) => 4,
    }
}

/// One hazard under `x-safety.hazards`.
#[derive(Debug, Clone)]
pub struct Hazard {
    pub id: String,
    pub description: String,
    pub severity: String,
    pub likelihood: String,
    pub risk_index: i64,
    pub consequence_ref: String,
}

/// One safety barrier under `x-safety.barriers`.
#[derive(Debug, Clone)]
pub struct SafetyBarrier {
    pub id: String,
    pub node_ref: String,
    pub sil: i64,
    pub independent_of: Vec<String>,
    pub common_cause_group: Option<String>,
}

/// Every hazard and safety barrier that passed its checks.
#[derive(Debug, Clone)]
pub struct SafetyData {
    pub hazards: Vec<Hazard>,
    pub barriers: Vec<SafetyBarrier>,
}

/// The `x-safety` field, deserialized: each list, or the text of the error
/// that deserializing it gave; `None` for an absent list.
#[derive(Debug, Clone)]
pub struct SafetyManifest {
    pub hazards: Option<Result<Vec<Hazard>, String>>,
    pub barriers: Option<Result<Vec<SafetyBarrier>, String>>,
}

/// An error without a locator.
pub open spec fn err(code: Seq<char>, msg: Seq<char>) -> Seq<DiagnosticView> {
    seq![error_view(code, msg)]
}

pub open spec fn hazard_ids(hs: Seq<Hazard>) -> Seq<Seq<char>> {
    hs.map_values(|h: Hazard| h.id@)
}

pub open spec fn risk_index_ok(r: i64) -> bool {
    1 <= r <= 4
}

pub open spec fn is_consequence(n: Option<Node>) -> bool {
    n matches Some(Node::Consequence(_))
}

pub open spec fn is_barrier(n: Option<Node>) -> bool {
    n matches Some(Node::Barrier(_))
}

/// The diagnostics of hazard `i` of `hs`.
pub open spec fn hazard_diags(doc: Document, hs: Seq<Hazard>, i: int) -> Seq<DiagnosticView> {
    let h = hs[i];
    let id = h.id@;
    let sev = severity_of(h.severity@);
    let like = likelihood_of(h.likelihood@);
    (if hazard_ids(hs).take(i).contains(id) {
        err("E-130"@, "x-safety: duplicate hazard id '"@ + id + "'"@)
    } else {
        Seq::empty()
    }) + (if sev is None {
        err(
            "E-130"@,
            "x-safety: hazard '"@ + id + "': severity '"@ + h.severity@
                + "' is not one of catastrophic, critical, marginal, negligible"@,
        )
    } else {
        Seq::empty()
    }) + (if like is None {
        err(
            "E-130"@,
            "x-safety: hazard '"@ + id + "': likelihood '"@ + h.likelihood@
                + "' is not one of frequent, probable, occasional, remote, improbable"@,
        )
    } else {
        Seq::empty()
    }) + (if !risk_index_ok(h.risk_index) {
        err(
            "E-130"@,
            "x-safety: hazard '"@ + id + "': riskIndex must be an integer in [1,4] (got "@
                + signed_decimal(h.risk_index as int) + ")"@,
        )
    } else {
        Seq::empty()
    }) + (if !is_consequence(node_target(doc, h.consequence_ref@)) {
        err(
            "E-131"@,
            "x-safety: hazard '"@ + id + "': consequenceRef '"@ + h.consequence_ref@
                + "' does not resolve to a Consequence node"@,
        )
    } else {
        Seq::empty()
    }) + (if sev is Some && like is Some && risk_index_ok(h.risk_index) && h.risk_index
        != risk_matrix(sev->0, like->0) {
        seq![
            warning_view(
                "W-410"@,
                "x-safety: hazard '"@ + id + "': declared riskIndex "@ + signed_decimal(
                    h.risk_index as int,
                ) + " does not match the risk matrix value "@ + signed_decimal(
                    risk_matrix(sev->0, like->0) as int,
                ) + " for severity='"@ + h.severity@ + "'/likelihood='"@ + h.likelihood@ + "'"@,
            ),
        ]
    } else {
        Seq::empty()
    })
}

/// Whether hazard `i` passes every check (W-410 does not reject it).
pub open spec fn hazard_ok(doc: Document, hs: Seq<Hazard>, i: int) -> bool {
    let h = hs[i];
    &&& !hazard_ids(hs).take(i).contains(h.id@)
    &&& severity_of(h.severity@) is Some
    &&& likelihood_of(h.likelihood@) is Some
    &&& risk_index_ok(h.risk_index)
    &&& is_consequence(node_target(doc, h.consequence_ref@))
}

/// The diagnostics of the first `n` hazards.
pub open spec fn hazards_diags(doc: Document, hs: Seq<Hazard>, n: int) -> Seq<DiagnosticView>
    decreases n,
{
    if n <= 0 {
        Seq::empty()
    } else {
        hazards_diags(doc, hs, n - 1) + hazard_diags(doc, hs, n - 1)
    }
}

/// The hazards among the first `n` that pass every check, in order.
pub open spec fn valid_hazards(doc: Document, hs: Seq<Hazard>, n: int) -> Seq<Hazard>
    decreases n,
{
    if n <= 0 {
        Seq::empty()
    } else {
        valid_hazards(doc, hs, n - 1) + if hazard_ok(doc, hs, n - 1) {
            seq![hs[n - 1]]
        } else {
            Seq::empty()
        }
    }
}

pub open spec fn barrier_ids(bs: Seq<SafetyBarrier>) -> Seq<Seq<char>> {
    bs.map_values(|b: SafetyBarrier| b.id@)
}

/// The diagnostics of safety barrier `i` of `bs`.
pub open spec fn safety_barrier_diags(doc: Document, bs: Seq<SafetyBarrier>, i: int) -> Seq<
    DiagnosticView,
> {
    let b = bs[i];
    let id = b.id@;
    (if barrier_ids(bs).take(i).contains(id) {
        err("E-130"@, "x-safety: duplicate safety barrier id '"@ + id + "'"@)
    } else {
        Seq::empty()
    }) + (if !risk_index_ok(b.sil) {
        err(
            "E-130"@,
            "x-safety: safety barrier '"@ + id + "': sil must be an integer in [1,4] (got "@
                + signed_decimal(b.sil as int) + ")"@,
        )
    } else {
        Seq::empty()
    }) + (if !is_barrier(node_target(doc, b.node_ref@)) {
        err(
            "E-131"@,
            "x-safety: safety barrier '"@ + id + "': nodeRef '"@ + b.node_ref@
                + "' does not resolve to a Barrier node"@,
        )
    } else {
        Seq::empty()
    })
}

pub open spec fn safety_barrier_ok(doc: Document, bs: Seq<SafetyBarrier>, i: int) -> bool {
    let b = bs[i];
    &&& !barrier_ids(bs).take(i).contains(b.id@)
    &&& risk_index_ok(b.sil)
    &&& is_barrier(node_target(doc, b.node_ref@))
}

pub open spec fn barriers_diags(doc: Document, bs: Seq<SafetyBarrier>, n: int) -> Seq<
    DiagnosticView,
>
    decreases n,
{
    if n <= 0 {
        Seq::empty()
    } else {
        barriers_diags(doc, bs, n - 1) + safety_barrier_diags(doc, bs, n - 1)
    }
}

pub open spec fn valid_barriers(doc: Document, bs: Seq<SafetyBarrier>, n: int) -> Seq<
    SafetyBarrier,
>
    decreases n,
{
    if n <= 0 {
        Seq::empty()
    } else {
        valid_barriers(doc, bs, n - 1) + if safety_barrier_ok(doc, bs, n - 1) {
            seq![bs[n - 1]]
        } else {
            Seq::empty()
        }
    }
}

fn hazard_id_among(hs: &Vec<Hazard>, n: usize, id: &str) -> (b: bool)
    requires
        n <= hs@.len(),
    ensures
        b == hazard_ids(hs@).take(n as int).contains(id@),
{
    let mut i: usize = 0;
    while i < n
        invariant
            n <= hs@.len(),
            i <= n,
            forall|j: int| 0 <= j < i ==> hs@[j].id@ != id@,
        decreases n - i,
    {
        if same(hs[i].id.as_str(), id) {
            assert(hazard_ids(hs@).take(n as int)[i as int] == id@);
            return true;
        }
        i = i + 1;
    }
    false
}

fn barrier_id_among(bs: &Vec<SafetyBarrier>, n: usize, id: &str) -> (b: bool)
    requires
        n <= bs@.len(),
    ensures
        b == barrier_ids(bs@).take(n as int).contains(id@),
{
    let mut i: usize = 0;
    while i < n
        invariant
            n <= bs@.len(),
            i <= n,
            forall|j: int| 0 <= j < i ==> bs@[j].id@ != id@,
        decreases n - i,
    {
        if same(bs[i].id.as_str(), id) {
            assert(barrier_ids(bs@).take(n as int)[i as int] == id@);
            return true;
        }
        i = i + 1;
    }
    false
}

fn push_error(out: &mut Vec<Diagnostic>, code: &str, msg: String)
    ensures
        views(final(out)@) == views(old(out)@) + err(code@, msg@),
{
    push_diag(out, Diagnostic::error(code, msg));
    assert(views(out@) =~= views(old(out)@) + err(code@, msg@));
}

fn check_hazard(doc: &Document, hs: &Vec<Hazard>, i: usize, out: &mut Vec<Diagnostic>) -> (ok: bool)
    requires
        i < hs@.len(),
    ensures
        views(final(out)@) == views(old(out)@) + hazard_diags(*doc, hs@, i as int),
        ok == hazard_ok(*doc, hs@, i as int),
{
    let h = &hs[i];
    let id = h.id.as_str();
    let ghost d0 = views(out@);
    let dup = hazard_id_among(hs, i, id);
    if dup {
        push_error(out, "E-130", cat3("x-safety: duplicate hazard id '", id, "'"));
    }
    let sev = parse_severity(h.severity.as_str());
    if sev.is_none() {
        push_error(out, "E-130", cat5("x-safety: hazard '", id, "': severity '", h.severity.as_str(),
            "' is not one of catastrophic, critical, marginal, negligible"));
    }
    let like = parse_likelihood(h.likelihood.as_str());
    if like.is_none() {
        push_error(out, "E-130", cat5("x-safety: hazard '", id, "': likelihood '",
            h.likelihood.as_str(),
            "' is not one of frequent, probable, occasional, remote, improbable"));
    }
    let ri_ok = 1 <= h.risk_index && h.risk_index <= 4;
    if !ri_ok {
        push_error(out, "E-130", cat5("x-safety: hazard '", id,
            "': riskIndex must be an integer in [1,4] (got ",
            signed_decimal_string(h.risk_index).as_str(), ")"));
    }
    let target = node_target_of(doc, h.consequence_ref.as_str());
    let cons = match target {
        Some(Node::Consequence(_)) => true,
        _ => false,
    };
    if !cons {
        push_error(out, "E-131", cat5("x-safety: hazard '", id, "': consequenceRef '",
            h.consequence_ref.as_str(), "' does not resolve to a Consequence node"));
    }
    match (sev, like) {
        (Some(sv), Some(lk)) => {
            if ri_ok {
                let expected = risk_matrix_value(sv, lk);
                if h.risk_index != expected {
                    let msg = cat5("x-safety: hazard '", id, "': declared riskIndex ",
                        signed_decimal_string(h.risk_index).as_str(),
                        " does not match the risk matrix value ").concat(
                        signed_decimal_string(expected).as_str(),
                    ).concat(" for severity='").concat(h.severity.as_str()).concat(
                        "'/likelihood='",
                    ).concat(h.likelihood.as_str()).concat("'");
                    push_diag(out, Diagnostic::warning("W-410", msg));
                }
            }
        },
        _ => {},
    }
    assert(views(out@) =~= d0 + hazard_diags(*doc, hs@, i as int));
    !dup && sev.is_some() && like.is_some() && ri_ok && cons
}

fn check_safety_barrier(doc: &Document, bs: &Vec<SafetyBarrier>, i: usize, out: &mut Vec<Diagnostic>) -> (ok: bool)
    requires
        i < bs@.len(),
    ensures
        views(final(out)@) == views(old(out)@) + safety_barrier_diags(*doc, bs@, i as int),
        ok == safety_barrier_ok(*doc, bs@, i as int),
{
    let b = &bs[i];
    let id = b.id.as_str();
    let ghost d0 = views(out@);
    let dup = barrier_id_among(bs, i, id);
    if dup {
        push_error(out, "E-130", cat3("x-safety: duplicate safety barrier id '", id, "'"));
    }
    let sil_ok = 1 <= b.sil && b.sil <= 4;
    if !sil_ok {
        push_error(out, "E-130", cat5("x-safety: safety barrier '", id,
            "': sil must be an integer in [1,4] (got ", signed_decimal_string(b.sil).as_str(), ")"));
    }
    let target = node_target_of(doc, b.node_ref.as_str());
    let is_b = match target {
        Some(Node::Barrier(_)) => true,
        _ => false,
    };
    if !is_b {
        push_error(out, "E-131", cat5("x-safety: safety barrier '", id, "': nodeRef '",
            b.node_ref.as_str(), "' does not resolve to a Barrier node"));
    }
    assert(views(out@) =~= d0 + safety_barrier_diags(*doc, bs@, i as int));
    !dup && sil_ok && is_b
}

} // verus!

verus! {

// ---------------------------------------------------------------------------
// Common-cause contradictions (E-132)
// ---------------------------------------------------------------------------

/// Whether barriers `a` and `b` each list the other in `independentOf`.
pub open spec fn mutual(bs: Seq<SafetyBarrier>, a: int, b: int) -> bool {
    string_views(bs[a].independent_of@).contains(bs[b].id@) && string_views(
        bs[b].independent_of@,
    ).contains(bs[a].id@)
}

/// The barriers within `k` mutual-independence steps of barrier `r`.
pub open spec fn reach_in(bs: Seq<SafetyBarrier>, r: int, k: nat) -> Seq<bool>
    decreases k,
{
    if k == 0 {
        Seq::new(bs.len(), |j: int| j == r)
    } else {
        let p = reach_in(bs, r, (k - 1) as nat);
        Seq::new(
            bs.len(),
            |j: int| p[j] || exists|l: int| 0 <= l < bs.len() && p[l] && #[trigger] mutual(bs, l, j),
        )
    }
}

/// The barriers connected to barrier `r` through mutual-independence
/// claims.
pub open spec fn component(bs: Seq<SafetyBarrier>, r: int) -> Seq<bool> {
    reach_in(bs, r, bs.len())
}

/// The barriers in the components of the barriers before `i` that start a
/// component.
pub open spec fn visited_before(bs: Seq<SafetyBarrier>, i: int) -> Seq<bool>
    decreases i,
{
    if i <= 0 {
        Seq::new(bs.len(), |j: int| false)
    } else {
        let v = visited_before(bs, i - 1);
        if v[i - 1] {
            v
        } else {
            let c = component(bs, i - 1);
            Seq::new(bs.len(), |j: int| v[j] || c[j])
        }
    }
}

/// Whether barrier `j` is in common-cause group `g`.
pub open spec fn in_group(b: SafetyBarrier, g: Seq<char>) -> bool {
    b.common_cause_group is Some && b.common_cause_group->0@ == g
}

/// The non-empty common-cause groups of the barriers of component `c`.
pub open spec fn groups_of(bs: Seq<SafetyBarrier>, c: Seq<bool>) -> Set<Seq<char>> {
    Set::new(
        |g: Seq<char>|
            g.len() > 0 && exists|j: int| 0 <= j < bs.len() && c[j] && #[trigger] in_group(bs[j], g),
    )
}

/// The ids of the barriers of component `c` in group `g`.
pub open spec fn members_of(bs: Seq<SafetyBarrier>, c: Seq<bool>, g: Seq<char>) -> Set<Seq<char>> {
    Set::new(
        |id: Seq<char>|
            exists|j: int| 0 <= j < bs.len() && c[j] && #[trigger] in_group(bs[j], g) && bs[j].id@ == id,
    )
}

/// E-132 when at least two barriers of component `c` share group `g`.
pub open spec fn group_diag(bs: Seq<SafetyBarrier>, c: Seq<bool>, g: Seq<char>) -> Seq<
    DiagnosticView,
> {
    let m = sorted_seq(members_of(bs, c, g));
    if m.len() >= 2 {
        err(
            "E-132"@,
            "x-safety: barriers "@ + join(m, ", "@)
                + " mutually claim independentOf each other but share commonCauseGroup '"@ + g
                + "' \u{2014} self-contradictory"@,
        )
    } else {
        Seq::empty()
    }
}

/// The E-132 diagnostics of component `c`, group by group in name order.
pub open spec fn component_diags(bs: Seq<SafetyBarrier>, c: Seq<bool>) -> Seq<DiagnosticView> {
    sorted_seq(groups_of(bs, c)).flat_map(|g: Seq<char>| group_diag(bs, c, g))
}

/// The E-132 diagnostics of the components started by the first `n`
/// barriers.
pub open spec fn contradiction_diags_upto(bs: Seq<SafetyBarrier>, n: int) -> Seq<DiagnosticView>
    decreases n,
{
    if n <= 0 {
        Seq::empty()
    } else {
        contradiction_diags_upto(bs, n - 1) + if visited_before(bs, n - 1)[n - 1] {
            Seq::empty()
        } else {
            component_diags(bs, component(bs, n - 1))
        }
    }
}

/// E-132 for every component of barriers connected through mutual
/// `independentOf` claims in which two barriers share a common-cause group.
pub open spec fn contradiction_diags(bs: Seq<SafetyBarrier>) -> Seq<DiagnosticView> {
    contradiction_diags_upto(bs, bs.len() as int)
}

fn is_mutual(bs: &Vec<SafetyBarrier>, a: usize, b: usize) -> (r: bool)
    requires
        a < bs@.len(),
        b < bs@.len(),
    ensures
        r == mutual(bs@, a as int, b as int),
{
    list_contains(&bs[a].independent_of, bs[b].id.as_str()) && list_contains(
        &bs[b].independent_of,
        bs[a].id.as_str(),
    )
}

fn component_of(bs: &Vec<SafetyBarrier>, r: usize) -> (c: Vec<bool>)
    requires
        r < bs@.len(),
    ensures
        c@ == component(bs@, r as int),
{
    let n = bs.len();
    let mut cur: Vec<bool> = Vec::new();
    let mut j: usize = 0;
    while j < n
        invariant
            n == bs@.len(),
            j <= n,
            cur@ == Seq::new(j as nat, |x: int| x == r),
        decreases n - j,
    {
        cur.push(j == r);
        j = j + 1;
        assert(cur@ =~= Seq::new(j as nat, |x: int| x == r));
    }
    let mut k: usize = 0;
    while k < n
        invariant
            n == bs@.len(),
            k <= n,
            cur@ == reach_in(bs@, r as int, k as nat),
        decreases n - k,
    {
        let ghost p = cur@;
        let mut next: Vec<bool> = Vec::new();
        let mut a: usize = 0;
        while a < n
            invariant
                n == bs@.len(),
                a <= n,
                p == cur@,
                p.len() == n,
                next@ == Seq::new(
                    a as nat,
                    |x: int| p[x] || exists|l: int| 0 <= l < n && p[l] && #[trigger] mutual(bs@, l, x),
                ),
            decreases n - a,
        {
            let mut hit = cur[a];
            let mut l: usize = 0;
            while l < n
                invariant
                    n == bs@.len(),
                    l <= n,
                    a < n,
                    p == cur@,
                    p.len() == n,
                    hit == (p[a as int] || exists|m: int| 0 <= m < l && p[m] && #[trigger] mutual(bs@, m, a as int)),
                decreases n - l,
            {
                if cur[l] && is_mutual(bs, l, a) {
                    hit = true;
                }
                l = l + 1;
            }
            next.push(hit);
            a = a + 1;
            assert(next@ =~= Seq::new(
                a as nat,
                |x: int| p[x] || exists|l: int| 0 <= l < n && p[l] && #[trigger] mutual(bs@, l, x),
            ));
        }
        cur = next;
        k = k + 1;
    }
    cur
}

} // verus!

verus! {

fn group_members(bs: &Vec<SafetyBarrier>, c: &Vec<bool>, g: &str) -> (m: Vec<String>)
    requires
        c@.len() == bs@.len(),
    ensures
        string_views(m@) == sorted_seq(members_of(bs@, c@, g@)),
{
    let mut m: Vec<String> = Vec::new();
    let mut j: usize = 0;
    let ghost part = |k: int| Set::new(
        |id: Seq<char>|
            exists|x: int| 0 <= x < k && c@[x] && #[trigger] in_group(bs@[x], g@) && bs@[x].id@ == id,
    );
    assert(string_views(m@).to_set() =~= part(0));
    while j < bs.len()
        invariant
            j <= bs@.len(),
            c@.len() == bs@.len(),
            part == (|k: int| Set::new(
                |id: Seq<char>|
                    exists|x: int| 0 <= x < k && c@[x] && #[trigger] in_group(bs@[x], g@) && bs@[x].id@ == id,
            )),
            crate::extension::strictly_sorted(string_views(m@)),
            string_views(m@).to_set() == part(j as int),
        decreases bs.len() - j,
    {
        let b = &bs[j];
        let member = c[j] && match &b.common_cause_group {
            Some(x) => same(x.as_str(), g),
            None => false,
        };
        assert(member == (c@[j as int] && in_group(bs@[j as int], g@)));
        if member {
            insert_sorted(&mut m, b.id.as_str());
        }
        assert(string_views(m@).to_set() =~= part(j + 1));
        j = j + 1;
    }
    assert(part(bs@.len() as int) =~= members_of(bs@, c@, g@));
    proof {
        lemma_is_sorted_seq(string_views(m@));
    }
    m
}

fn component_check(bs: &Vec<SafetyBarrier>, c: &Vec<bool>, out: &mut Vec<Diagnostic>)
    requires
        c@.len() == bs@.len(),
    ensures
        views(final(out)@) == views(old(out)@) + component_diags(bs@, c@),
{
    let mut groups: Vec<String> = Vec::new();
    let ghost part = |k: int| Set::new(
        |g: Seq<char>|
            g.len() > 0 && exists|x: int| 0 <= x < k && c@[x] && #[trigger] in_group(bs@[x], g),
    );
    assert(string_views(groups@).to_set() =~= part(0));
    let mut j: usize = 0;
    while j < bs.len()
        invariant
            j <= bs@.len(),
            c@.len() == bs@.len(),
            part == (|k: int| Set::new(
                |g: Seq<char>|
                    g.len() > 0 && exists|x: int| 0 <= x < k && c@[x] && #[trigger] in_group(bs@[x], g),
            )),
            crate::extension::strictly_sorted(string_views(groups@)),
            string_views(groups@).to_set() == part(j as int),
        decreases bs.len() - j,
    {
        if c[j] {
            match &bs[j].common_cause_group {
                Some(x) => {
                    if x.unicode_len() > 0 {
                        insert_sorted(&mut groups, x.as_str());
                        assert(in_group(bs@[j as int], x@));
                    }
                },
                None => {},
            }
        }
        assert(string_views(groups@).to_set() =~= part(j + 1));
        j = j + 1;
    }
    assert(part(bs@.len() as int) =~= groups_of(bs@, c@));
    proof {
        lemma_is_sorted_seq(string_views(groups@));
    }
    let ghost gs = string_views(groups@);
    let ghost f = |g: Seq<char>| group_diag(bs@, c@, g);
    let ghost d0 = views(out@);
    proof {
        crate::diagnostic::lemma_flat_map_empty(gs, f);
    }
    let mut k: usize = 0;
    while k < groups.len()
        invariant
            k <= groups@.len(),
            c@.len() == bs@.len(),
            gs == string_views(groups@),
            gs == sorted_seq(groups_of(bs@, c@)),
            f == (|g: Seq<char>| group_diag(bs@, c@, g)),
            views(out@) == d0 + gs.take(k as int).flat_map(f),
        decreases groups.len() - k,
    {
        let g = groups[k].as_str();
        let m = group_members(bs, c, g);
        let ghost before = views(out@);
        if m.len() >= 2 {
            let msg = cat3("x-safety: barriers ", join_strings(&m, ", ").as_str(),
                " mutually claim independentOf each other but share commonCauseGroup '").concat(
                g,
            ).concat("' \u{2014} self-contradictory");
            push_error(out, "E-132", msg);
        }
        proof {
            assert(gs[k as int] == g@);
            assert(views(out@) =~= before + f(gs[k as int]));
            crate::diagnostic::lemma_flat_map_step(gs, f, k as int);
        }
        k = k + 1;
    }
    proof {
        crate::diagnostic::lemma_take_all(gs);
    }
}

/// E-132: report every component of barriers connected through mutual
/// `independentOf` claims whose members share a common-cause group.
pub fn check_common_cause_contradictions(bs: &Vec<SafetyBarrier>, diagnostics: &mut Vec<Diagnostic>)
    ensures
        views(final(diagnostics)@) == views(old(diagnostics)@) + contradiction_diags(bs@),
{
    let n = bs.len();
    let mut visited: Vec<bool> = Vec::new();
    let mut j: usize = 0;
    while j < n
        invariant
            n == bs@.len(),
            j <= n,
            visited@ == Seq::new(j as nat, |x: int| false),
        decreases n - j,
    {
        visited.push(false);
        j = j + 1;
        assert(visited@ =~= Seq::new(j as nat, |x: int| false));
    }
    let ghost d0 = views(diagnostics@);
    let mut i: usize = 0;
    while i < n
        invariant
            n == bs@.len(),
            i <= n,
            visited@ == visited_before(bs@, i as int),
            visited@.len() == n,
            views(diagnostics@) == d0 + contradiction_diags_upto(bs@, i as int),
        decreases n - i,
    {
        if !visited[i] {
            let c = component_of(bs, i);
            let ghost v = visited@;
            let mut a: usize = 0;
            while a < n
                invariant
                    n == bs@.len(),
                    a <= n,
                    c@ == component(bs@, i as int),
                    c@.len() == n,
                    v.len() == n,
                    visited@ == Seq::new(
                        n as nat,
                        |x: int|
                            if x < a {
                                v[x] || c@[x]
                            } else {
                                v[x]
                            },
                    ),
                decreases n - a,
            {
                if c[a] {
                    visited.set(a, true);
                }
                assert(visited@ =~= Seq::new(
                    n as nat,
                    |x: int|
                        if x < a + 1 {
                            v[x] || c@[x]
                        } else {
                            v[x]
                        },
                ));
                a = a + 1;
            }
            assert(visited@ =~= Seq::new(n as nat, |x: int| v[x] || c@[x]));
            component_check(bs, &c, diagnostics);
        }
        i = i + 1;
    }
}

} // verus!

verus! {

/// The accepted hazards, the accepted barriers and the diagnostics of the
/// safety validation.
pub open spec fn safety_outcome(doc: Document, manifest: Option<SafetyManifest>) -> (
    Seq<Hazard>,
    Seq<SafetyBarrier>,
    Seq<DiagnosticView>,
) {
    if !declares(doc, "etdl.safety"@) || manifest is None {
        (Seq::empty(), Seq::empty(), Seq::empty())
    } else {
        let m = manifest->0;
        let (hs, hd) = match m.hazards {
            None => (Seq::<Hazard>::empty(), Seq::<DiagnosticView>::empty()),
            Some(Err(e)) => (
                Seq::<Hazard>::empty(),
                err("E-130"@, "x-safety: invalid hazard manifest: "@ + e@),
            ),
            Some(Ok(v)) => (
                valid_hazards(doc, v@, v@.len() as int),
                hazards_diags(doc, v@, v@.len() as int),
            ),
        };
        let (bs, bd) = match m.barriers {
            None => (Seq::<SafetyBarrier>::empty(), Seq::<DiagnosticView>::empty()),
            Some(Err(e)) => (
                Seq::<SafetyBarrier>::empty(),
                err("E-130"@, "x-safety: invalid safety barrier manifest: "@ + e@),
            ),
            Some(Ok(v)) => {
                let valid = valid_barriers(doc, v@, v@.len() as int);
                (valid, barriers_diags(doc, v@, v@.len() as int) + contradiction_diags(valid))
            },
        };
        (hs, bs, hd + bd)
    }
}

fn accept_hazards(doc: &Document, hs: Vec<Hazard>, out: &mut Vec<Diagnostic>) -> (r: Vec<Hazard>)
    ensures
        r@ == valid_hazards(*doc, hs@, hs@.len() as int),
        views(final(out)@) == views(old(out)@) + hazards_diags(*doc, hs@, hs@.len() as int),
{
    let ghost all = hs@;
    let mut ok: Vec<bool> = Vec::new();
    let mut i: usize = 0;
    while i < hs.len()
        invariant
            i <= hs@.len(),
            all == hs@,
            ok@.len() == i,
            forall|j: int| 0 <= j < i ==> ok@[j] == hazard_ok(*doc, all, j),
            views(out@) == views(old(out)@) + hazards_diags(*doc, all, i as int),
        decreases hs.len() - i,
    {
        let b = check_hazard(doc, &hs, i, out);
        ok.push(b);
        i = i + 1;
    }
    let mut rest = hs;
    let mut r: Vec<Hazard> = Vec::new();
    let mut k: usize = 0;
    while k < ok.len()
        invariant
            ok@.len() == all.len(),
            k <= all.len(),
            forall|j: int| 0 <= j < all.len() ==> ok@[j] == hazard_ok(*doc, all, j),
            rest@ == all.skip(k as int),
            r@ == valid_hazards(*doc, all, k as int),
        decreases ok.len() - k,
    {
        assert(rest@.len() > 0 && rest@[0] == all[k as int]);
        let h = rest.remove(0);
        if ok[k] {
            r.push(h);
        }
        assert(rest@ =~= all.skip(k + 1));
        assert(r@ =~= valid_hazards(*doc, all, k + 1));
        k = k + 1;
    }
    r
}

fn accept_barriers(doc: &Document, bs: Vec<SafetyBarrier>, out: &mut Vec<Diagnostic>) -> (r: Vec<
    SafetyBarrier,
>)
    ensures
        r@ == valid_barriers(*doc, bs@, bs@.len() as int),
        views(final(out)@) == views(old(out)@) + barriers_diags(*doc, bs@, bs@.len() as int),
{
    let ghost all = bs@;
    let mut ok: Vec<bool> = Vec::new();
    let mut i: usize = 0;
    while i < bs.len()
        invariant
            i <= bs@.len(),
            all == bs@,
            ok@.len() == i,
            forall|j: int| 0 <= j < i ==> ok@[j] == safety_barrier_ok(*doc, all, j),
            views(out@) == views(old(out)@) + barriers_diags(*doc, all, i as int),
        decreases bs.len() - i,
    {
        let b = check_safety_barrier(doc, &bs, i, out);
        ok.push(b);
        i = i + 1;
    }
    let mut rest = bs;
    let mut r: Vec<SafetyBarrier> = Vec::new();
    let mut k: usize = 0;
    while k < ok.len()
        invariant
            ok@.len() == all.len(),
            k <= all.len(),
            forall|j: int| 0 <= j < all.len() ==> ok@[j] == safety_barrier_ok(*doc, all, j),
            rest@ == all.skip(k as int),
            r@ == valid_barriers(*doc, all, k as int),
        decreases ok.len() - k,
    {
        assert(rest@.len() > 0 && rest@[0] == all[k as int]);
        let b = rest.remove(0);
        if ok[k] {
            r.push(b);
        }
        assert(rest@ =~= all.skip(k + 1));
        assert(r@ =~= valid_barriers(*doc, all, k + 1));
        k = k + 1;
    }
    r
}

/// Validate the hazards and safety barriers of `x-safety` (given as
/// deserialized by the caller), when the document declares `etdl.safety`:
/// E-130 duplicate ids, invalid severity, likelihood, riskIndex or sil, or
/// a list that failed to deserialize; E-131 a reference to the wrong kind
/// of node; W-410 a riskIndex the risk matrix disagrees with; E-132
/// contradictory independence claims. Returns what passed, with the
/// diagnostics.
pub fn parse_and_validate_safety(doc: &Document, manifest: Option<SafetyManifest>) -> (r: (
    SafetyData,
    Vec<Diagnostic>,
))
    ensures
        r.0.hazards@ == safety_outcome(*doc, manifest).0,
        r.0.barriers@ == safety_outcome(*doc, manifest).1,
        views(r.1@) == safety_outcome(*doc, manifest).2,
{
    let mut diagnostics: Vec<Diagnostic> = Vec::new();
    let mut data = SafetyData { hazards: Vec::new(), barriers: Vec::new() };
    assert(views(diagnostics@) =~= Seq::<DiagnosticView>::empty());
    if !declares_supplement(doc, "etdl.safety") {
        return (data, diagnostics);
    }
    let m = match manifest {
        Some(m) => m,
        None => {
            return (data, diagnostics);
        },
    };
    let ghost mg = m;
    let SafetyManifest { hazards, barriers } = m;
    match hazards {
        Some(Ok(v)) => {
            data.hazards = accept_hazards(doc, v, &mut diagnostics);
        },
        Some(Err(e)) => {
            push_error(&mut diagnostics, "E-130", cat("x-safety: invalid hazard manifest: ", e.as_str()));
        },
        None => {},
    }
    let ghost hd = views(diagnostics@);
    match barriers {
        Some(Ok(v)) => {
            let valid = accept_barriers(doc, v, &mut diagnostics);
            check_common_cause_contradictions(&valid, &mut diagnostics);
            data.barriers = valid;
        },
        Some(Err(e)) => {
            push_error(&mut diagnostics, "E-130", cat("x-safety: invalid safety barrier manifest: ",
                e.as_str()));
        },
        None => {},
    }
    assert(views(diagnostics@) =~= safety_outcome(*doc, manifest).2);
    (data, diagnostics)
}

} // verus!

verus! {

/// What the safety extension's processing step yields.
#[derive(Debug)]
pub struct SafetyResult {
    pub hazards: Vec<Hazard>,
    pub barriers: Vec<SafetyBarrier>,
}

impl SafetyResult {
    pub fn extension_id(&self) -> (s: &'static str)
        ensures
            s@ == safety_id(),
    {
        "etdl.safety"
    }
}

} // verus!
